use vstd::prelude::*;
use vstd::string::StringExecFns;
use crate::error::Error;
use crate::error::ErrorView;
use crate::wrapper::http::status_message;
use crate::wrapper::http::Response;

verus! {

/// The envelope that the provider puts around every result.
#[derive(Debug, PartialEq)]
pub struct CfResponse<T> {
    /// The provider's own verdict on the request.
    pub success: bool,
    /// The enclosed result as the provider sent it, for diagnostics.
    pub detail: String,
    /// The enclosed result, or why it could not be read as one.
    pub result: Result<T, String>,
}

/// The text of the error for a request that the provider did not accept.
pub open spec fn refusal_message(detail: Seq<char>) -> Seq<char> {
    "cloudflare api call failed: "@ + detail
}

impl<T> CfResponse<T> {
    /// What the envelope yields: the result of a request that the provider
    /// accepted, if it can be read.
    pub open spec fn outcome(self) -> Result<T, ErrorView> {
        if !self.success {
            Err(ErrorView::ParseError(refusal_message(self.detail@)))
        } else {
            match self.result {
                Ok(value) => Ok(value),
                Err(reason) => Err(ErrorView::ParseError(reason@)),
            }
        }
    }

    /// Opens the envelope.
    pub fn into_result(self) -> (r: Result<T, Error>)
        ensures
            match self.outcome() {
                Ok(value) => r == Ok::<T, Error>(value),
                Err(e) => r is Err && r->Err_0@ == e,
            },
    {
        if !self.success {
            Err(
                Error::ParseError(
                    String::from_str("cloudflare api call failed: ").concat(self.detail.as_str()),
                ),
            )
        } else {
            match self.result {
                Ok(value) => Ok(value),
                Err(reason) => Err(Error::ParseError(reason)),
            }
        }
    }
}

/// What became of one request to the provider.
#[derive(Debug, PartialEq)]
pub enum ApiReply<T> {
    /// No response arrived; the text says why.
    Unreachable(String),
    /// A response arrived. `decoded` is the envelope in its body, or why
    /// the body holds none.
    Answered { response: Response, decoded: Result<CfResponse<T>, String> },
}

/// The text of the error for a batch that met an unexpected status.
pub open spec fn overwrite_failed_message(cause: ErrorView) -> Seq<char> {
    "force overwrite record failed: "@ + cause.message()
}

/// The text of the error for a batch that the provider did not accept.
pub open spec fn overwrite_refused_message(cause: ErrorView) -> Seq<char> {
    "force overwrite record failed from cloudflare: "@ + cause.message()
}

impl<T> ApiReply<T> {
    /// What a reply to a query yields. In this order: a request without a
    /// response is an HTTP error; so is a status other than 200; a body
    /// without an envelope is a parse error; then the envelope decides.
    pub open spec fn outcome(self) -> Result<T, ErrorView> {
        match self {
            ApiReply::Unreachable(reason) => Err(ErrorView::HttpError(reason@)),
            ApiReply::Answered { response, decoded } => {
                if response.status != 200 {
                    Err(ErrorView::HttpError(status_message(response.status)))
                } else {
                    match decoded {
                        Err(reason) => Err(ErrorView::ParseError(reason@)),
                        Ok(envelope) => envelope.outcome(),
                    }
                }
            },
        }
    }

    /// What a reply to a batch yields: success where the provider accepted
    /// the batch, whatever it enclosed; else an error that says at which
    /// step the overwrite failed.
    pub open spec fn batch_outcome(self) -> Result<(), ErrorView> {
        match self {
            ApiReply::Unreachable(reason) => Err(ErrorView::HttpError(reason@)),
            ApiReply::Answered { response, decoded } => {
                if response.status != 200 {
                    Err(
                        ErrorView::HttpError(
                            overwrite_failed_message(
                                ErrorView::HttpError(status_message(response.status)),
                            ),
                        ),
                    )
                } else {
                    match decoded {
                        Err(reason) => Err(ErrorView::ParseError(reason@)),
                        Ok(envelope) => if envelope.success {
                            Ok(())
                        } else {
                            Err(
                                ErrorView::HttpError(
                                    overwrite_refused_message(
                                        ErrorView::ParseError(refusal_message(envelope.detail@)),
                                    ),
                                ),
                            )
                        },
                    }
                }
            },
        }
    }

    /// Settles the reply to a query.
    pub fn into_result(self) -> (r: Result<T, Error>)
        ensures
            match self.outcome() {
                Ok(value) => r == Ok::<T, Error>(value),
                Err(e) => r is Err && r->Err_0@ == e,
            },
    {
        match self {
            ApiReply::Unreachable(reason) => Err(Error::HttpError(reason)),
            ApiReply::Answered { response, decoded } => {
                match response.into_body() {
                    Err(e) => Err(e),
                    Ok(_) => match decoded {
                        Err(reason) => Err(Error::ParseError(reason)),
                        Ok(envelope) => envelope.into_result(),
                    },
                }
            },
        }
    }

    /// Settles the reply to a batch.
    pub fn into_batch_result(self) -> (r: Result<(), Error>)
        ensures
            match self.batch_outcome() {
                Ok(_) => r is Ok,
                Err(e) => r is Err && r->Err_0@ == e,
            },
    {
        match self {
            ApiReply::Unreachable(reason) => Err(Error::HttpError(reason)),
            ApiReply::Answered { response, decoded } => {
                match response.into_body() {
                    Err(e) => Err(
                        Error::HttpError(
                            String::from_str("force overwrite record failed: ").concat(
                                e.to_string().as_str(),
                            ),
                        ),
                    ),
                    Ok(_) => match decoded {
                        Err(reason) => Err(Error::ParseError(reason)),
                        Ok(envelope) => {
                            if envelope.success {
                                Ok(())
                            } else {
                                let cause = Error::ParseError(
                                    String::from_str("cloudflare api call failed: ").concat(
                                        envelope.detail.as_str(),
                                    ),
                                );
                                Err(
                                    Error::HttpError(
                                        String::from_str(
                                            "force overwrite record failed from cloudflare: ",
                                        ).concat(cause.to_string().as_str()),
                                    ),
                                )
                            }
                        },
                    },
                }
            },
        }
    }
}

} // verus!
