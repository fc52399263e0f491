use vstd::prelude::*;
use vstd::string::StringExecFns;

verus! {

/// Failures reported by the reconciler.
#[derive(Debug, PartialEq)]
pub enum Error {
    /// A transport failure or an unexpected HTTP status.
    HttpError(String),
    /// A response body or a literal that could not be understood.
    ParseError(String),
    /// A failure while reading local input.
    IoError(String),
    /// The shared public-IP source could not be used.
    GlobalFetcherError(String),
    /// A provider refused a request, or its configuration is unusable.
    Provider(String),
    /// The operation is not available.
    NotImplemente,
}

/// The mathematical content of an [`Error`].
pub enum ErrorView {
    HttpError(Seq<char>),
    ParseError(Seq<char>),
    IoError(Seq<char>),
    GlobalFetcherError(Seq<char>),
    Provider(Seq<char>),
    NotImplemente,
}

impl View for Error {
    type V = ErrorView;

    open spec fn view(&self) -> ErrorView {
        match self {
            Error::HttpError(m) => ErrorView::HttpError(m@),
            Error::ParseError(m) => ErrorView::ParseError(m@),
            Error::IoError(m) => ErrorView::IoError(m@),
            Error::GlobalFetcherError(m) => ErrorView::GlobalFetcherError(m@),
            Error::Provider(m) => ErrorView::Provider(m@),
            Error::NotImplemente => ErrorView::NotImplemente,
        }
    }
}

impl ErrorView {
    /// The text shown for an error: its category, then its detail.
    pub open spec fn message(self) -> Seq<char> {
        match self {
            ErrorView::HttpError(m) => "HTTP error: "@ + m,
            ErrorView::ParseError(m) => "Parse error: "@ + m,
            ErrorView::IoError(m) => "IO error: "@ + m,
            ErrorView::GlobalFetcherError(m) => "Global fetcher error: "@ + m,
            ErrorView::Provider(m) => "Provider error: "@ + m,
            ErrorView::NotImplemente => "Not implemented"@,
        }
    }
}

impl Error {
    /// Renders the error for display.
    pub fn to_string(&self) -> (r: String)
        ensures
            r@ == self@.message(),
    {
        match self {
            Error::HttpError(m) => String::from_str("HTTP error: ").concat(m.as_str()),
            Error::ParseError(m) => String::from_str("Parse error: ").concat(m.as_str()),
            Error::IoError(m) => String::from_str("IO error: ").concat(m.as_str()),
            Error::GlobalFetcherError(m) => String::from_str("Global fetcher error: ").concat(
                m.as_str(),
            ),
            Error::Provider(m) => String::from_str("Provider error: ").concat(m.as_str()),
            Error::NotImplemente => String::from_str("Not implemented"),
        }
    }
}

/// The text of the error for an event that answers no pending action.
pub open spec fn unexpected_event_message() -> Seq<char> {
    "event does not answer the pending action"@
}

/// The text of the error for an event that answers no pending action.
pub fn unexpected_event() -> (r: String)
    ensures
        r@ == unexpected_event_message(),
{
    String::from_str("event does not answer the pending action")
}

impl Clone for Error {
    fn clone(&self) -> (r: Self)
        ensures
            r@ == self@,
    {
        match self {
            Error::HttpError(m) => Error::HttpError(m.clone()),
            Error::ParseError(m) => Error::ParseError(m.clone()),
            Error::IoError(m) => Error::IoError(m.clone()),
            Error::GlobalFetcherError(m) => Error::GlobalFetcherError(m.clone()),
            Error::Provider(m) => Error::Provider(m.clone()),
            Error::NotImplemente => Error::NotImplemente,
        }
    }
}

} // verus!
