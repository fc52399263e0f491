use vstd::prelude::*;
use vstd::string::StringExecFns;
use crate::error::Error;
use crate::error::ErrorView;
use crate::text::decimal;
use crate::text::u64_to_string;

verus! {

/// The name of an HTTP header.
#[derive(Debug, PartialEq)]
pub enum HeaderKey {
    Authorization,
    ContentType,
    Custom(String),
}

/// The mathematical content of a [`HeaderKey`].
pub enum HeaderKeyView {
    Authorization,
    ContentType,
    Custom(Seq<char>),
}

impl HeaderKeyView {
    /// The header name as it is written on the wire.
    pub open spec fn name(self) -> Seq<char> {
        match self {
            HeaderKeyView::Authorization => "Authorization"@,
            HeaderKeyView::ContentType => "Content-Type"@,
            HeaderKeyView::Custom(s) => s,
        }
    }
}

impl View for HeaderKey {
    type V = HeaderKeyView;

    open spec fn view(&self) -> HeaderKeyView {
        match self {
            HeaderKey::Authorization => HeaderKeyView::Authorization,
            HeaderKey::ContentType => HeaderKeyView::ContentType,
            HeaderKey::Custom(s) => HeaderKeyView::Custom(s@),
        }
    }
}

impl HeaderKey {
    pub fn as_str(&self) -> (r: &str)
        ensures
            r@ == self@.name(),
    {
        match self {
            HeaderKey::Authorization => "Authorization",
            HeaderKey::ContentType => "Content-Type",
            HeaderKey::Custom(s) => s.as_str(),
        }
    }
}

impl Clone for HeaderKey {
    fn clone(&self) -> (r: Self)
        ensures
            r@ == self@,
    {
        match self {
            HeaderKey::Authorization => HeaderKey::Authorization,
            HeaderKey::ContentType => HeaderKey::ContentType,
            HeaderKey::Custom(s) => HeaderKey::Custom(s.clone()),
        }
    }
}

/// What came back from an HTTP request.
#[derive(Debug, PartialEq)]
pub struct Response {
    pub status: u16,
    pub body: String,
}

/// The text of the error for a response whose status is not 200.
pub open spec fn status_message(status: u16) -> Seq<char> {
    "status: "@ + decimal(status as nat)
}

impl Response {
    /// The body of a response with status 200; any other status is an
    /// error that names the status.
    pub fn into_body(self) -> (r: Result<String, Error>)
        ensures
            self.status == 200 ==> r is Ok && r->Ok_0@ == self.body@,
            self.status != 200 ==> r is Err && r->Err_0@ == ErrorView::HttpError(
                status_message(self.status),
            ),
    {
        if self.status == 200 {
            Ok(self.body)
        } else {
            let number = u64_to_string(self.status as u64);
            Err(Error::HttpError(String::from_str("status: ").concat(number.as_str())))
        }
    }
}

impl Clone for Response {
    fn clone(&self) -> (r: Self)
        ensures
            r.status == self.status,
            r.body@ == self.body@,
    {
        Response { status: self.status, body: self.body.clone() }
    }
}

/// An HTTP header: a name and its value.
#[derive(Debug, PartialEq)]
pub struct Header {
    key: HeaderKey,
    value: String,
}

/// The mathematical content of a [`Header`].
pub struct HeaderView {
    pub key: HeaderKeyView,
    pub value: Seq<char>,
}

impl View for Header {
    type V = HeaderView;

    closed spec fn view(&self) -> HeaderView {
        HeaderView { key: self.key@, value: self.value@ }
    }
}

impl DeepView for Header {
    type V = HeaderView;

    open spec fn deep_view(&self) -> HeaderView {
        self@
    }
}

impl Header {
    pub fn new(key: HeaderKey, value: String) -> (r: Self)
        ensures
            r@ == (HeaderView { key: key@, value: value@ }),
    {
        Self { key, value }
    }

    /// The name of the header.
    pub fn key(&self) -> (r: &HeaderKey)
        ensures
            r@ == self@.key,
    {
        &self.key
    }

    /// The value of the header.
    pub fn value(&self) -> (r: &str)
        ensures
            r@ == self@.value,
    {
        self.value.as_str()
    }
}

impl Clone for Header {
    fn clone(&self) -> (r: Self)
        ensures
            r@ == self@,
    {
        Header { key: self.key.clone(), value: self.value.clone() }
    }
}

} // verus!
