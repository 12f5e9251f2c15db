//! Requests, and what can be wrong with one.
use crate::headers::Headers;
use vstd::prelude::*;
use vstd::utf8::{encode_utf8, valid_utf8};

verus! {

/// The methods that the engine knows.
#[derive(Debug, Clone, Copy, PartialEq, Eq, Structural)]
pub enum HttpMethod {
    Get,
    Post,
}

/// A request, as read from the connection.
#[derive(Debug, Clone)]
pub struct HttpRequest {
    pub method: HttpMethod,
    /// The path, as it stood in the request line.
    pub target: Vec<u8>,
    /// The protocol version, as it stood in the request line.
    pub version: Vec<u8>,
    pub headers: Headers,
    /// The body, where the request announced one with `Content-Length`.
    pub body: Option<Vec<u8>>,
}

/// The mathematical value of an [`HttpRequest`].
pub struct RequestView {
    pub method: HttpMethod,
    pub target: Seq<u8>,
    pub version: Seq<u8>,
    pub headers: Map<Seq<u8>, Seq<u8>>,
    pub body: Option<Seq<u8>>,
}

/// The bytes of an optional byte string.
pub open spec fn optional_bytes(bytes: Option<Vec<u8>>) -> Option<Seq<u8>> {
    match bytes {
        Some(bytes) => Some(bytes@),
        None => None,
    }
}

impl View for HttpRequest {
    type V = RequestView;

    open spec fn view(&self) -> RequestView {
        RequestView {
            method: self.method,
            target: self.target@,
            version: self.version@,
            headers: self.headers@,
            body: optional_bytes(self.body),
        }
    }
}

/// Why no request could be read.
#[derive(Debug, Clone, PartialEq, Eq)]
pub enum RequestError {
    /// The request line is empty.
    MissingMethod,
    /// The request line ends after the method.
    MissingTarget,
    /// The request line ends after the target.
    MissingVersion,
    /// The request line goes on after the version.
    MalformedRequestLine,
    /// The method is neither `GET` nor `POST`.
    UnsupportedMethod,
    /// A header line without `": "`; the line is kept for diagnostics.
    MalformedHeader(Vec<u8>),
    /// The value of `Content-Length` is not a number, or is too large for
    /// this machine.
    InvalidContentLength,
    /// The connection ended before the announced body was complete.
    TruncatedBody,
    /// The body was asked for as text and is not valid UTF-8.
    InvalidBodyEncoding,
}

/// The mathematical value of a [`RequestError`].
pub enum RequestErrorView {
    MissingMethod,
    MissingTarget,
    MissingVersion,
    MalformedRequestLine,
    UnsupportedMethod,
    MalformedHeader(Seq<u8>),
    InvalidContentLength,
    TruncatedBody,
    InvalidBodyEncoding,
}

impl View for RequestError {
    type V = RequestErrorView;

    open spec fn view(&self) -> RequestErrorView {
        match self {
            RequestError::MissingMethod => RequestErrorView::MissingMethod,
            RequestError::MissingTarget => RequestErrorView::MissingTarget,
            RequestError::MissingVersion => RequestErrorView::MissingVersion,
            RequestError::MalformedRequestLine => RequestErrorView::MalformedRequestLine,
            RequestError::UnsupportedMethod => RequestErrorView::UnsupportedMethod,
            RequestError::MalformedHeader(line) => RequestErrorView::MalformedHeader(line@),
            RequestError::InvalidContentLength => RequestErrorView::InvalidContentLength,
            RequestError::TruncatedBody => RequestErrorView::TruncatedBody,
            RequestError::InvalidBodyEncoding => RequestErrorView::InvalidBodyEncoding,
        }
    }
}

/// `String::from_utf8` of std: the bytes as a string, where they are valid
/// UTF-8, and nothing where they are not. The string's bytes are the bytes
/// given; nothing of this is proved here.
#[verifier::external_body]
fn text_of(bytes: Vec<u8>) -> (text: Option<String>)
    ensures
        text is Some <==> valid_utf8(bytes@),
        text matches Some(text) ==> encode_utf8(text@) == bytes@,
{
    String::from_utf8(bytes).ok()
}

impl HttpRequest {
    /// The body as text, for a consumer that needs text: nothing where the
    /// request has no body, the text where the body is valid UTF-8, and an
    /// error where it is not.
    pub fn body_text(&self) -> (text: Result<Option<String>, RequestError>)
        ensures
            match self.body {
                None => text == Ok::<Option<String>, RequestError>(None),
                Some(body) => if valid_utf8(body@) {
                    text matches Ok(Some(text)) && encode_utf8(text@) == body@
                } else {
                    text == Err::<Option<String>, RequestError>(RequestError::InvalidBodyEncoding)
                },
            },
    {
        match &self.body {
            None => Ok(None),
            Some(body) => match text_of(body.clone()) {
                Some(text) => Ok(Some(text)),
                None => Err(RequestError::InvalidBodyEncoding),
            },
        }
    }
}

} // verus!
