//! Responses and their wire format.
use crate::bytes::{crlf, decimal, write_decimal, CR, LF, SPACE};
use vstd::prelude::*;
use vstd::string::StringSliceAdditionalSpecFns;

verus! {

/// What a response carries after its status line.
#[derive(Debug, Clone, PartialEq, Eq)]
pub enum Content {
    /// Nothing: no content headers and no body.
    Empty,
    /// Text, sent as `text/plain`.
    Text(Vec<u8>),
    /// Raw bytes, sent as `application/octet-stream`.
    OctetStream(Vec<u8>),
}

/// The mathematical value of a [`Content`].
pub enum ContentView {
    Empty,
    Text(Seq<u8>),
    OctetStream(Seq<u8>),
}

impl View for Content {
    type V = ContentView;

    open spec fn view(&self) -> ContentView {
        match self {
            Content::Empty => ContentView::Empty,
            Content::Text(text) => ContentView::Text(text@),
            Content::OctetStream(bytes) => ContentView::OctetStream(bytes@),
        }
    }
}

/// The status of a response.
#[derive(Debug, Clone, Copy, PartialEq, Eq, Structural)]
pub enum HttpStatusCode {
    Ok200,
    Created201,
    NotFound404,
    InternalError500,
}

impl HttpStatusCode {
    /// The code and reason phrase that the status line shows.
    pub open spec fn spec_text(self) -> Seq<u8> {
        match self {
            HttpStatusCode::Ok200 => "200 Ok".spec_bytes(),
            HttpStatusCode::Created201 => "201 Created".spec_bytes(),
            HttpStatusCode::NotFound404 => "404 NotFound".spec_bytes(),
            HttpStatusCode::InternalError500 => "500 InternalError".spec_bytes(),
        }
    }

    /// The numeric code.
    pub open spec fn spec_code(self) -> nat {
        match self {
            HttpStatusCode::Ok200 => 200,
            HttpStatusCode::Created201 => 201,
            HttpStatusCode::NotFound404 => 404,
            HttpStatusCode::InternalError500 => 500,
        }
    }

    /// The numeric code.
    pub fn code(&self) -> (code: u16)
        ensures
            code == self.spec_code(),
    {
        match self {
            HttpStatusCode::Ok200 => 200,
            HttpStatusCode::Created201 => 201,
            HttpStatusCode::NotFound404 => 404,
            HttpStatusCode::InternalError500 => 500,
        }
    }

    /// The code and reason phrase that the status line shows.
    pub fn text(&self) -> (text: &'static str)
        ensures
            text.spec_bytes() == self.spec_text(),
    {
        match self {
            HttpStatusCode::Ok200 => "200 Ok",
            HttpStatusCode::Created201 => "201 Created",
            HttpStatusCode::NotFound404 => "404 NotFound",
            HttpStatusCode::InternalError500 => "500 InternalError",
        }
    }
}

/// A response before it is put on the wire.
#[derive(Debug, Clone, PartialEq, Eq)]
pub struct HttpResponseBuilder {
    pub status_code: HttpStatusCode,
    /// The protocol version, as the request gave it.
    pub version: Vec<u8>,
    pub content: Content,
}

/// The mathematical value of an [`HttpResponseBuilder`].
pub struct ResponseView {
    pub status_code: HttpStatusCode,
    pub version: Seq<u8>,
    pub content: ContentView,
}

impl View for HttpResponseBuilder {
    type V = ResponseView;

    open spec fn view(&self) -> ResponseView {
        ResponseView {
            status_code: self.status_code,
            version: self.version@,
            content: self.content@,
        }
    }
}

/// The status line: version, code and reason phrase, and the end of the line.
pub open spec fn status_line(version: Seq<u8>, status_code: HttpStatusCode) -> Seq<u8> {
    version + seq![SPACE] + status_code.spec_text() + crlf()
}

/// The two content headers and the blank line that ends the header block,
/// for a body of `length` bytes of the media type `media_type`.
pub open spec fn content_headers(media_type: Seq<u8>, length: nat) -> Seq<u8> {
    "Content-Type: ".spec_bytes() + media_type + crlf() + "Content-Length: ".spec_bytes()
        + decimal(length) + crlf() + crlf()
}

/// The bytes that go on the wire for a response. Without content the status
/// line is followed by the blank line alone. With content, also with content
/// of length zero, the content headers stand between them and the body
/// follows; the length announced is the body's length in bytes.
pub open spec fn serialized(response: ResponseView) -> Seq<u8> {
    let head = status_line(response.version, response.status_code);
    match response.content {
        ContentView::Empty => head + crlf(),
        ContentView::Text(text) => head + content_headers("text/plain".spec_bytes(), text.len())
            + text,
        ContentView::OctetStream(bytes) => head + content_headers(
            "application/octet-stream".spec_bytes(),
            bytes.len(),
        ) + bytes,
    }
}

fn write_crlf(out: &mut Vec<u8>)
    ensures
        final(out)@ == old(out)@ + crlf(),
{
    out.push(CR);
    out.push(LF);
    assert(out@ =~= old(out)@ + crlf());
}

fn write_content(out: &mut Vec<u8>, media_type: &str, body: &Vec<u8>)
    ensures
        final(out)@ == old(out)@ + content_headers(media_type.spec_bytes(), body@.len()) + body@,
{
    out.extend_from_slice("Content-Type: ".as_bytes());
    out.extend_from_slice(media_type.as_bytes());
    write_crlf(out);
    out.extend_from_slice("Content-Length: ".as_bytes());
    write_decimal(body.len(), out);
    write_crlf(out);
    write_crlf(out);
    out.extend_from_slice(body.as_slice());
    assert(out@ =~= old(out)@ + content_headers(media_type.spec_bytes(), body@.len()) + body@);
}

impl HttpResponseBuilder {
    /// The response in its wire format.
    pub fn serialize(&self) -> (wire: Vec<u8>)
        ensures
            wire@ == serialized(self@),
    {
        let mut wire: Vec<u8> = self.version.clone();
        wire.push(SPACE);
        wire.extend_from_slice(self.status_code.text().as_bytes());
        write_crlf(&mut wire);
        assert(wire@ =~= status_line(self.version@, self.status_code));
        match &self.content {
            Content::Empty => {
                write_crlf(&mut wire);
            },
            Content::Text(text) => {
                write_content(&mut wire, "text/plain", text);
            },
            Content::OctetStream(bytes) => {
                write_content(&mut wire, "application/octet-stream", bytes);
            },
        }
        wire
    }
}

} // verus!
