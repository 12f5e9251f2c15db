//! One exchange as a whole: what the answer to a request looks like on the
//! wire, and the answer to what was no request.
use crate::bytes::{
    crlf, decimal, lemma_decimal_round_trip, lemma_join_split, lemma_split_concat,
    lemma_split_without_separator, parsed_number, split, SLASH, SPACE,
};
use crate::parser::{delimiter_index, is_delimiter, lemma_delimiter_index, parsed_header_line};
use crate::request::{HttpMethod, RequestError, RequestErrorView, RequestView};
use crate::response::{
    content_headers, serialized, status_line, Content, ContentView, HttpResponseBuilder,
    HttpStatusCode, ResponseView,
};
use crate::router::{
    bare, is_echo, is_file, is_root, is_user_agent, read_outcome, routed, segments,
    write_outcome, RouteStepView,
};
use vstd::prelude::*;
use vstd::slice::slice_to_vec;
use vstd::string::StringSliceAdditionalSpecFns;

verus! {

/// The protocol version of an answer to bytes that held no request to take
/// one from.
pub open spec fn fallback_version() -> Seq<u8> {
    "HTTP/1.1".spec_bytes()
}

impl RequestError {
    /// The answer to a connection whose request could not be read, whatever
    /// was wrong with it: 500 without content, as HTTP/1.1.
    pub fn response(&self) -> (response: HttpResponseBuilder)
        ensures
            response@ == bare(HttpStatusCode::InternalError500, fallback_version()),
    {
        HttpResponseBuilder {
            status_code: HttpStatusCode::InternalError500,
            version: slice_to_vec("HTTP/1.1".as_bytes()),
            content: Content::Empty,
        }
    }
}

/// The answer that echoes `text`.
pub open spec fn echo_response(version: Seq<u8>, text: Seq<u8>) -> ResponseView {
    ResponseView { status_code: HttpStatusCode::Ok200, version, content: ContentView::Text(text) }
}

/// A GET of `/` is answered with the status line `200 Ok` and the blank
/// line, and nothing else: no content header and no body.
pub proof fn lemma_root_answer(request: RequestView, directory: Option<Seq<char>>)
    requires
        request.method == HttpMethod::Get,
        request.target == "/".spec_bytes(),
    ensures
        routed(request, directory) == RouteStepView::Respond(
            bare(HttpStatusCode::Ok200, request.version),
        ),
        serialized(bare(HttpStatusCode::Ok200, request.version)) == request.version
            + " 200 Ok\r\n\r\n".spec_bytes(),
{
    reveal_strlit("/");
    vstd::string::is_ascii_spec_bytes("/");
    let empty = Seq::<u8>::empty();
    assert(request.target == empty.push(SLASH) + empty);
    lemma_split_concat(empty, empty, SLASH);
    assert(split(empty, SLASH) == seq![empty]);
    assert(segments(request.target) == seq![empty]);
    lemma_bare_on_the_wire(request.version);
}

/// A GET of `/echo/` and any `text` behind it is answered with that text:
/// 200, the content type `text/plain`, the length of the text in bytes as
/// the content length, and the text as the body.
pub proof fn lemma_echo_answer(request: RequestView, directory: Option<Seq<char>>, text: Seq<u8>)
    requires
        request.method == HttpMethod::Get,
        request.target == "/echo/".spec_bytes() + text,
    ensures
        routed(request, directory) == RouteStepView::Respond(echo_response(request.version, text)),
        serialized(echo_response(request.version, text)) == request.version
            + " 200 Ok\r\nContent-Type: text/plain\r\nContent-Length: ".spec_bytes() + decimal(
            text.len(),
        ) + "\r\n\r\n".spec_bytes() + text,
{
    reveal_strlit("/echo/");
    reveal_strlit("echo");
    vstd::string::is_ascii_spec_bytes("/echo/");
    vstd::string::is_ascii_spec_bytes("echo");
    let echo = "echo".spec_bytes();
    assert(request.target == seq![SLASH] + echo + seq![SLASH] + text);
    lemma_segments_under(echo, text);
    let path = segments(request.target);
    assert(path.skip(1) == split(text, SLASH));
    lemma_join_split(text, SLASH);
    assert(is_echo(path));
    assert(!is_root(path));

    reveal_strlit("200 Ok");
    reveal_strlit("text/plain");
    reveal_strlit("Content-Type: ");
    reveal_strlit("Content-Length: ");
    reveal_strlit(" 200 Ok\r\nContent-Type: text/plain\r\nContent-Length: ");
    reveal_strlit("\r\n\r\n");
    vstd::string::is_ascii_spec_bytes("200 Ok");
    vstd::string::is_ascii_spec_bytes("text/plain");
    vstd::string::is_ascii_spec_bytes("Content-Type: ");
    vstd::string::is_ascii_spec_bytes("Content-Length: ");
    vstd::string::is_ascii_spec_bytes(" 200 Ok\r\nContent-Type: text/plain\r\nContent-Length: ");
    vstd::string::is_ascii_spec_bytes("\r\n\r\n");
    assert(seq![SPACE] + "200 Ok".spec_bytes() + crlf() + "Content-Type: ".spec_bytes()
        + "text/plain".spec_bytes() + crlf() + "Content-Length: ".spec_bytes()
        == " 200 Ok\r\nContent-Type: text/plain\r\nContent-Length: ".spec_bytes());
    assert(crlf() + crlf() == "\r\n\r\n".spec_bytes());
    assert(serialized(echo_response(request.version, text)) == request.version + (seq![SPACE]
        + "200 Ok".spec_bytes() + crlf() + "Content-Type: ".spec_bytes()
        + "text/plain".spec_bytes() + crlf() + "Content-Length: ".spec_bytes()) + decimal(
        text.len(),
    ) + (crlf() + crlf()) + text);
}

/// The content length that a response announces reads back as the length
/// that was written: its header line is a header line of the name
/// `Content-Length`, and its value is the number.
pub proof fn lemma_content_length_reads_back(length: nat)
    ensures
        parsed_header_line("Content-Length: ".spec_bytes() + decimal(length)) == Ok::<
            (Seq<u8>, Seq<u8>),
            RequestErrorView,
        >(("Content-Length".spec_bytes(), decimal(length))),
        parsed_number(decimal(length)) == Some(length),
{
    reveal_strlit("Content-Length: ");
    reveal_strlit("Content-Length");
    vstd::string::is_ascii_spec_bytes("Content-Length: ");
    vstd::string::is_ascii_spec_bytes("Content-Length");
    lemma_decimal_round_trip(length);
    let line = "Content-Length: ".spec_bytes() + decimal(length);
    lemma_delimiter_index(line, 0);
    assert(is_delimiter(line, 14));
    let at = delimiter_index(line, 0);
    if at < 14 {
        assert(is_delimiter(line, at));
    }
    assert(at == 14);
    assert(line.take(14) == "Content-Length".spec_bytes());
    assert(line.skip(16) == decimal(length));
}

/// The path `/<word>/<rest>` has the segment `word` and after it the
/// segments of `rest`, given that `word` holds no slash.
proof fn lemma_segments_under(word: Seq<u8>, rest: Seq<u8>)
    requires
        forall|i: int| 0 <= i < word.len() ==> word[i] != SLASH,
    ensures
        segments(seq![SLASH] + word + seq![SLASH] + rest) == seq![word] + split(rest, SLASH),
{
    let empty = Seq::<u8>::empty();
    let prefix = empty.push(SLASH) + word;
    assert(seq![SLASH] + word + seq![SLASH] + rest == prefix.push(SLASH) + rest);
    lemma_split_without_separator(word, SLASH);
    lemma_split_concat(empty, word, SLASH);
    lemma_split_concat(prefix, rest, SLASH);
    assert(split(empty, SLASH) == seq![empty]);
    assert((seq![empty] + seq![word] + split(rest, SLASH)).skip(1) == seq![word] + split(
        rest,
        SLASH,
    ));
}

/// A response without content is, on the wire, its status line and the
/// blank line.
pub proof fn lemma_bare_on_the_wire(version: Seq<u8>)
    ensures
        serialized(bare(HttpStatusCode::Ok200, version)) == version
            + " 200 Ok\r\n\r\n".spec_bytes(),
        serialized(bare(HttpStatusCode::Created201, version)) == version
            + " 201 Created\r\n\r\n".spec_bytes(),
        serialized(bare(HttpStatusCode::NotFound404, version)) == version
            + " 404 NotFound\r\n\r\n".spec_bytes(),
        serialized(bare(HttpStatusCode::InternalError500, version)) == version
            + " 500 InternalError\r\n\r\n".spec_bytes(),
{
    reveal_strlit("200 Ok");
    reveal_strlit(" 200 Ok\r\n\r\n");
    reveal_strlit("201 Created");
    reveal_strlit(" 201 Created\r\n\r\n");
    reveal_strlit("404 NotFound");
    reveal_strlit(" 404 NotFound\r\n\r\n");
    reveal_strlit("500 InternalError");
    reveal_strlit(" 500 InternalError\r\n\r\n");
    vstd::string::is_ascii_spec_bytes("200 Ok");
    vstd::string::is_ascii_spec_bytes(" 200 Ok\r\n\r\n");
    vstd::string::is_ascii_spec_bytes("201 Created");
    vstd::string::is_ascii_spec_bytes(" 201 Created\r\n\r\n");
    vstd::string::is_ascii_spec_bytes("404 NotFound");
    vstd::string::is_ascii_spec_bytes(" 404 NotFound\r\n\r\n");
    vstd::string::is_ascii_spec_bytes("500 InternalError");
    vstd::string::is_ascii_spec_bytes(" 500 InternalError\r\n\r\n");
    assert(seq![SPACE] + "200 Ok".spec_bytes() + crlf() + crlf() == " 200 Ok\r\n\r\n".spec_bytes());
    assert(seq![SPACE] + "201 Created".spec_bytes() + crlf() + crlf()
        == " 201 Created\r\n\r\n".spec_bytes());
    assert(seq![SPACE] + "404 NotFound".spec_bytes() + crlf() + crlf()
        == " 404 NotFound\r\n\r\n".spec_bytes());
    assert(seq![SPACE] + "500 InternalError".spec_bytes() + crlf() + crlf()
        == " 500 InternalError\r\n\r\n".spec_bytes());
    assert(serialized(bare(HttpStatusCode::Ok200, version)) == version + (seq![SPACE]
        + "200 Ok".spec_bytes() + crlf() + crlf()));
    assert(serialized(bare(HttpStatusCode::Created201, version)) == version + (seq![SPACE]
        + "201 Created".spec_bytes() + crlf() + crlf()));
    assert(serialized(bare(HttpStatusCode::NotFound404, version)) == version + (seq![SPACE]
        + "404 NotFound".spec_bytes() + crlf() + crlf()));
    assert(serialized(bare(HttpStatusCode::InternalError500, version)) == version + (seq![SPACE]
        + "500 InternalError".spec_bytes() + crlf() + crlf()));
}

/// Every response starts, on the wire, with its status line.
pub proof fn lemma_wire_starts_with_status_line(response: ResponseView)
    ensures
        serialized(response).len() >= status_line(response.version, response.status_code).len(),
        serialized(response).take(
            status_line(response.version, response.status_code).len() as int,
        ) == status_line(response.version, response.status_code),
{
    let head = status_line(response.version, response.status_code);
    match response.content {
        ContentView::Empty => {
            assert((head + crlf()).take(head.len() as int) == head);
        },
        ContentView::Text(text) => {
            let tail = content_headers("text/plain".spec_bytes(), text.len()) + text;
            assert(serialized(response) == head + tail);
            assert((head + tail).take(head.len() as int) == head);
        },
        ContentView::OctetStream(bytes) => {
            let tail = content_headers("application/octet-stream".spec_bytes(), bytes.len())
                + bytes;
            assert(serialized(response) == head + tail);
            assert((head + tail).take(head.len() as int) == head);
        },
    }
}

/// A GET of `/user-agent` is answered with the value of the field
/// `User-Agent` as text, and with 404 and no content where the request has
/// no such field.
pub proof fn lemma_user_agent_answer(request: RequestView, directory: Option<Seq<char>>)
    requires
        request.method == HttpMethod::Get,
        request.target == "/user-agent".spec_bytes(),
    ensures
        request.headers.contains_key("User-Agent".spec_bytes()) ==> routed(request, directory)
            == RouteStepView::Respond(
            echo_response(request.version, request.headers["User-Agent".spec_bytes()]),
        ),
        !request.headers.contains_key("User-Agent".spec_bytes()) ==> routed(request, directory)
            == RouteStepView::Respond(bare(HttpStatusCode::NotFound404, request.version)),
{
    reveal_strlit("/user-agent");
    reveal_strlit("user-agent");
    reveal_strlit("echo");
    vstd::string::is_ascii_spec_bytes("/user-agent");
    vstd::string::is_ascii_spec_bytes("user-agent");
    vstd::string::is_ascii_spec_bytes("echo");
    let word = "user-agent".spec_bytes();
    let empty = Seq::<u8>::empty();
    assert(request.target == empty.push(SLASH) + word);
    lemma_split_without_separator(word, SLASH);
    lemma_split_concat(empty, word, SLASH);
    assert(split(empty, SLASH) == seq![empty]);
    let path = segments(request.target);
    assert(path == seq![word]);
    assert(is_user_agent(path));
    assert(!is_root(path));
    assert(word[0] != "echo".spec_bytes()[0]);
    assert(!is_echo(path));
}

/// A GET of `/files/<name>` asks for the file `name` of the directory to be
/// read, and is answered with 404 where no directory is configured. Once
/// read, the file is the answer: 200, the content type
/// `application/octet-stream`, and the file's bytes as the body. A file that
/// is not there, or cannot be read, is answered with 404 and no content.
pub proof fn lemma_get_file_answer(
    request: RequestView,
    directory: Seq<char>,
    name: Seq<u8>,
    contents: Seq<u8>,
)
    requires
        request.method == HttpMethod::Get,
        request.target == "/files/".spec_bytes() + name,
        forall|i: int| 0 <= i < name.len() ==> name[i] != SLASH,
    ensures
        routed(request, Some(directory)) == (RouteStepView::ReadFile { directory, name }),
        routed(request, None) == RouteStepView::Respond(
            bare(HttpStatusCode::NotFound404, request.version),
        ),
        serialized(read_outcome(request.version, Some(contents))) == request.version
            + " 200 Ok\r\nContent-Type: application/octet-stream\r\nContent-Length: ".spec_bytes()
            + decimal(contents.len()) + "\r\n\r\n".spec_bytes() + contents,
        serialized(read_outcome(request.version, None)) == request.version
            + " 404 NotFound\r\n\r\n".spec_bytes(),
{
    lemma_file_path(request.target, name);
    lemma_bare_on_the_wire(request.version);

    reveal_strlit("200 Ok");
    reveal_strlit("application/octet-stream");
    reveal_strlit("Content-Type: ");
    reveal_strlit("Content-Length: ");
    reveal_strlit(" 200 Ok\r\nContent-Type: application/octet-stream\r\nContent-Length: ");
    reveal_strlit("\r\n\r\n");
    vstd::string::is_ascii_spec_bytes("200 Ok");
    vstd::string::is_ascii_spec_bytes("application/octet-stream");
    vstd::string::is_ascii_spec_bytes("Content-Type: ");
    vstd::string::is_ascii_spec_bytes("Content-Length: ");
    vstd::string::is_ascii_spec_bytes(
        " 200 Ok\r\nContent-Type: application/octet-stream\r\nContent-Length: ",
    );
    vstd::string::is_ascii_spec_bytes("\r\n\r\n");
    assert(seq![SPACE] + "200 Ok".spec_bytes() + crlf() + "Content-Type: ".spec_bytes()
        + "application/octet-stream".spec_bytes() + crlf() + "Content-Length: ".spec_bytes()
        == " 200 Ok\r\nContent-Type: application/octet-stream\r\nContent-Length: ".spec_bytes());
    assert(crlf() + crlf() == "\r\n\r\n".spec_bytes());
    assert(serialized(read_outcome(request.version, Some(contents))) == request.version + (seq![
        SPACE,
    ] + "200 Ok".spec_bytes() + crlf() + "Content-Type: ".spec_bytes()
        + "application/octet-stream".spec_bytes() + crlf() + "Content-Length: ".spec_bytes())
        + decimal(contents.len()) + (crlf() + crlf()) + contents);
}

/// A POST of `/files/<name>` with a body asks for the file `name` of the
/// directory to be written with exactly the body's bytes, and is answered
/// with 404 where no directory is configured; without a body it is answered
/// with 500, directory or not. Once written, the answer is `201 Created`
/// without content; a write that failed is answered with 500.
pub proof fn lemma_post_file_answer(
    request: RequestView,
    directory: Seq<char>,
    name: Seq<u8>,
)
    requires
        request.method == HttpMethod::Post,
        request.target == "/files/".spec_bytes() + name,
        forall|i: int| 0 <= i < name.len() ==> name[i] != SLASH,
    ensures
        request.body matches Some(content) ==> routed(request, Some(directory)) == (
        RouteStepView::WriteFile { directory, name, content }) && routed(request, None)
            == RouteStepView::Respond(bare(HttpStatusCode::NotFound404, request.version)),
        request.body is None ==> routed(request, Some(directory)) == RouteStepView::Respond(
            bare(HttpStatusCode::InternalError500, request.version),
        ) && routed(request, None) == RouteStepView::Respond(
            bare(HttpStatusCode::InternalError500, request.version),
        ),
        serialized(write_outcome(request.version, true)) == request.version
            + " 201 Created\r\n\r\n".spec_bytes(),
        serialized(write_outcome(request.version, false)) == request.version
            + " 500 InternalError\r\n\r\n".spec_bytes(),
{
    lemma_file_path(request.target, name);
    lemma_bare_on_the_wire(request.version);
}

/// The path `/files/<name>` is a file path and no other.
proof fn lemma_file_path(target: Seq<u8>, name: Seq<u8>)
    requires
        target == "/files/".spec_bytes() + name,
        forall|i: int| 0 <= i < name.len() ==> name[i] != SLASH,
    ensures
        segments(target) == seq!["files".spec_bytes(), name],
        is_file(segments(target)),
        !is_root(segments(target)),
        !is_echo(segments(target)),
        !is_user_agent(segments(target)),
{
    reveal_strlit("/files/");
    reveal_strlit("files");
    reveal_strlit("echo");
    vstd::string::is_ascii_spec_bytes("/files/");
    vstd::string::is_ascii_spec_bytes("files");
    vstd::string::is_ascii_spec_bytes("echo");
    let word = "files".spec_bytes();
    assert(target == seq![SLASH] + word + seq![SLASH] + name);
    lemma_segments_under(word, name);
    lemma_split_without_separator(name, SLASH);
    assert(seq![word] + seq![name] == seq![word, name]);
    assert(word[0] != "echo".spec_bytes()[0]);
}

} // verus!
