//! The routing table: from a request to its response, or to the file
//! operation that decides the response.
use crate::bytes::{bytes_eq, join, join_bytes, split, split_bytes, views, SLASH};
use crate::request::{optional_bytes, HttpMethod, HttpRequest, RequestView};
use crate::response::{Content, ContentView, HttpResponseBuilder, HttpStatusCode, ResponseView};
use vstd::prelude::*;
use vstd::slice::slice_subrange;
use vstd::string::StringSliceAdditionalSpecFns;

verus! {

/// What the router decided.
#[derive(Debug, Clone, PartialEq, Eq)]
pub enum RouteStep {
    /// The response is known.
    Respond(HttpResponseBuilder),
    /// The response depends on the file `name` in `directory`: it is to be
    /// read, and [`read_response`] makes the response of what came of it.
    ReadFile { directory: String, name: Vec<u8> },
    /// The file `name` in `directory` is to be created, or emptied if it
    /// exists, and `content` written to it; [`write_response`] makes the
    /// response of what came of it.
    WriteFile { directory: String, name: Vec<u8>, content: Vec<u8> },
}

/// The mathematical value of a [`RouteStep`].
pub enum RouteStepView {
    Respond(ResponseView),
    ReadFile { directory: Seq<char>, name: Seq<u8> },
    WriteFile { directory: Seq<char>, name: Seq<u8>, content: Seq<u8> },
}

impl View for RouteStep {
    type V = RouteStepView;

    open spec fn view(&self) -> RouteStepView {
        match self {
            RouteStep::Respond(response) => RouteStepView::Respond(response@),
            RouteStep::ReadFile { directory, name } => RouteStepView::ReadFile {
                directory: directory@,
                name: name@,
            },
            RouteStep::WriteFile { directory, name, content } => RouteStepView::WriteFile {
                directory: directory@,
                name: name@,
                content: content@,
            },
        }
    }
}

/// The segments of a path: its pieces between slashes, without the piece
/// before the first slash, which is empty where the path starts with one.
pub open spec fn segments(target: Seq<u8>) -> Seq<Seq<u8>> {
    split(target, SLASH).skip(1)
}

/// The path `/`: one segment, and that one empty.
pub open spec fn is_root(segments: Seq<Seq<u8>>) -> bool {
    segments.len() == 1 && segments[0].len() == 0
}

/// A path under `/echo`: `echo` and any number of segments after it.
pub open spec fn is_echo(segments: Seq<Seq<u8>>) -> bool {
    segments.len() >= 1 && segments[0] == "echo".spec_bytes()
}

/// The path `/user-agent`.
pub open spec fn is_user_agent(segments: Seq<Seq<u8>>) -> bool {
    segments.len() == 1 && segments[0] == "user-agent".spec_bytes()
}

/// A path `/files/<name>`: `files` and one segment after it.
pub open spec fn is_file(segments: Seq<Seq<u8>>) -> bool {
    segments.len() == 2 && segments[0] == "files".spec_bytes()
}

/// A response without content.
pub open spec fn bare(status_code: HttpStatusCode, version: Seq<u8>) -> ResponseView {
    ResponseView { status_code, version, content: ContentView::Empty }
}

/// The chars of an optional string.
pub open spec fn optional_chars(text: Option<&str>) -> Option<Seq<char>> {
    match text {
        Some(text) => Some(text@),
        None => None,
    }
}

/// The routing table. The rows are tried from the top and the first that
/// fits decides; every response carries the version of the request.
///
/// | method | path              | decision                                            |
/// |--------|-------------------|-----------------------------------------------------|
/// | GET    | `/`               | 200, no content                                     |
/// | GET    | `/echo/...`       | 200, text: the segments after `echo`, joined by `/` |
/// | GET    | `/user-agent`     | 200, text: the `User-Agent` field; 404 without one  |
/// | GET    | `/files/<name>`   | 404 without a directory; else read the file         |
/// | POST   | `/files/<name>`   | 500 without a body; 404 without a directory; else write the file |
/// | any    | anything else     | 404                                                 |
pub open spec fn routed(request: RequestView, directory: Option<Seq<char>>) -> RouteStepView {
    let path = segments(request.target);
    let version = request.version;
    if request.method == HttpMethod::Get && is_root(path) {
        RouteStepView::Respond(bare(HttpStatusCode::Ok200, version))
    } else if request.method == HttpMethod::Get && is_echo(path) {
        RouteStepView::Respond(
            ResponseView {
                status_code: HttpStatusCode::Ok200,
                version,
                content: ContentView::Text(join(path.skip(1), SLASH)),
            },
        )
    } else if request.method == HttpMethod::Get && is_user_agent(path) {
        if request.headers.contains_key("User-Agent".spec_bytes()) {
            RouteStepView::Respond(
                ResponseView {
                    status_code: HttpStatusCode::Ok200,
                    version,
                    content: ContentView::Text(request.headers["User-Agent".spec_bytes()]),
                },
            )
        } else {
            RouteStepView::Respond(bare(HttpStatusCode::NotFound404, version))
        }
    } else if request.method == HttpMethod::Get && is_file(path) {
        match directory {
            None => RouteStepView::Respond(bare(HttpStatusCode::NotFound404, version)),
            Some(directory) => RouteStepView::ReadFile { directory, name: path[1] },
        }
    } else if request.method == HttpMethod::Post && is_file(path) {
        match request.body {
            None => RouteStepView::Respond(bare(HttpStatusCode::InternalError500, version)),
            Some(content) => match directory {
                None => RouteStepView::Respond(bare(HttpStatusCode::NotFound404, version)),
                Some(directory) => RouteStepView::WriteFile { directory, name: path[1], content },
            },
        }
    } else {
        RouteStepView::Respond(bare(HttpStatusCode::NotFound404, version))
    }
}

/// A response without content, for the request's protocol version.
pub fn bare_response(status_code: HttpStatusCode, request: &HttpRequest) -> (response:
    HttpResponseBuilder)
    ensures
        response@ == bare(status_code, request.version@),
{
    HttpResponseBuilder { status_code, version: request.version.clone(), content: Content::Empty }
}

/// Routes a request. `directory` is the directory that files are served
/// from and stored in, if one was configured.
///
/// The name in a file route is the raw path segment: it is not checked for
/// `..` or anything else that may lead out of the directory. Whoever performs
/// the file operation has to decide whether to trust it.
pub fn route_request(request: &HttpRequest, directory: Option<&str>) -> (step: RouteStep)
    ensures
        step@ == routed(request@, optional_chars(directory)),
        step@ matches RouteStepView::Respond(response) ==> response.version == request.version@,
        !is_root(segments(request.target@)) && !is_echo(segments(request.target@))
            && !is_user_agent(segments(request.target@)) && !is_file(segments(request.target@))
            ==> step@ == RouteStepView::Respond(bare(HttpStatusCode::NotFound404, request.version@)),
{
    let parts = split_bytes(request.target.as_slice(), SLASH);
    let count = parts.len();
    let ghost path = segments(request.target@);
    assert(path.len() == count - 1);
    assert(forall|i: int| 0 <= i < path.len() ==> path[i] == parts@[i + 1]@);
    match request.method {
        HttpMethod::Get => {
            if count == 2 && parts[1].len() == 0 {
                RouteStep::Respond(bare_response(HttpStatusCode::Ok200, request))
            } else if count >= 2 && bytes_eq(parts[1].as_slice(), "echo".as_bytes()) {
                let rest = slice_subrange(parts.as_slice(), 2, count);
                assert(views(rest@) == path.skip(1));
                let text = join_bytes(rest, SLASH);
                RouteStep::Respond(
                    HttpResponseBuilder {
                        status_code: HttpStatusCode::Ok200,
                        version: request.version.clone(),
                        content: Content::Text(text),
                    },
                )
            } else if count == 2 && bytes_eq(parts[1].as_slice(), "user-agent".as_bytes()) {
                match request.headers.get("User-Agent".as_bytes()) {
                    Some(agent) => RouteStep::Respond(
                        HttpResponseBuilder {
                            status_code: HttpStatusCode::Ok200,
                            version: request.version.clone(),
                            content: Content::Text(agent.clone()),
                        },
                    ),
                    None => RouteStep::Respond(bare_response(HttpStatusCode::NotFound404, request)),
                }
            } else if count == 3 && bytes_eq(parts[1].as_slice(), "files".as_bytes()) {
                match directory {
                    None => RouteStep::Respond(bare_response(HttpStatusCode::NotFound404, request)),
                    Some(directory) => RouteStep::ReadFile {
                        directory: directory.to_owned(),
                        name: parts[2].clone(),
                    },
                }
            } else {
                RouteStep::Respond(bare_response(HttpStatusCode::NotFound404, request))
            }
        },
        HttpMethod::Post => {
            if count == 3 && bytes_eq(parts[1].as_slice(), "files".as_bytes()) {
                match &request.body {
                    None => RouteStep::Respond(bare_response(HttpStatusCode::InternalError500, request)),
                    Some(content) => match directory {
                        None => RouteStep::Respond(bare_response(HttpStatusCode::NotFound404, request)),
                        Some(directory) => RouteStep::WriteFile {
                            directory: directory.to_owned(),
                            name: parts[2].clone(),
                            content: content.clone(),
                        },
                    },
                }
            } else {
                RouteStep::Respond(bare_response(HttpStatusCode::NotFound404, request))
            }
        },
    }
}

/// The response to a GET of a file, once the read was tried: 200 with the
/// file's bytes, or 404 where there was no such file or it could not be read
/// (`contents` is `None`).
pub open spec fn read_outcome(version: Seq<u8>, contents: Option<Seq<u8>>) -> ResponseView {
    match contents {
        Some(bytes) => ResponseView {
            status_code: HttpStatusCode::Ok200,
            version,
            content: ContentView::OctetStream(bytes),
        },
        None => bare(HttpStatusCode::NotFound404, version),
    }
}

/// The response to a POST of a file, once the write was tried: 201 where the
/// file was written, 500 where it was not.
pub open spec fn write_outcome(version: Seq<u8>, written: bool) -> ResponseView {
    if written {
        bare(HttpStatusCode::Created201, version)
    } else {
        bare(HttpStatusCode::InternalError500, version)
    }
}

/// Makes the response to `request` after a [`RouteStep::ReadFile`]:
/// `contents` holds the file's bytes, or nothing where it could not be read.
pub fn read_response(request: &HttpRequest, contents: Option<Vec<u8>>) -> (response:
    HttpResponseBuilder)
    ensures
        response@ == read_outcome(request.version@, optional_bytes(contents)),
        response.version@ == request.version@,
{
    match contents {
        Some(bytes) => HttpResponseBuilder {
            status_code: HttpStatusCode::Ok200,
            version: request.version.clone(),
            content: Content::OctetStream(bytes),
        },
        None => bare_response(HttpStatusCode::NotFound404, request),
    }
}

/// Makes the response to `request` after a [`RouteStep::WriteFile`]:
/// `written` says whether the file now holds the content.
pub fn write_response(request: &HttpRequest, written: bool) -> (response: HttpResponseBuilder)
    ensures
        response@ == write_outcome(request.version@, written),
        response.version@ == request.version@,
{
    if written {
        bare_response(HttpStatusCode::Created201, request)
    } else {
        bare_response(HttpStatusCode::InternalError500, request)
    }
}

} // verus!
