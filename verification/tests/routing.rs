use http_server::headers::Headers;
use http_server::request::{HttpMethod, HttpRequest};
use http_server::response::{Content, HttpResponseBuilder, HttpStatusCode};
use http_server::router::{read_response, route_request, write_response, RouteStep};

fn request(method: HttpMethod, target: &str) -> HttpRequest {
    HttpRequest {
        method,
        target: target.as_bytes().to_vec(),
        version: b"HTTP/1.1".to_vec(),
        headers: Headers::new(),
        body: None,
    }
}

fn answer(status_code: HttpStatusCode, content: Content) -> RouteStep {
    RouteStep::Respond(HttpResponseBuilder { status_code, version: b"HTTP/1.1".to_vec(), content })
}

fn not_found() -> RouteStep {
    answer(HttpStatusCode::NotFound404, Content::Empty)
}

#[test]
fn get_root_is_ok_without_content() {
    let step = route_request(&request(HttpMethod::Get, "/"), None);
    assert_eq!(step, answer(HttpStatusCode::Ok200, Content::Empty));
    let step = route_request(&request(HttpMethod::Get, "/"), Some("/tmp"));
    assert_eq!(step, answer(HttpStatusCode::Ok200, Content::Empty));
}

#[test]
fn get_root_on_the_wire() {
    match route_request(&request(HttpMethod::Get, "/"), None) {
        RouteStep::Respond(response) => {
            assert_eq!(response.serialize(), b"HTTP/1.1 200 Ok\r\n\r\n".to_vec())
        }
        other => panic!("unexpected step {:?}", other),
    }
}

#[test]
fn echo_returns_the_rest_of_the_path() {
    let step = route_request(&request(HttpMethod::Get, "/echo/abc"), None);
    assert_eq!(step, answer(HttpStatusCode::Ok200, Content::Text(b"abc".to_vec())));
}

#[test]
fn echo_rejoins_segments_with_slashes() {
    let step = route_request(&request(HttpMethod::Get, "/echo/a/b//c/"), None);
    assert_eq!(step, answer(HttpStatusCode::Ok200, Content::Text(b"a/b//c/".to_vec())));
}

#[test]
fn echo_without_segments_is_empty_text() {
    let step = route_request(&request(HttpMethod::Get, "/echo"), None);
    assert_eq!(step, answer(HttpStatusCode::Ok200, Content::Text(Vec::new())));
    let step = route_request(&request(HttpMethod::Get, "/echo/"), None);
    assert_eq!(step, answer(HttpStatusCode::Ok200, Content::Text(Vec::new())));
}

#[test]
fn echo_on_the_wire() {
    match route_request(&request(HttpMethod::Get, "/echo/h\u{e9}"), None) {
        RouteStep::Respond(response) => assert_eq!(
            response.serialize(),
            "HTTP/1.1 200 Ok\r\nContent-Type: text/plain\r\nContent-Length: 3\r\n\r\nh\u{e9}"
                .as_bytes()
                .to_vec()
        ),
        other => panic!("unexpected step {:?}", other),
    }
}

#[test]
fn echo_needs_the_exact_word() {
    assert_eq!(route_request(&request(HttpMethod::Get, "/echoes/abc"), None), not_found());
    assert_eq!(route_request(&request(HttpMethod::Get, "/Echo/abc"), None), not_found());
}

#[test]
fn user_agent_returns_the_header() {
    let mut with_agent = request(HttpMethod::Get, "/user-agent");
    with_agent.headers.insert(b"User-Agent".to_vec(), b"foo".to_vec());
    let step = route_request(&with_agent, None);
    assert_eq!(step, answer(HttpStatusCode::Ok200, Content::Text(b"foo".to_vec())));
}

#[test]
fn user_agent_without_the_header_is_not_found() {
    let step = route_request(&request(HttpMethod::Get, "/user-agent"), None);
    assert_eq!(step, not_found());
}

#[test]
fn user_agent_header_name_is_matched_exactly() {
    let mut lower = request(HttpMethod::Get, "/user-agent");
    lower.headers.insert(b"user-agent".to_vec(), b"foo".to_vec());
    assert_eq!(route_request(&lower, None), not_found());
}

#[test]
fn user_agent_with_more_segments_is_not_found() {
    let mut with_agent = request(HttpMethod::Get, "/user-agent/x");
    with_agent.headers.insert(b"User-Agent".to_vec(), b"foo".to_vec());
    assert_eq!(route_request(&with_agent, None), not_found());
}

#[test]
fn get_file_asks_for_the_read() {
    let step = route_request(&request(HttpMethod::Get, "/files/notes.txt"), Some("/srv/data"));
    assert_eq!(
        step,
        RouteStep::ReadFile { directory: "/srv/data".to_string(), name: b"notes.txt".to_vec() }
    );
}

#[test]
fn get_file_without_directory_is_not_found() {
    let step = route_request(&request(HttpMethod::Get, "/files/notes.txt"), None);
    assert_eq!(step, not_found());
}

#[test]
fn get_file_keeps_the_name_as_it_came() {
    let step = route_request(&request(HttpMethod::Get, "/files/.."), Some("/srv/data"));
    assert_eq!(step, RouteStep::ReadFile { directory: "/srv/data".to_string(), name: b"..".to_vec() });
}

#[test]
fn file_routes_take_one_name() {
    assert_eq!(route_request(&request(HttpMethod::Get, "/files"), Some("/srv")), not_found());
    assert_eq!(route_request(&request(HttpMethod::Get, "/files/a/b"), Some("/srv")), not_found());
    let mut post = request(HttpMethod::Post, "/files/a/b");
    post.body = Some(b"x".to_vec());
    assert_eq!(route_request(&post, Some("/srv")), not_found());
}

#[test]
fn read_response_carries_the_file() {
    let asked = request(HttpMethod::Get, "/files/notes.txt");
    let response = read_response(&asked, Some(vec![1, 2, 3]));
    assert_eq!(
        response,
        HttpResponseBuilder {
            status_code: HttpStatusCode::Ok200,
            version: b"HTTP/1.1".to_vec(),
            content: Content::OctetStream(vec![1, 2, 3]),
        }
    );
    assert_eq!(
        response.serialize(),
        b"HTTP/1.1 200 Ok\r\nContent-Type: application/octet-stream\r\nContent-Length: 3\r\n\r\n\x01\x02\x03"
            .to_vec()
    );
}

#[test]
fn read_response_without_file_is_not_found() {
    let asked = request(HttpMethod::Get, "/files/notes.txt");
    let response = read_response(&asked, None);
    assert_eq!(RouteStep::Respond(response), not_found());
}

#[test]
fn post_file_asks_for_the_write() {
    let mut post = request(HttpMethod::Post, "/files/notes.txt");
    post.body = Some(b"hello".to_vec());
    let step = route_request(&post, Some("/srv/data"));
    assert_eq!(
        step,
        RouteStep::WriteFile {
            directory: "/srv/data".to_string(),
            name: b"notes.txt".to_vec(),
            content: b"hello".to_vec(),
        }
    );
}

#[test]
fn post_file_without_body_is_internal_error() {
    let post = request(HttpMethod::Post, "/files/notes.txt");
    assert_eq!(
        route_request(&post, Some("/srv/data")),
        answer(HttpStatusCode::InternalError500, Content::Empty)
    );
    assert_eq!(route_request(&post, None), answer(HttpStatusCode::InternalError500, Content::Empty));
}

#[test]
fn post_file_without_directory_is_not_found() {
    let mut post = request(HttpMethod::Post, "/files/notes.txt");
    post.body = Some(b"hello".to_vec());
    assert_eq!(route_request(&post, None), not_found());
}

#[test]
fn write_response_is_created_or_internal_error() {
    let mut post = request(HttpMethod::Post, "/files/notes.txt");
    post.body = Some(b"hello".to_vec());
    assert_eq!(
        RouteStep::Respond(write_response(&post, true)),
        answer(HttpStatusCode::Created201, Content::Empty)
    );
    assert_eq!(write_response(&post, true).serialize(), b"HTTP/1.1 201 Created\r\n\r\n".to_vec());
    assert_eq!(
        RouteStep::Respond(write_response(&post, false)),
        answer(HttpStatusCode::InternalError500, Content::Empty)
    );
}

#[test]
fn unknown_paths_are_not_found_for_every_method() {
    for target in ["/nope", "/index.html", "//", "/a/b/c", "/files", "/user-agents", ""] {
        for method in [HttpMethod::Get, HttpMethod::Post] {
            let mut asked = request(method, target);
            asked.body = Some(b"x".to_vec());
            assert_eq!(route_request(&asked, Some("/srv")), not_found(), "target {:?}", target);
        }
    }
}

#[test]
fn post_to_get_routes_is_not_found() {
    for target in ["/", "/echo/abc", "/user-agent"] {
        let mut post = request(HttpMethod::Post, target);
        post.headers.insert(b"User-Agent".to_vec(), b"foo".to_vec());
        post.body = Some(b"x".to_vec());
        assert_eq!(route_request(&post, Some("/srv")), not_found(), "target {:?}", target);
    }
}

#[test]
fn responses_carry_the_version_of_the_request() {
    let mut old = request(HttpMethod::Get, "/");
    old.version = b"HTTP/1.0".to_vec();
    match route_request(&old, None) {
        RouteStep::Respond(response) => assert_eq!(response.version, b"HTTP/1.0".to_vec()),
        other => panic!("unexpected step {:?}", other),
    }
    assert_eq!(read_response(&old, None).version, b"HTTP/1.0".to_vec());
    assert_eq!(read_response(&old, Some(Vec::new())).version, b"HTTP/1.0".to_vec());
    assert_eq!(write_response(&old, true).version, b"HTTP/1.0".to_vec());
    assert_eq!(write_response(&old, false).version, b"HTTP/1.0".to_vec());
}

#[test]
fn the_piece_before_the_first_slash_is_dropped() {
    let step = route_request(&request(HttpMethod::Get, "x/echo/abc"), None);
    assert_eq!(step, answer(HttpStatusCode::Ok200, Content::Text(b"abc".to_vec())));
    assert_eq!(route_request(&request(HttpMethod::Get, "echo/abc"), None), not_found());
}
