use http_server::response::{Content, HttpResponseBuilder, HttpStatusCode};

fn response(status_code: HttpStatusCode, content: Content) -> HttpResponseBuilder {
    HttpResponseBuilder { status_code, version: b"HTTP/1.1".to_vec(), content }
}

#[test]
fn empty_ok_is_status_line_and_blank_line() {
    let wire = response(HttpStatusCode::Ok200, Content::Empty).serialize();
    assert_eq!(wire, b"HTTP/1.1 200 Ok\r\n\r\n".to_vec());
}

#[test]
fn created_has_its_reason_phrase() {
    let wire = response(HttpStatusCode::Created201, Content::Empty).serialize();
    assert_eq!(wire, b"HTTP/1.1 201 Created\r\n\r\n".to_vec());
}

#[test]
fn not_found_has_its_reason_phrase() {
    let wire = response(HttpStatusCode::NotFound404, Content::Empty).serialize();
    assert_eq!(wire, b"HTTP/1.1 404 NotFound\r\n\r\n".to_vec());
}

#[test]
fn internal_error_has_its_reason_phrase() {
    let wire = response(HttpStatusCode::InternalError500, Content::Empty).serialize();
    assert_eq!(wire, b"HTTP/1.1 500 InternalError\r\n\r\n".to_vec());
}

#[test]
fn status_codes_are_the_numbers() {
    assert_eq!(HttpStatusCode::Ok200.code(), 200);
    assert_eq!(HttpStatusCode::Created201.code(), 201);
    assert_eq!(HttpStatusCode::NotFound404.code(), 404);
    assert_eq!(HttpStatusCode::InternalError500.code(), 500);
    assert_eq!(HttpStatusCode::NotFound404.text(), "404 NotFound");
}

#[test]
fn text_is_sent_as_text_plain() {
    let wire = response(HttpStatusCode::Ok200, Content::Text(b"hi".to_vec())).serialize();
    assert_eq!(
        wire,
        b"HTTP/1.1 200 Ok\r\nContent-Type: text/plain\r\nContent-Length: 2\r\n\r\nhi".to_vec()
    );
}

#[test]
fn bytes_are_sent_as_octet_stream() {
    let wire =
        response(HttpStatusCode::Ok200, Content::OctetStream(vec![0, 255, 13, 10])).serialize();
    let mut expected =
        b"HTTP/1.1 200 Ok\r\nContent-Type: application/octet-stream\r\nContent-Length: 4\r\n\r\n"
            .to_vec();
    expected.extend_from_slice(&[0, 255, 13, 10]);
    assert_eq!(wire, expected);
}

#[test]
fn empty_text_still_has_content_headers() {
    let wire = response(HttpStatusCode::Ok200, Content::Text(Vec::new())).serialize();
    assert_eq!(
        wire,
        b"HTTP/1.1 200 Ok\r\nContent-Type: text/plain\r\nContent-Length: 0\r\n\r\n".to_vec()
    );
}

#[test]
fn content_length_counts_bytes_not_characters() {
    let text = "h\u{e9}llo \u{4e16}\u{754c}".as_bytes().to_vec();
    assert_eq!(text.len(), 13);
    let wire = response(HttpStatusCode::Ok200, Content::Text(text.clone())).serialize();
    let mut expected =
        b"HTTP/1.1 200 Ok\r\nContent-Type: text/plain\r\nContent-Length: 13\r\n\r\n".to_vec();
    expected.extend_from_slice(&text);
    assert_eq!(wire, expected);
}

#[test]
fn version_is_written_as_given() {
    let wire = HttpResponseBuilder {
        status_code: HttpStatusCode::Ok200,
        version: b"HTTP/1.0".to_vec(),
        content: Content::Empty,
    }
    .serialize();
    assert_eq!(wire, b"HTTP/1.0 200 Ok\r\n\r\n".to_vec());
}

#[test]
fn long_body_length_is_written_in_full() {
    let body = vec![b'x'; 12345];
    let wire = response(HttpStatusCode::Ok200, Content::OctetStream(body.clone())).serialize();
    let head =
        b"HTTP/1.1 200 Ok\r\nContent-Type: application/octet-stream\r\nContent-Length: 12345\r\n\r\n";
    assert_eq!(&wire[..head.len()], &head[..]);
    assert_eq!(&wire[head.len()..], &body[..]);
}
