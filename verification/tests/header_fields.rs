use http_server::headers::Headers;

#[test]
fn new_headers_hold_nothing() {
    let headers = Headers::new();
    assert_eq!(headers.get(b"Host"), None);
    assert_eq!(headers.get(b""), None);
}

#[test]
fn inserted_fields_are_found() {
    let mut headers = Headers::new();
    headers.insert(b"Host".to_vec(), b"a".to_vec());
    headers.insert(b"Accept".to_vec(), b"*/*".to_vec());
    assert_eq!(headers.get(b"Host"), Some(&b"a".to_vec()));
    assert_eq!(headers.get(b"Accept"), Some(&b"*/*".to_vec()));
    assert_eq!(headers.get(b"Hos"), None);
}

#[test]
fn insert_replaces_the_value() {
    let mut headers = Headers::new();
    headers.insert(b"Host".to_vec(), b"a".to_vec());
    headers.insert(b"Other".to_vec(), b"x".to_vec());
    headers.insert(b"Host".to_vec(), b"b".to_vec());
    assert_eq!(headers.get(b"Host"), Some(&b"b".to_vec()));
    assert_eq!(headers.get(b"Other"), Some(&b"x".to_vec()));
}

#[test]
fn names_are_compared_byte_for_byte() {
    let mut headers = Headers::new();
    headers.insert(b"Host".to_vec(), b"a".to_vec());
    assert_eq!(headers.get(b"host"), None);
    assert_eq!(headers.get(b"HOST"), None);
    assert_eq!(headers.get(b"Host "), None);
}
