use http_server::response::{serialize_response, Response, Status};

#[test]
fn bare_ok() {
    let r = Response { status: Status::OK, body: None, content_type: None };
    assert_eq!(serialize_response(&r), b"HTTP/1.1 200 OK\r\n\r\n".to_vec());
}

#[test]
fn every_status_text() {
    for (s, text) in [
        (Status::OK, "200 OK"),
        (Status::Created, "201 Created"),
        (Status::NotFound, "404 Not Found"),
        (Status::InternalServerError, "500 Internal Server Error"),
    ] {
        let r = Response { status: s, body: None, content_type: None };
        assert_eq!(serialize_response(&r), format!("HTTP/1.1 {}\r\n\r\n", text).into_bytes());
    }
}

#[test]
fn body_with_content_type() {
    let r = Response {
        status: Status::OK,
        body: Some(b"foo/bar".to_vec()),
        content_type: Some(b"text/plain".to_vec()),
    };
    assert_eq!(
        serialize_response(&r),
        b"HTTP/1.1 200 OK\r\nContent-Type: text/plain\nContent-Length: 7\n\r\nfoo/bar".to_vec()
    );
}

#[test]
fn content_length_has_several_digits() {
    let body = vec![b'x'; 1234];
    let r = Response { status: Status::OK, body: Some(body.clone()), content_type: Some(b"a/b".to_vec()) };
    let mut expected = b"HTTP/1.1 200 OK\r\nContent-Type: a/b\nContent-Length: 1234\n\r\n".to_vec();
    expected.extend_from_slice(&body);
    assert_eq!(serialize_response(&r), expected);
}

#[test]
fn empty_body_has_length_zero() {
    let r = Response { status: Status::OK, body: Some(Vec::new()), content_type: Some(b"text/plain".to_vec()) };
    assert_eq!(
        serialize_response(&r),
        b"HTTP/1.1 200 OK\r\nContent-Type: text/plain\nContent-Length: 0\n\r\n".to_vec()
    );
}

#[test]
fn content_type_without_body_writes_no_headers() {
    let r = Response { status: Status::Created, body: None, content_type: Some(b"application/octet-stream".to_vec()) };
    assert_eq!(serialize_response(&r), b"HTTP/1.1 201 Created\r\n\r\n".to_vec());
}

#[test]
fn body_without_content_type_writes_no_headers() {
    let r = Response { status: Status::OK, body: Some(b"abc".to_vec()), content_type: None };
    assert_eq!(serialize_response(&r), b"HTTP/1.1 200 OK\r\n\r\nabc".to_vec());
}
