use std::collections::HashMap;

use http_server::request::{Header, Request};
use http_server::response::{Response, Status};
use http_server::router::{
    file_name, handle_get_echo, handle_get_file_result, handle_get_root, handle_get_user_agent,
    handle_post_file_result, path_remainder_bytes, route, FileRead, Route,
};
use http_server::server::{handle_request, Action};

fn request(method: &str, path: &str, headers: &[(&str, &str)], body: &[u8]) -> Request {
    Request {
        method: method.as_bytes().to_vec(),
        path: path.as_bytes().to_vec(),
        version: b"HTTP/1.1".to_vec(),
        headers: headers
            .iter()
            .map(|(n, v)| Header { name: n.as_bytes().to_vec(), value: v.as_bytes().to_vec() })
            .collect(),
        body: body.to_vec(),
    }
}

fn respond(a: Action) -> Response {
    match a {
        Action::Respond(r) => r,
        _ => panic!("expected a response"),
    }
}

/// Carries out an action against an in-memory store.
fn serve(req: &Request, store: &mut HashMap<Vec<u8>, Vec<u8>>) -> Response {
    match handle_request(req, true) {
        Action::Respond(r) => r,
        Action::ReadFile(name) => match store.get(&name) {
            Some(b) => handle_get_file_result(FileRead::Contents(b.clone())),
            None => handle_get_file_result(FileRead::NotFound),
        },
        Action::WriteFile(name, body) => {
            store.insert(name, body);
            handle_post_file_result(true)
        }
    }
}

#[test]
fn root_is_ok_without_body() {
    let r = respond(handle_request(&request("GET", "/", &[], b""), false));
    assert_eq!(r.status, Status::OK);
    assert!(r.body.is_none());
    assert!(r.content_type.is_none());
    let r = handle_get_root(&request("GET", "/", &[], b""));
    assert_eq!(r.status, Status::OK);
    assert!(r.body.is_none());
}

#[test]
fn echo_rejoins_segments() {
    let r = respond(handle_request(&request("GET", "/echo/foo/bar", &[], b""), false));
    assert_eq!(r.status, Status::OK);
    assert_eq!(r.body, Some(b"foo/bar".to_vec()));
    assert_eq!(r.content_type, Some(b"text/plain".to_vec()));
}

#[test]
fn echo_handler_of_empty_remainder() {
    let r = handle_get_echo(&request("GET", "/echo/", &[], b""));
    assert_eq!(r.body, Some(Vec::new()));
}

#[test]
fn user_agent_is_reflected() {
    let req = request("GET", "/user-agent", &[("Host", "x"), ("User-Agent", "test-client")], b"");
    let r = respond(handle_request(&req, false));
    assert_eq!(r.status, Status::OK);
    assert_eq!(r.body, Some(b"test-client".to_vec()));
    assert_eq!(r.content_type, Some(b"text/plain".to_vec()));
}

#[test]
fn first_user_agent_wins() {
    let req = request("GET", "/user-agent", &[("User-Agent", "one"), ("User-Agent", "two")], b"");
    assert_eq!(handle_get_user_agent(&req).body, Some(b"one".to_vec()));
}

#[test]
fn missing_user_agent_gives_empty_body() {
    let r = handle_get_user_agent(&request("GET", "/user-agent", &[], b""));
    assert_eq!(r.status, Status::OK);
    assert_eq!(r.body, Some(Vec::new()));
}

#[test]
fn missing_file_is_not_found() {
    let mut store = HashMap::new();
    let r = serve(&request("GET", "/files/missing", &[], b""), &mut store);
    assert_eq!(r.status, Status::NotFound);
    assert!(r.body.is_none());
}

#[test]
fn file_route_without_directory_is_server_error() {
    for method in ["GET", "POST"] {
        let r = respond(handle_request(&request(method, "/files/anything", &[], b"x"), false));
        assert_eq!(r.status, Status::InternalServerError);
        assert!(r.body.is_none());
    }
}

#[test]
fn unmatched_is_not_found() {
    for (m, p) in [("DELETE", "/"), ("GET", "/nothing"), ("POST", "/echo/x"), ("GET", "/user-agent/"), ("get", "/")] {
        let r = respond(handle_request(&request(m, p, &[], b""), true));
        assert_eq!(r.status, Status::NotFound);
        assert!(r.body.is_none());
        assert!(r.content_type.is_none());
    }
}

#[test]
fn post_then_get_returns_body() {
    let mut store = HashMap::new();
    let w = serve(&request("POST", "/files/x", &[("Content-Length", "5")], b"hello"), &mut store);
    assert_eq!(w.status, Status::Created);
    assert!(w.body.is_none());
    assert_eq!(w.content_type, Some(b"application/octet-stream".to_vec()));
    let r = serve(&request("GET", "/files/x", &[], b""), &mut store);
    assert_eq!(r.status, Status::OK);
    assert_eq!(r.body, Some(b"hello".to_vec()));
    assert_eq!(r.content_type, Some(b"application/octet-stream".to_vec()));
}

#[test]
fn file_actions_name_first_segment() {
    match handle_request(&request("GET", "/files/a/b", &[], b""), true) {
        Action::ReadFile(n) => assert_eq!(n, b"a".to_vec()),
        _ => panic!("expected a read"),
    }
    match handle_request(&request("POST", "/files/doc.txt", &[], b"data"), true) {
        Action::WriteFile(n, b) => {
            assert_eq!(n, b"doc.txt".to_vec());
            assert_eq!(b, b"data".to_vec());
        }
        _ => panic!("expected a write"),
    }
}

#[test]
fn file_results() {
    assert_eq!(handle_get_file_result(FileRead::Failed).status, Status::InternalServerError);
    let r = handle_post_file_result(false);
    assert_eq!(r.status, Status::InternalServerError);
    assert!(r.content_type.is_none());
}

#[test]
fn routing_order() {
    assert_eq!(route(b"GET", b"/"), Route::Root);
    assert_eq!(route(b"GET", b"/echo/"), Route::Echo);
    assert_eq!(route(b"GET", b"/echo"), Route::Unmatched);
    assert_eq!(route(b"GET", b"/user-agent"), Route::UserAgent);
    assert_eq!(route(b"GET", b"/files/f"), Route::GetFile);
    assert_eq!(route(b"POST", b"/files/f"), Route::PostFile);
    assert_eq!(route(b"POST", b"/"), Route::Unmatched);
}

#[test]
fn path_pieces() {
    assert_eq!(path_remainder_bytes(b"/echo/a/b/"), b"a/b/".to_vec());
    assert_eq!(path_remainder_bytes(b"/echo"), Vec::<u8>::new());
    assert_eq!(file_name(b"/files/"), Vec::<u8>::new());
    assert_eq!(file_name(b"/files/name"), b"name".to_vec());
}
