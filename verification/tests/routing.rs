//! Route registration, first-match dispatch, the default response, and
//! the redirect helper.

use web_server::Dispatched;
use web_server::HttpMethod;
use web_server::HttpServer;
use web_server::Response;
use web_server::create_server;
use web_server::redirect;
use web_server::redirect_with_code;

#[test]
fn first_route_wins() {
    let server: HttpServer<u32> = web_server::new();
    let server = server.get("/a", 1).any("/a", 2).post("/a", 3);
    assert_eq!(server.match_route(&HttpMethod::GET, b"/a"), Some(0));
    // the ANY entry stands before the POST entry, so it wins for POST too
    assert_eq!(server.match_route(&HttpMethod::POST, b"/a"), Some(1));
    assert_eq!(server.match_route(&HttpMethod::DELETE, b"/a"), Some(1));
    assert_eq!(server.match_route(&HttpMethod::GET, b"/b"), None);
}

#[test]
fn match_is_case_sensitive_and_exact() {
    let server: HttpServer<u32> = web_server::new();
    let server = server.get("/path", 7);
    assert_eq!(server.match_route(&HttpMethod::GET, b"/Path"), None);
    assert_eq!(server.match_route(&HttpMethod::GET, b"/path/"), None);
    assert_eq!(server.match_route(&HttpMethod::POST, b"/path"), None);
    assert_eq!(server.match_route(&HttpMethod::GET, b"/path"), Some(0));
}

#[test]
fn unmatched_path_yields_default_byte_identical() {
    let mut fallback = Response::new();
    fallback.set_code(418);
    fallback.set_header(b"X-Marker", b"yes");
    fallback.set_body_bytes(b"nothing here".to_vec());
    let expected = fallback.serialize();
    let server: HttpServer<u32> = create_server(fallback);
    let server = server.get("/hello", 1);
    match server.dispatch(b"GET /missing HTTP/1.1\r\n\r\n") {
        Dispatched::NoRoute(resp) => assert_eq!(resp.serialize(), expected),
        _ => panic!("expected the default response"),
    }
}

#[test]
fn malformed_input_yields_bad_request() {
    let server: HttpServer<u32> = web_server::new();
    let server = server.get("/hello", 1);
    match server.dispatch(b"garbage") {
        Dispatched::BadRequest(resp) => {
            let out = String::from_utf8(resp.serialize()).unwrap();
            assert!(out.starts_with("HTTP/1.1 400 Bad Request\r\n"));
        },
        _ => panic!("expected a 400"),
    }
}

#[test]
fn matched_route_carries_the_request() {
    let server: HttpServer<u32> = web_server::new();
    let server = server.get("/echo", 9);
    match server.dispatch(b"GET /echo HTTP/1.1\r\nHost: h\r\n\r\n") {
        Dispatched::Route(i, req) => {
            assert_eq!(i, 0);
            assert_eq!(server.routes[i].handler, 9);
            assert_eq!(req.path, b"/echo".to_vec());
        },
        _ => panic!("expected the registered route"),
    }
}

#[test]
fn default_server_falls_back_to_not_found() {
    let server: HttpServer<u32> = web_server::new();
    match server.dispatch(b"GET / HTTP/1.1\r\n\r\n") {
        Dispatched::NoRoute(resp) => {
            let out = String::from_utf8(resp.serialize()).unwrap();
            assert!(out.starts_with("HTTP/1.1 404 Not Found\r\n"));
        },
        _ => panic!("expected the built-in default"),
    }
}

#[test]
fn redirect_sets_location_and_code() {
    let r = redirect("/next");
    assert_eq!(r.code, 302);
    assert_eq!(r.headers.len(), 1);
    assert_eq!(r.headers[0].0, b"Location".to_vec());
    assert_eq!(r.headers[0].1, b"/next".to_vec());
    let out = String::from_utf8(r.serialize()).unwrap();
    assert!(out.starts_with("HTTP/1.1 302 Found\r\nLocation: /next\r\n"));

    let moved = redirect_with_code("/there", 301);
    assert_eq!(moved.code, 301);
    let out = String::from_utf8(moved.serialize()).unwrap();
    assert!(out.starts_with("HTTP/1.1 301 Moved Permanently\r\n"));
}
