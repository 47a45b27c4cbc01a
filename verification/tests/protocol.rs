//! Request parsing, response serialization, and form decoding on the wire.

use web_server::HttpError;
use web_server::HttpMethod;
use web_server::HttpVersion;
use web_server::Response;
use web_server::decode_form;
use web_server::parse_request;

#[test]
fn serialize_hello_world() {
    let mut r = Response::new();
    r.set_body_bytes(b"Hello World!".to_vec());
    let out = r.serialize();
    assert_eq!(
        out,
        b"HTTP/1.1 200 OK\r\nContent-Length: 12\r\n\r\nHello World!".to_vec()
    );
}

#[test]
fn parse_simple_get() {
    let req = parse_request(b"GET /a HTTP/1.1\r\nHost: x\r\n\r\n").unwrap();
    assert!(matches!(req.method, HttpMethod::GET));
    assert_eq!(req.path, b"/a".to_vec());
    assert!(matches!(req.version, HttpVersion::V1_1));
    assert_eq!(req.headers.len(), 1);
    assert_eq!(req.headers[0].0, b"Host".to_vec());
    assert_eq!(req.headers[0].1, b"x".to_vec());
    assert!(req.body.is_empty());
}

#[test]
fn request_line_two_tokens_rejected() {
    let r = parse_request(b"GET /a\r\n\r\n");
    assert!(matches!(r, Err(HttpError::MalformedRequestLine)));
}

#[test]
fn unsupported_version_rejected() {
    let r = parse_request(b"GET /a HTTP/9.9\r\n\r\n");
    assert!(matches!(r, Err(HttpError::MalformedRequestLine)));
}

#[test]
fn header_without_colon_rejected() {
    let r = parse_request(b"GET /a HTTP/1.1\r\nbroken header\r\n\r\n");
    assert!(matches!(r, Err(HttpError::MalformedHeader)));
}

#[test]
fn content_length_body_read_exactly() {
    let req = parse_request(b"POST /s HTTP/1.1\r\nContent-Length: 5\r\n\r\nhelloEXTRA").unwrap();
    assert!(matches!(req.method, HttpMethod::POST));
    assert_eq!(req.body, b"hello".to_vec());
}

#[test]
fn content_length_non_numeric_rejected() {
    let r = parse_request(b"POST /s HTTP/1.1\r\nContent-Length: five\r\n\r\nhello");
    assert!(matches!(r, Err(HttpError::MalformedHeader)));
}

#[test]
fn content_length_truncated_body_rejected() {
    let r = parse_request(b"POST /s HTTP/1.1\r\nContent-Length: 9\r\n\r\nhello");
    assert!(matches!(r, Err(HttpError::MalformedHeader)));
}

#[test]
fn unknown_method_token_preserved() {
    let req = parse_request(b"BREW /pot HTTP/1.0\r\n\r\n").unwrap();
    match req.method {
        HttpMethod::Unknown(tok) => assert_eq!(tok, b"BREW".to_vec()),
        _ => panic!("expected an unknown method token"),
    }
    assert!(matches!(req.version, HttpVersion::V1_0));
}

#[test]
fn header_values_trimmed_and_last_wins() {
    let req = parse_request(b"GET / HTTP/1.1\r\nx-a:  one \r\nX-A:\ttwo\r\n\r\n").unwrap();
    assert_eq!(req.headers.len(), 2);
    assert_eq!(req.headers[0].1, b"one".to_vec());
    let v = req.header(b"X-a").expect("header should be found case-insensitively");
    assert_eq!(v, &b"two".to_vec());
}

#[test]
fn missing_file_yields_not_found() {
    let mut r = Response::new();
    r.set_body_file(b"no/such/file.png".to_vec());
    let out = r.serialize_resolved(None);
    let text = String::from_utf8(out).unwrap();
    assert!(text.starts_with("HTTP/1.1 404 Not Found\r\n"));
    assert!(text.ends_with("\r\n\r\nNot Found"));
}

#[test]
fn resolved_file_gets_content_type_and_length() {
    let mut r = Response::new();
    r.set_body_file(b"logo.png".to_vec());
    let out = r.serialize_resolved(Some(vec![1u8, 2, 3]));
    let head = String::from_utf8_lossy(&out[..out.len() - 3]).to_string();
    assert!(head.starts_with("HTTP/1.1 200 OK\r\n"));
    assert!(head.contains("Content-Type: image/png\r\n"));
    assert!(head.contains("Content-Length: 3\r\n"));
    assert_eq!(&out[out.len() - 3..], &[1u8, 2, 3]);
}

#[test]
fn set_body_text_adds_html_content_type() {
    let mut r = Response::new();
    r.set_body_text("<p>hi</p>");
    let out = String::from_utf8(r.serialize()).unwrap();
    assert!(out.contains("Content-Type: text/html\r\n"));
    assert!(out.ends_with("\r\n\r\n<p>hi</p>"));
}

#[test]
fn explicit_content_length_is_kept() {
    let mut r = Response::new();
    r.set_header(b"Content-Length", b"2");
    r.set_body_bytes(b"xyz".to_vec());
    let out = String::from_utf8(r.serialize()).unwrap();
    assert_eq!(out, "HTTP/1.1 200 OK\r\nContent-Length: 2\r\n\r\nxyz");
}

#[test]
fn reason_phrases() {
    assert_eq!(web_server::HttpCode::new(500).reason(), b"Internal Server Error".to_vec());
    assert_eq!(web_server::HttpCode::new(200).reason(), b"OK".to_vec());
    assert_eq!(web_server::HttpCode::new(299).reason(), b"Unknown".to_vec());
}

#[test]
fn decode_form_pairs() {
    let pairs = decode_form(b"a=1&b=hello+world");
    assert_eq!(pairs.len(), 2);
    assert_eq!(pairs[0].0, b"a".to_vec());
    assert_eq!(pairs[0].1, b"1".to_vec());
    assert_eq!(pairs[1].0, b"b".to_vec());
    assert_eq!(pairs[1].1, b"hello world".to_vec());
}

#[test]
fn decode_form_percent_escapes() {
    let pairs = decode_form(b"k%20ey=v%2Bal");
    assert_eq!(pairs.len(), 1);
    assert_eq!(pairs[0].0, b"k ey".to_vec());
    assert_eq!(pairs[0].1, b"v+al".to_vec());
}

#[test]
fn decode_form_malformed_escape_passes_through() {
    let pairs = decode_form(b"a=%zz&b");
    assert_eq!(pairs.len(), 2);
    assert_eq!(pairs[0].1, b"%zz".to_vec());
    assert_eq!(pairs[1].0, b"b".to_vec());
    assert_eq!(pairs[1].1, b"".to_vec());
}

#[test]
fn decode_form_empty_body_has_no_pairs() {
    assert_eq!(decode_form(b"").len(), 0);
}
