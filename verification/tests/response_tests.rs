use std::io::Read;

use flate2::read::GzDecoder;
use http_server::request::split_head_body;
use http_server::response::{Response, ResponseError};

const NOW: u64 = 1_475_419_451;

#[test]
fn test_response_to_http_bytes() {
    let response = Response::ok("<h1>Hola</h1>");
    let bytes = response.into_http_bytes("close", None, NOW).unwrap();
    let text = String::from_utf8(bytes).unwrap();

    assert!(text.starts_with("HTTP/1.1 200 OK\r\n"));
    assert!(text.contains("Date: "));
    assert!(text.contains("Content-Type: text/html; charset=utf-8\r\n"));
    assert!(text.contains("Content-Length: 13\r\n"));
    assert!(text.contains("Connection: close\r\n"));
    assert!(!text.contains("Content-Encoding:"));
    assert!(text.ends_with("<h1>Hola</h1>"));
}

#[test]
fn test_response_to_http_bytes_keep_alive() {
    let response = Response::ok("<h1>Hola</h1>");
    let bytes = response.into_http_bytes("keep-alive", None, NOW).unwrap();
    let text = String::from_utf8(bytes).unwrap();

    assert!(text.contains("Connection: keep-alive\r\n"));
}

#[test]
fn test_response_to_http_bytes_gzip() {
    let response = Response::ok(&"<h1>Hola</h1>".repeat(10));
    let bytes = response.into_http_bytes("close", Some("gzip"), NOW).unwrap();
    let text = String::from_utf8_lossy(&bytes);

    assert!(text.contains("HTTP/1.1 200 OK\r\n"));
    assert!(text.contains("Content-Encoding: gzip\r\n"));
    assert!(text.contains("Connection: close\r\n"));

    let separator = b"\r\n\r\n";
    let body_start = bytes
        .windows(separator.len())
        .position(|window| window == separator)
        .unwrap()
        + separator.len();
    let compressed = &bytes[body_start..];

    let mut decoder = GzDecoder::new(compressed);
    let mut output = String::new();
    decoder.read_to_string(&mut output).unwrap();
    assert_eq!(output, "<h1>Hola</h1>".repeat(10));
}

#[test]
fn test_small_body_not_gzipped() {
    let response = Response::ok("hola");
    let bytes = response.into_http_bytes("close", Some("gzip"), NOW).unwrap();
    let text = String::from_utf8(bytes).unwrap();

    assert!(!text.contains("Content-Encoding:"));
    assert!(text.ends_with("hola"));
}

#[test]
fn test_not_found_response() {
    let response = Response::not_found();
    assert_eq!(response.status, 404);
    let bytes = response.into_http_bytes("close", None, NOW).unwrap();
    let text = String::from_utf8(bytes).unwrap();
    assert!(text.starts_with("HTTP/1.1 404 Not Found\r\n"));
}

#[test]
fn test_method_not_allowed_response() {
    let response = Response::method_not_allowed();
    assert_eq!(response.status, 405);
    let bytes = response.into_http_bytes("close", None, NOW).unwrap();
    let text = String::from_utf8(bytes).unwrap();
    assert!(text.starts_with("HTTP/1.1 405 Method Not Allowed\r\n"));
}

#[test]
fn test_internal_server_error_response() {
    let response = Response::internal_server_error();
    assert_eq!(response.status, 500);
    let bytes = response.into_http_bytes("close", None, NOW).unwrap();
    let text = String::from_utf8(bytes).unwrap();
    assert!(text.starts_with("HTTP/1.1 500 Internal Server Error\r\n"));
}

#[test]
fn test_not_implemented_response() {
    let response = Response::not_implemented();
    assert_eq!(response.status, 501);
    let bytes = response.into_http_bytes("close", None, NOW).unwrap();
    let text = String::from_utf8(bytes).unwrap();
    assert!(text.starts_with("HTTP/1.1 501 Not Implemented\r\n"));
}

#[test]
fn test_header_injection_rejected() {
    let response = Response::ok("hola");
    let result = response.into_http_bytes("close\r\nX-Injected: yes", None, NOW);
    assert!(result.is_err());

    let response = Response::ok("hola");
    let result = response.into_http_bytes("close", None, NOW);
    assert!(result.is_ok());
}

#[test]
fn test_head_clears_body() {
    let response = Response::ok("<h1>Hola</h1>").head();
    assert!(response.body.is_empty());
}

// ---------------------------------------------------------------------------
// Further cases
// ---------------------------------------------------------------------------

#[test]
fn exact_wire_form() {
    let bytes = Response::ok("<h1>Hola</h1>")
        .into_http_bytes("close", None, NOW)
        .unwrap();
    assert_eq!(
        String::from_utf8(bytes).unwrap(),
        "HTTP/1.1 200 OK\r\n\
         Date: Sun, 02 Oct 2016 14:44:11 GMT\r\n\
         Content-Type: text/html; charset=utf-8\r\n\
         Content-Length: 13\r\n\
         Connection: close\r\n\
         \r\n\
         <h1>Hola</h1>"
    );
}

#[test]
fn date_of_the_epoch() {
    let bytes = Response::bad_request().into_http_bytes("close", None, 0).unwrap();
    let text = String::from_utf8(bytes).unwrap();
    assert!(text.starts_with("HTTP/1.1 400 Bad Request\r\nDate: Thu, 01 Jan 1970 00:00:00 GMT\r\n"));
    assert!(text.ends_with("Content-Length: 15\r\nConnection: close\r\n\r\n400 Bad Request"));
}

#[test]
fn injection_errors() {
    assert_eq!(
        Response::ok("x").into_http_bytes("a\nb", None, NOW).unwrap_err(),
        ResponseError::InvalidHeaderValue
    );
    assert_eq!(
        Response::ok("x").into_http_bytes("a\0b", None, NOW).unwrap_err(),
        ResponseError::InvalidHeaderValue
    );
    let bad_type = Response::static_file("text/plain\r\nX: y", b"x".to_vec());
    assert_eq!(
        bad_type.into_http_bytes("close", None, NOW).unwrap_err(),
        ResponseError::InvalidHeaderValue
    );
}

#[test]
fn gzip_threshold_is_strict() {
    let body = "a".repeat(20);
    let text = String::from_utf8(
        Response::ok(&body).into_http_bytes("close", Some("gzip"), NOW).unwrap(),
    )
    .unwrap();
    assert!(!text.contains("Content-Encoding"));
    let body = "a".repeat(21);
    let bytes = Response::ok(&body).into_http_bytes("close", Some("gzip"), NOW).unwrap();
    let (head, compressed) = split_head_body(&bytes).unwrap();
    let head = String::from_utf8(head.to_vec()).unwrap();
    assert!(head.ends_with("Content-Encoding: gzip"));
    assert_ne!(compressed, body.as_bytes());
    assert!(head.contains(&format!("Content-Length: {}\r\n", compressed.len())));
    let mut output = String::new();
    GzDecoder::new(compressed).read_to_string(&mut output).unwrap();
    assert_eq!(output, body);
    // Other codings are not applied.
    let text = String::from_utf8(
        Response::ok(&body).into_http_bytes("close", Some("br"), NOW).unwrap(),
    )
    .unwrap();
    assert!(text.ends_with(&body));
}

#[test]
fn constructors_and_reasons() {
    let r = Response::ok_bytes("image/png", vec![1, 2, 3]);
    assert_eq!((r.status, r.content_type.as_str(), r.body.clone()), (200, "image/png", vec![1, 2, 3]));
    assert_eq!(r.reason_phrase(), "OK");
    assert_eq!(Response::bad_request().reason_phrase(), "Bad Request");
    assert_eq!(Response::not_found().body, b"404 Not Found".to_vec());
    assert_eq!(Response::not_found().content_type, "text/plain; charset=utf-8");
    let odd = Response { status: 418, content_type: "text/plain".to_string(), body: vec![] };
    assert_eq!(odd.reason_phrase(), "Unknown");
    let head = Response::not_found().head();
    assert_eq!((head.status, head.body.len()), (404, 0));
}
