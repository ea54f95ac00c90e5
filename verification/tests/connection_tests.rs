use http_server::connection::{step, ConnAction, ConnEvent, ConnState};
use std::io::Read;

use http_server::connection::{
    absorb_chunk, connection_header, finalize_response, response_bytes, response_encoding,
    ReadProgress, MAX_REQUEST_SIZE,
};
use http_server::request::Request;
use http_server::response::Response;

const NOW: u64 = 1_475_419_451;

#[test]
fn reading_a_head_in_chunks() {
    let mut buffer = Vec::new();
    assert_eq!(absorb_chunk(&mut buffer, b"GET / HTTP/1.1\r\n"), ReadProgress::NeedMore);
    assert_eq!(absorb_chunk(&mut buffer, b"Host: x\r\n\r"), ReadProgress::NeedMore);
    assert_eq!(absorb_chunk(&mut buffer, b"\n"), ReadProgress::Complete);
    assert_eq!(buffer, b"GET / HTTP/1.1\r\nHost: x\r\n\r\n".to_vec());
}

#[test]
fn closing_and_oversized_reads() {
    let mut buffer = Vec::new();
    assert_eq!(absorb_chunk(&mut buffer, b""), ReadProgress::Closed);
    assert_eq!(absorb_chunk(&mut buffer, b"GET"), ReadProgress::NeedMore);
    assert_eq!(absorb_chunk(&mut buffer, b""), ReadProgress::ClosedEarly);
    let big = vec![b'a'; MAX_REQUEST_SIZE - 3];
    assert_eq!(absorb_chunk(&mut buffer, &big), ReadProgress::NeedMore);
    assert_eq!(buffer.len(), MAX_REQUEST_SIZE);
    assert_eq!(absorb_chunk(&mut buffer, b"x"), ReadProgress::TooLarge);
    assert_eq!(buffer.len(), MAX_REQUEST_SIZE);
}

#[test]
fn header_values_for_the_reply() {
    assert_eq!(connection_header(true), "keep-alive");
    assert_eq!(connection_header(false), "close");
    let request = Request::new(b"GET / HTTP/1.1\r\nAccept-Encoding: gzip\r\n\r\n").unwrap();
    assert_eq!(response_encoding(&request), Some("gzip"));
    let request = Request::new(b"GET / HTTP/1.1\r\n\r\n").unwrap();
    assert_eq!(response_encoding(&request), None);
}

#[test]
fn head_requests_get_no_body() {
    let request = Request::new(b"HEAD / HTTP/1.1\r\n\r\n").unwrap();
    let response = finalize_response(&request, Response::ok("<p>x</p>"));
    assert_eq!(response.status, 200);
    assert!(response.body.is_empty());
    let request = Request::new(b"GET / HTTP/1.1\r\n\r\n").unwrap();
    let response = finalize_response(&request, Response::ok("<p>x</p>"));
    assert_eq!(response.body, b"<p>x</p>".to_vec());
}

#[test]
fn unsendable_responses_become_500() {
    let bytes = response_bytes(Response::ok("hola"), "bad\r\nvalue", None, NOW);
    let text = String::from_utf8(bytes).unwrap();
    assert!(text.starts_with("HTTP/1.1 500 Internal Server Error\r\n"));
    assert!(text.contains("Connection: close\r\n"));
    assert!(text.ends_with("500 Internal Server Error"));
    let bytes = response_bytes(Response::ok("hola"), "keep-alive", None, NOW);
    let text = String::from_utf8(bytes).unwrap();
    assert!(text.starts_with("HTTP/1.1 200 OK\r\n"));
    assert!(text.ends_with("hola"));
}

#[test]
fn rejected_requests_get_400_and_close() {
    let (response, connection) = http_server::connection::rejection();
    assert_eq!(response.status, 400);
    assert_eq!(response.body, b"400 Bad Request".to_vec());
    assert_eq!(connection, "close");
}

#[test]
fn gzip_replies_through_response_bytes() {
    let body = "<h1>Hola</h1>".repeat(10);
    let bytes = response_bytes(Response::ok(&body), "close", Some("gzip"), NOW);
    let (head, rest) = http_server::request::split_head_body(&bytes).unwrap();
    assert!(String::from_utf8_lossy(head).starts_with("HTTP/1.1 200 OK\r\n"));
    let mut out = String::new();
    flate2::read::GzDecoder::new(rest).read_to_string(&mut out).unwrap();
    assert_eq!(out, body);
}

#[test]
fn connection_steps() {
    let (next, action) = step(ConnState::Open, ConnEvent::Head(b"GET / HTTP/1.1\r\n\r\n".to_vec()));
    assert_eq!(next, ConnState::Open);
    match action {
        ConnAction::Answer { request, connection, encoding } => {
            assert_eq!(request.path(), "/");
            assert_eq!(connection, "keep-alive");
            assert_eq!(encoding, None);
        }
        other => panic!("unexpected {other:?}"),
    }
    let (next, action) = step(
        ConnState::Open,
        ConnEvent::Head(b"GET / HTTP/1.0\r\nAccept-Encoding: gzip\r\n\r\n".to_vec()),
    );
    assert_eq!(next, ConnState::Closed);
    assert!(matches!(
        action,
        ConnAction::Answer { connection: "close", encoding: Some("gzip"), .. }
    ));
    let (next, action) = step(ConnState::Open, ConnEvent::Head(b"BAD\r\n\r\n".to_vec()));
    assert_eq!(next, ConnState::Closed);
    match action {
        ConnAction::Reject { response, connection, cause } => {
            assert_eq!(response.status, 400);
            assert_eq!(connection, "close");
            assert_eq!(cause, Some(http_server::request::RequestError::MissingTarget));
        }
        other => panic!("unexpected {other:?}"),
    }
    let (next, action) = step(ConnState::Open, ConnEvent::ReadFailed);
    assert_eq!(next, ConnState::Closed);
    assert!(matches!(action, ConnAction::Reject { cause: None, .. }));
    let (next, action) = step(ConnState::Open, ConnEvent::ClientClosed);
    assert_eq!(next, ConnState::Closed);
    assert!(matches!(action, ConnAction::Stop));
    let (next, action) = step(ConnState::Closed, ConnEvent::Head(b"GET / HTTP/1.1\r\n\r\n".to_vec()));
    assert_eq!(next, ConnState::Closed);
    assert!(matches!(action, ConnAction::Stop));
}
