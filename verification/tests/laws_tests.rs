//! Concrete instances of the properties proved in `laws`.

use http_server::connection::{step, ConnAction, ConnEvent, ConnState};
use http_server::request::{split_head_body, Request};
use http_server::response::Response;
use http_server::static_files::relative_path;

#[test]
fn names_are_lowercase_and_unique() {
    let input = ["X-A: 1", "x-a: 2", "X-B: 3", "CONTENT-type: text/plain"];
    let headers = Request::extract_headers(&input).unwrap();
    assert_eq!(headers.len(), 3);
    assert_eq!(headers.get("x-a"), Some("1, 2"));
    assert_eq!(headers.get("content-type"), Some("text/plain"));
}

#[test]
fn body_does_not_change_the_parse() {
    let a = Request::new(b"GET /p?q=1 HTTP/1.1\r\nA: b\r\n\r\n").unwrap();
    let b = Request::new(b"GET /p?q=1 HTTP/1.1\r\nA: b\r\n\r\nanything\r\n\r\nGET / HTTP/1.0").unwrap();
    assert_eq!((a.method(), a.path(), a.query()), (b.method(), b.path(), b.query()));
    assert_eq!(a.headers().get("a"), b.headers().get("a"));
    assert_eq!(b.headers().len(), 1);
}

#[test]
fn query_is_never_empty() {
    let (_, _, q, _) = Request::extract_request_line("GET /x? HTTP/1.1").unwrap();
    assert_eq!(q, None);
    let (_, p, q, _) = Request::extract_request_line("GET /x?? HTTP/1.1").unwrap();
    assert_eq!((p.as_str(), q.as_deref()), ("/x", Some("?")));
}

#[test]
fn body_follows_the_first_blank_line() {
    let body = "<p>\r\n\r\nnot a header</p>";
    let bytes = Response::ok(body).into_http_bytes("close", None, 0).unwrap();
    let (_, rest) = split_head_body(&bytes).unwrap();
    assert_eq!(rest, body.as_bytes());
    let typed = Response::static_file("text/plain; charset=ñ", b"\r\n\r\n".to_vec());
    let bytes = typed.into_http_bytes("keep-alive", None, 0).unwrap();
    let (_, rest) = split_head_body(&bytes).unwrap();
    assert_eq!(rest, b"\r\n\r\n");
}

#[test]
fn static_targets_are_relative() {
    for p in ["", "/", "//", "%2F%2F", "/a", "/%2Fb"] {
        let t = relative_path(p);
        assert!(!t.is_empty());
        assert!(!t.starts_with('/'));
    }
}

#[test]
fn parsed_request_shape() {
    let r = Request::new(b"GET  /a%20b?x=1  HTTP/1.0\r\n  Host\t: h \r\n\r\n").unwrap();
    assert_eq!(r.path(), "/a%20b");
    assert_eq!(r.query(), Some("x=1"));
    assert_eq!(r.version(), "HTTP/1.0");
    assert_eq!(r.headers().get("host"), Some("h"));
    let r = Request::new(b"OPTIONS * HTTP/1.1\r\n\r\n").unwrap();
    assert_eq!(r.path(), "*");
    assert!(Request::new(b"GET ?x HTTP/1.1\r\n\r\n").is_err());
}

#[test]
fn nothing_after_the_connection_ends() {
    let heads: [&[u8]; 3] = [
        b"GET / HTTP/1.1\r\n\r\n",
        b"GET / HTTP/1.1\r\nConnection: close\r\n\r\n",
        b"GET / HTTP/1.1\r\n\r\n",
    ];
    let mut state = ConnState::Open;
    let mut kinds = Vec::new();
    for h in heads {
        let (next, action) = step(state, ConnEvent::Head(h.to_vec()));
        state = next;
        kinds.push(match action {
            ConnAction::Stop => "stop",
            ConnAction::Reject { .. } => "reject",
            ConnAction::Answer { .. } => "answer",
        });
    }
    assert_eq!(kinds, vec!["answer", "answer", "stop"]);
}

#[test]
fn headers_list_is_well_formed() {
    let r = Request::new(b"GET / HTTP/1.1\r\n Host : a\r\nHOST: b\r\n\r\n").unwrap();
    assert_eq!(r.headers().len(), 1);
    assert_eq!(r.headers().get("host"), Some("a, b"));
}
