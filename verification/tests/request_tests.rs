use http_server::request::{Method, Request, RequestError};

#[test]
fn test_extract_headers() {
    let input = [
        "Host: localhost:8080",
        "Sec-Fetch-Dest: document",
        "Accept-Encoding: gzip, deflate",
        "Connection: keep-alive",
    ];
    let result = Request::extract_headers(&input).unwrap();
    assert_eq!(result.get("sec-fetch-dest"), Some("document"));
    assert_eq!(result.get("host"), Some("localhost:8080"));
    assert_eq!(result.get("connection"), Some("keep-alive"));
}

#[test]
fn test_extract_headers_case_insensitive() {
    let input = ["connection: close"];
    let result = Request::extract_headers(&input).unwrap();
    assert_eq!(result.get("connection"), Some("close"));
}

#[test]
fn test_extract_headers_repeated() {
    let input = ["Accept: text/html", "Accept: application/json"];
    let result = Request::extract_headers(&input).unwrap();
    assert_eq!(result.get("accept"), Some("text/html, application/json"));
}

#[test]
fn test_extract_headers_invalid() {
    let input = ["Host localhost"];
    assert!(Request::extract_headers(&input).is_err());
}

#[test]
fn test_extract_request_line_with_query() {
    let input = "GET /home?query=hola&foo=bar HTTP/1.1";
    let (method, path, query, version) = Request::extract_request_line(input).unwrap();
    assert_eq!(method, Method::Get);
    assert_eq!(path, "/home");
    assert_eq!(query.as_deref(), Some("query=hola&foo=bar"));
    assert_eq!(version, "HTTP/1.1");
}

#[test]
fn test_extract_request_line_without_query() {
    let input = "GET /home HTTP/1.1";
    let (method, path, query, version) = Request::extract_request_line(input).unwrap();
    assert_eq!(method, Method::Get);
    assert_eq!(path, "/home");
    assert_eq!(query, None);
    assert_eq!(version, "HTTP/1.1");
}

#[test]
fn test_extract_request_line_empty_query() {
    let input = "GET /home? HTTP/1.1";
    let (_method, path, query, version) = Request::extract_request_line(input).unwrap();
    assert_eq!(path, "/home");
    assert_eq!(query, None);
    assert_eq!(version, "HTTP/1.1");
}

#[test]
fn test_extract_request_line_missing_version() {
    let input = "GET /home";
    assert!(Request::extract_request_line(input).is_err());
}

#[test]
fn test_extract_request_line_invalid_version() {
    let input = "GET /home HTTP/2.0";
    assert!(Request::extract_request_line(input).is_err());
}

#[test]
fn test_extract_request_line_invalid_target() {
    let input = "GET http://example.com HTTP/1.1";
    assert!(Request::extract_request_line(input).is_err());
}

#[test]
fn test_new_parses_full_request() {
    let raw_request = "GET /home?query=hola HTTP/1.1\r\n\
        Host: localhost:8080\r\n\
        Connection: keep-alive\r\n\r\n";
    let request = Request::new(raw_request.as_bytes()).unwrap();
    assert_eq!(request.method(), Method::Get);
    assert_eq!(request.path(), "/home");
    assert_eq!(request.query(), Some("query=hola"));
    assert_eq!(request.version(), "HTTP/1.1");
    assert_eq!(request.headers().get("host"), Some("localhost:8080"));
}

#[test]
fn test_new_rejects_malformed_request() {
    let raw_request = "INVALID\r\n\r\n";
    assert!(Request::new(raw_request.as_bytes()).is_err());
}

#[test]
fn test_new_separates_body() {
    let raw_request = "GET / HTTP/1.1\r\nHost: localhost\r\n\r\nbody here";
    let request = Request::new(raw_request.as_bytes()).unwrap();
    assert_eq!(request.path(), "/");
    assert_eq!(request.headers().get("host"), Some("localhost"));
}

#[test]
fn test_wants_keep_alive_http11_default() {
    let raw_request = "GET / HTTP/1.1\r\nHost: localhost\r\n\r\n";
    let request = Request::new(raw_request.as_bytes()).unwrap();
    assert!(request.wants_keep_alive());
}

#[test]
fn test_wants_keep_alive_with_close_header() {
    let raw_request = "GET / HTTP/1.1\r\nHost: localhost\r\nConnection: close\r\n\r\n";
    let request = Request::new(raw_request.as_bytes()).unwrap();
    assert!(!request.wants_keep_alive());
}

#[test]
fn test_wants_keep_alive_lowercase_header() {
    let raw_request = "GET / HTTP/1.1\r\nHost: localhost\r\nconnection: close\r\n\r\n";
    let request = Request::new(raw_request.as_bytes()).unwrap();
    assert!(!request.wants_keep_alive());
}

#[test]
fn test_wants_keep_alive_http10_default() {
    let raw_request = "GET / HTTP/1.0\r\nHost: localhost\r\n\r\n";
    let request = Request::new(raw_request.as_bytes()).unwrap();
    assert!(!request.wants_keep_alive());
}

#[test]
fn test_wants_keep_alive_http10_with_keep_alive_header() {
    let raw_request = "GET / HTTP/1.0\r\nHost: localhost\r\nConnection: keep-alive\r\n\r\n";
    let request = Request::new(raw_request.as_bytes()).unwrap();
    assert!(request.wants_keep_alive());
}

#[test]
fn test_accepts_encoding_gzip() {
    let raw_request =
        "GET / HTTP/1.1\r\nHost: localhost\r\nAccept-Encoding: gzip, deflate\r\n\r\n";
    let request = Request::new(raw_request.as_bytes()).unwrap();
    assert!(request.accepts_encoding("gzip"));
    assert!(request.accepts_encoding("deflate"));
    assert!(!request.accepts_encoding("br"));
}

#[test]
fn test_accepts_encoding_missing() {
    let raw_request = "GET / HTTP/1.1\r\nHost: localhost\r\n\r\n";
    let request = Request::new(raw_request.as_bytes()).unwrap();
    assert!(!request.accepts_encoding("gzip"));
}

#[test]
fn test_too_many_headers() {
    let lines: Vec<String> = (0..=100).map(|i| format!("X-Header-{i}: value")).collect();
    let refs: Vec<&str> = lines.iter().map(String::as_str).collect();
    assert!(Request::extract_headers(&refs).is_err());
}

#[test]
fn test_missing_header_terminator() {
    let raw_request = "GET / HTTP/1.1\r\nHost: localhost";
    assert!(Request::new(raw_request.as_bytes()).is_err());
}

// ---------------------------------------------------------------------------
// Further cases
// ---------------------------------------------------------------------------

#[test]
fn errors_name_their_cause() {
    assert_eq!(
        Request::new(b"GET / HTTP/1.1\r\nHost: x").unwrap_err(),
        RequestError::MissingHeaderEnd
    );
    assert_eq!(
        Request::new(b"GET / HTTP/1.1\r\nHost: \xff\r\n\r\n").unwrap_err(),
        RequestError::InvalidUtf8
    );
    assert_eq!(Request::new(b"\r\n\r\n").unwrap_err(), RequestError::MissingMethod);
    assert_eq!(Request::new(b"GET\r\n\r\n").unwrap_err(), RequestError::MissingTarget);
    assert_eq!(Request::new(b"GET /\r\n\r\n").unwrap_err(), RequestError::MissingVersion);
    assert_eq!(
        Request::new(b"GET / HTTP/1.1 extra\r\n\r\n").unwrap_err(),
        RequestError::TooManyParts
    );
    assert_eq!(
        Request::new(b"GET / HTTP/2.0\r\n\r\n").unwrap_err(),
        RequestError::UnsupportedVersion
    );
    assert_eq!(
        Request::new(b"GET home HTTP/1.1\r\n\r\n").unwrap_err(),
        RequestError::InvalidTarget
    );
    assert_eq!(
        Request::new(b"GET / HTTP/1.1\r\nno colon\r\n\r\n").unwrap_err(),
        RequestError::InvalidHeader
    );
}

#[test]
fn request_line_length_limit() {
    let long_path = format!("/{}", "a".repeat(8 * 1024));
    let raw = format!("GET {long_path} HTTP/1.1\r\n\r\n");
    assert_eq!(
        Request::new(raw.as_bytes()).unwrap_err(),
        RequestError::RequestLineTooLong
    );
    // Exactly at the limit is accepted.
    let path = format!("/{}", "a".repeat(8 * 1024 - "GET  HTTP/1.1".len() - 1));
    let raw = format!("GET {path} HTTP/1.1\r\n\r\n");
    assert_eq!(Request::new(raw.as_bytes()).unwrap().path(), path);
}

#[test]
fn header_length_limits() {
    let long = format!("X-Long: {}", "v".repeat(8 * 1024));
    assert_eq!(
        Request::extract_headers(&[long.as_str()]).unwrap_err(),
        RequestError::HeaderTooLong
    );
    let half = format!("X-A: {}", "v".repeat(4 * 1024));
    let other = format!("X-B: {}", "v".repeat(4 * 1024));
    assert_eq!(
        Request::extract_headers(&[half.as_str(), other.as_str()]).unwrap_err(),
        RequestError::HeadersTooLarge
    );
}

#[test]
fn repeated_names_count_once() {
    let lines: Vec<String> = (0..150).map(|i| format!("X-Same: {i}")).collect();
    let refs: Vec<&str> = lines.iter().map(String::as_str).collect();
    let headers = Request::extract_headers(&refs).unwrap();
    assert_eq!(headers.len(), 1);
    let too_many: Vec<String> = (0..=100).map(|i| format!("X-H-{i}: v")).collect();
    let refs: Vec<&str> = too_many.iter().map(String::as_str).collect();
    assert_eq!(Request::extract_headers(&refs).unwrap_err(), RequestError::TooManyHeaders);
    let exactly: Vec<String> = (0..100).map(|i| format!("X-Header-{i}: value")).collect();
    let refs: Vec<&str> = exactly.iter().map(String::as_str).collect();
    assert_eq!(Request::extract_headers(&refs).unwrap().len(), 100);
}

#[test]
fn whitespace_is_trimmed_and_blank_lines_skipped() {
    let input = ["  Host :  example.org  ", "", "   ", "\u{a0}X-Y:\tz\u{3000}"];
    let headers = Request::extract_headers(&input).unwrap();
    assert_eq!(headers.len(), 2);
    assert_eq!(headers.get("host"), Some("example.org"));
    assert_eq!(headers.get("x-y"), Some("z"));
    assert_eq!(headers.get("Host"), None);
}

#[test]
fn star_target_and_methods() {
    let (m, p, q, v) = Request::extract_request_line("OPTIONS * HTTP/1.0").unwrap();
    assert_eq!((m, p.as_str(), q, v.as_str()), (Method::Options, "*", None, "HTTP/1.0"));
    assert_eq!(Method::parse("DELETE"), Method::Delete);
    assert_eq!(Method::parse("PATCH"), Method::Patch);
    assert_eq!(Method::parse("PUT"), Method::Put);
    assert_eq!(Method::parse("get"), Method::Unsupported);
    let (m, _, _, _) = Request::extract_request_line("TRACE / HTTP/1.1").unwrap();
    assert_eq!(m, Method::Unsupported);
}

#[test]
fn keep_alive_header_is_case_insensitive() {
    let raw = "GET / HTTP/1.0\r\nConnection: Keep-Alive\r\n\r\n";
    assert!(Request::new(raw.as_bytes()).unwrap().wants_keep_alive());
    let raw = "GET / HTTP/1.1\r\nConnection: CLOSE\r\n\r\n";
    assert!(!Request::new(raw.as_bytes()).unwrap().wants_keep_alive());
    let raw = "GET / HTTP/1.0\r\nConnection: upgrade\r\n\r\n";
    assert!(!Request::new(raw.as_bytes()).unwrap().wants_keep_alive());
}

#[test]
fn accepts_encoding_ignores_case_and_spaces() {
    let raw = "GET / HTTP/1.1\r\nAccept-Encoding: br ,  GZIP\r\n\r\n";
    let request = Request::new(raw.as_bytes()).unwrap();
    assert!(request.accepts_encoding("gzip"));
    assert!(request.accepts_encoding("BR"));
    assert!(!request.accepts_encoding("deflate"));
}
