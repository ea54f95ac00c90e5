use http_server::handlers::{home, home_page, HOME_PAGE};
use http_server::request::Request;

#[test]
fn test_home_handler() {
    let request = Request::new("GET / HTTP/1.1\r\nHost: localhost\r\n\r\n".as_bytes()).unwrap();
    let response = home(&request);
    assert_eq!(response.status, 200);
    let body = String::from_utf8_lossy(&response.body);
    assert!(body.contains("¡Hola desde Rust!"));
}

#[test]
fn home_page_is_the_html_sent() {
    let request = Request::new(b"GET /home HTTP/1.0\r\n\r\n").unwrap();
    let response = home(&request);
    assert_eq!(response.body, HOME_PAGE.as_bytes());
    assert_eq!(home_page(), HOME_PAGE);
    assert_eq!(response.content_type, "text/html; charset=utf-8");
}
