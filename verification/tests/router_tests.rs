use http_server::request::Request;
use http_server::router::{direct_response, route, static_response, Route};
use http_server::static_files::StaticFileError;

fn respond(raw: &str) -> (Route, http_server::response::Response) {
    let request = Request::new(raw.as_bytes()).unwrap();
    let r = route(&request);
    let response = match direct_response(&r, &request) {
        Some(response) => response,
        // No file is present here: serving fails as for a missing file.
        None => static_response(Err(StaticFileError::NotFound)),
    };
    (r, response)
}

#[test]
fn test_route_get_root() {
    let (r, response) = respond("GET / HTTP/1.1\r\nHost: localhost\r\n\r\n");
    assert_eq!(r, Route::Home);
    assert_eq!(response.status, 200);
    assert!(String::from_utf8_lossy(&response.body).contains("¡Hola desde Rust!"));
}

#[test]
fn test_route_head_root() {
    let (r, response) = respond("HEAD / HTTP/1.1\r\nHost: localhost\r\n\r\n");
    assert_eq!(r, Route::Home);
    assert_eq!(response.status, 200);
    assert!(!response.body.is_empty());
}

#[test]
fn test_route_unknown_path() {
    let (r, response) = respond("GET /desconocido HTTP/1.1\r\nHost: localhost\r\n\r\n");
    assert_eq!(r, Route::StaticFile("desconocido".to_string()));
    assert_eq!(response.status, 404);
}

#[test]
fn test_route_post_unknown_path_returns_404() {
    let (r, response) = respond("POST /desconocido HTTP/1.1\r\nHost: localhost\r\n\r\n");
    assert_eq!(r, Route::NotFound);
    assert_eq!(response.status, 404);
}

#[test]
fn test_route_post_root_returns_405() {
    let (r, response) = respond("POST / HTTP/1.1\r\nHost: localhost\r\n\r\n");
    assert_eq!(r, Route::MethodNotAllowed);
    assert_eq!(response.status, 405);
}

#[test]
fn test_route_unsupported_method() {
    let (r, response) = respond("TRACE / HTTP/1.1\r\nHost: localhost\r\n\r\n");
    assert_eq!(r, Route::NotImplemented);
    assert_eq!(response.status, 501);
}

#[test]
fn home_alias_and_other_methods() {
    assert_eq!(respond("GET /home HTTP/1.1\r\n\r\n").0, Route::Home);
    assert_eq!(respond("DELETE /home HTTP/1.1\r\n\r\n").0, Route::MethodNotAllowed);
    assert_eq!(respond("OPTIONS /x HTTP/1.1\r\n\r\n").0, Route::NotFound);
    assert_eq!(respond("BREW /x HTTP/1.1\r\n\r\n").0, Route::NotImplemented);
    assert_eq!(
        respond("HEAD /css/site.css HTTP/1.1\r\n\r\n").0,
        Route::StaticFile("css/site.css".to_string())
    );
}

#[test]
fn static_response_passes_files_through() {
    let file = http_server::response::Response::static_file("text/css; charset=utf-8", b"a{}".to_vec());
    let r = static_response(Ok(file));
    assert_eq!((r.status, r.body), (200, b"a{}".to_vec()));
    assert_eq!(static_response(Err(StaticFileError::TooLarge)).status, 404);
    assert_eq!(static_response(Err(StaticFileError::BadPath)).status, 404);
}
