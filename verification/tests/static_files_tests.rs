use http_server::static_files::{
    check_file, content_type_from_extension, relative_path, StaticFileError, MAX_FILE_SIZE,
};

#[test]
fn relative_path_decodes_percent_encoding() {
    assert_eq!(relative_path("test%2Etxt"), "test.txt");
    assert_eq!(relative_path("/a%20b.html"), "a b.html");
    assert_eq!(relative_path("/%C3%B1.txt"), "ñ.txt");
    assert_eq!(relative_path("/100%"), "100%");
    assert_eq!(relative_path("/%zz"), "%zz");
    assert_eq!(relative_path("/%ff"), "\u{fffd}");
}

#[test]
fn relative_path_strips_leading_slashes() {
    assert_eq!(relative_path("/"), "index.html");
    assert_eq!(relative_path(""), "index.html");
    assert_eq!(relative_path("///"), "index.html");
    assert_eq!(relative_path("//x/y"), "x/y");
    assert_eq!(relative_path("%2Fetc"), "etc");
}

#[test]
fn media_types() {
    assert_eq!(content_type_from_extension(Some("txt")), "text/plain; charset=utf-8");
    assert_eq!(content_type_from_extension(Some("html")), "text/html; charset=utf-8");
    assert_eq!(content_type_from_extension(Some("htm")), "text/html; charset=utf-8");
    assert_eq!(content_type_from_extension(Some("css")), "text/css; charset=utf-8");
    assert_eq!(
        content_type_from_extension(Some("js")),
        "application/javascript; charset=utf-8"
    );
    assert_eq!(content_type_from_extension(Some("json")), "application/json");
    assert_eq!(content_type_from_extension(Some("png")), "image/png");
    assert_eq!(content_type_from_extension(Some("jpg")), "image/jpeg");
    assert_eq!(content_type_from_extension(Some("jpeg")), "image/jpeg");
    assert_eq!(content_type_from_extension(Some("gif")), "image/gif");
    assert_eq!(content_type_from_extension(Some("svg")), "image/svg+xml");
    assert_eq!(content_type_from_extension(Some("ico")), "image/x-icon");
    assert_eq!(content_type_from_extension(Some("TXT")), "application/octet-stream");
    assert_eq!(content_type_from_extension(None), "application/octet-stream");
}

#[test]
fn file_checks() {
    assert!(matches!(check_file(false, true, 1), Err(StaticFileError::BadPath)));
    assert!(matches!(check_file(true, false, 1), Err(StaticFileError::NotFound)));
    assert!(matches!(check_file(true, true, MAX_FILE_SIZE + 1), Err(StaticFileError::TooLarge)));
    assert!(check_file(true, true, MAX_FILE_SIZE).is_ok());
    assert!(check_file(true, true, 0).is_ok());
}

#[test]
fn error_messages() {
    assert_eq!(StaticFileError::BadPath.message(), "path traversal detectado");
    assert_eq!(StaticFileError::NotFound.message(), "archivo no encontrado");
    assert_eq!(StaticFileError::TooLarge.message(), "archivo demasiado grande");
    let io = StaticFileError::Io(std::io::Error::new(std::io::ErrorKind::Other, "x"));
    assert_eq!(io.message(), "error de lectura");
}
