//! Request handlers.

use vstd::prelude::*;
use vstd::utf8::*;

use crate::request::Request;
use crate::response::Response;

verus! {

/// The HTML of the home page.
pub const HOME_PAGE: &'static str = r"<!DOCTYPE html>
<html>
<head><title>Mi Server</title></head>
<body><h1>¡Hola desde Rust!</h1><a href='index.html'>index.html</a></body>
</html>";

/// The home page: `200 OK` with [`HOME_PAGE`] as HTML.
pub fn home(_request: &Request) -> (res: Response)
    ensures
        res.status == 200,
        res.content_type@ == "text/html; charset=utf-8"@,
        res.body@ == encode_utf8(HOME_PAGE@),
{
    Response::ok(home_page())
}

/// The text of the home page.
pub fn home_page() -> (res: &'static str)
    ensures
        res@ == HOME_PAGE@,
{
    HOME_PAGE
}

} // verus!
