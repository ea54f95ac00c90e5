//! Which handler answers a request.

use vstd::prelude::*;

use crate::handlers;
use crate::request::{Method, Request};
use crate::response::Response;
use crate::static_files::{relative_path, relative_target, StaticFileError};
use crate::text::{chars_eq, str_to_chars};

verus! {

/// Where a request goes.
#[derive(Debug, PartialEq, Eq)]
pub enum Route {
    /// The method is not one the server knows: `501`.
    NotImplemented,
    /// `GET` or `HEAD` of `/` or `/home`: the home page.
    Home,
    /// `GET` or `HEAD` of another path: the named file under `public/`.
    StaticFile(String),
    /// Another method on `/` or `/home`: `405`.
    MethodNotAllowed,
    /// Anything else: `404`.
    NotFound,
}

/// The paths the server defines.
pub open spec fn is_known_path(path: Seq<char>) -> bool {
    path == "/"@ || path == "/home"@
}

/// Where a request with this method and path goes (a static file being
/// given by its relative path).
pub open spec fn route_spec(method: Method, path: Seq<char>) -> RouteModel {
    if method == Method::Unsupported {
        RouteModel::NotImplemented
    } else if (method == Method::Get || method == Method::Head) && is_known_path(path) {
        RouteModel::Home
    } else if method == Method::Get || method == Method::Head {
        RouteModel::StaticFile(relative_target(path))
    } else if is_known_path(path) {
        RouteModel::MethodNotAllowed
    } else {
        RouteModel::NotFound
    }
}

/// A route with the static file's path as characters.
pub enum RouteModel {
    NotImplemented,
    Home,
    StaticFile(Seq<char>),
    MethodNotAllowed,
    NotFound,
}

impl View for Route {
    type V = RouteModel;

    open spec fn view(&self) -> RouteModel {
        match self {
            Route::NotImplemented => RouteModel::NotImplemented,
            Route::Home => RouteModel::Home,
            Route::StaticFile(p) => RouteModel::StaticFile(p@),
            Route::MethodNotAllowed => RouteModel::MethodNotAllowed,
            Route::NotFound => RouteModel::NotFound,
        }
    }
}

/// Decides where a request goes.
pub fn route(request: &Request) -> (res: Route)
    ensures
        res@ == route_spec(request@.method, request@.path),
{
    let method = request.method();
    let path = str_to_chars(request.path());
    let known = chars_eq(&path, &str_to_chars("/")) || chars_eq(&path, &str_to_chars("/home"));
    let fetch = match method {
        Method::Get | Method::Head => true,
        _ => false,
    };
    match method {
        Method::Unsupported => Route::NotImplemented,
        _ => {
            if fetch && known {
                Route::Home
            } else if fetch {
                Route::StaticFile(relative_path(request.path()))
            } else if known {
                Route::MethodNotAllowed
            } else {
                Route::NotFound
            }
        },
    }
}

/// The response of a route that needs no file: `None` for a static file.
pub fn direct_response(route: &Route, request: &Request) -> (res: Option<Response>)
    ensures
        match route {
            Route::NotImplemented => res matches Some(r) && r.status == 501 && r.body@
                == vstd::utf8::encode_utf8("501 Not Implemented"@),
            Route::Home => res matches Some(r) && r.status == 200 && r.body@
                == vstd::utf8::encode_utf8(handlers::HOME_PAGE@),
            Route::StaticFile(_) => res is None,
            Route::MethodNotAllowed => res matches Some(r) && r.status == 405 && r.body@
                == vstd::utf8::encode_utf8("405 Method Not Allowed"@),
            Route::NotFound => res matches Some(r) && r.status == 404 && r.body@
                == vstd::utf8::encode_utf8("404 Not Found"@),
        },
        res matches Some(r) ==> r.content_type@ == (if route is Home {
            "text/html; charset=utf-8"@
        } else {
            "text/plain; charset=utf-8"@
        }),
{
    match route {
        Route::NotImplemented => Some(Response::not_implemented()),
        Route::Home => Some(handlers::home(request)),
        Route::StaticFile(_) => None,
        Route::MethodNotAllowed => Some(Response::method_not_allowed()),
        Route::NotFound => Some(Response::not_found()),
    }
}

/// The response for a static file: the file, or `404` when it could not be
/// served.
pub fn static_response(outcome: Result<Response, StaticFileError>) -> (res: Response)
    ensures
        match outcome {
            Ok(r) => res == r,
            Err(_) => res.status == 404 && res.content_type@ == "text/plain; charset=utf-8"@
                && res.body@ == vstd::utf8::encode_utf8("404 Not Found"@),
        },
{
    match outcome {
        Ok(r) => r,
        Err(_) => Response::not_found(),
    }
}

} // verus!
