//! A small HTTP/1.x server library: request parsing, response framing,
//! routing and the decisions a connection makes, each with a contract.

pub mod text;
pub mod request;
pub mod response;
pub mod handlers;
pub mod static_files;
pub mod router;
pub mod connection;
pub mod laws;
