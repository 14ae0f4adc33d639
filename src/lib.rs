//! Parsing and printing of the protocol-version token of an HTTP message
//! line, such as `HTTP/1.0`.

pub mod http;

pub use http::version::{HttpVersion, Protocol};
pub use http::HttpError;
