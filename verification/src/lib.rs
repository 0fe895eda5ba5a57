//! A verified core for a minimal HTTP/1.1 server: request parsing,
//! routing, and response construction over plain bytes.
//!
//! The library is pure: it turns the bytes read from one connection,
//! together with one configuration flag, into the action the server
//! must take. All socket and file handling stays outside.

pub mod bytes;
pub mod laws;
pub mod lines;
pub mod num;
pub mod response;
pub mod route;
pub mod server;
pub mod tokens;
