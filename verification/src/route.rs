//! The fixed routing table: which handler a method and path select,
//! tried in priority order.

use vstd::prelude::*;

use crate::bytes::{ascii_bytes, ascii_of, bytes_eq, starts_with, starts_with_bytes};

verus! {

broadcast use vstd::string::group_string_axioms;

/// The handlers a request can be dispatched to.
#[derive(Clone, Copy, PartialEq, Eq, Structural, Debug)]
pub enum Route {
    /// GET of a path starting with `/echo`.
    Echo,
    /// GET of a path starting with `/files`.
    FileGet,
    /// POST of a path starting with `/files`.
    FilePost,
    /// GET of exactly `/user-agent`.
    UserAgent,
    /// GET of exactly `/`.
    Root,
    /// Everything else.
    NotFound,
}

/// The route selected by a method and a path, first match winning.
pub open spec fn route_of(method: Seq<u8>, path: Seq<u8>) -> Route {
    if method == ascii_of("GET"@) && starts_with(path, ascii_of("/echo"@)) {
        Route::Echo
    } else if method == ascii_of("GET"@) && starts_with(path, ascii_of("/files"@)) {
        Route::FileGet
    } else if method == ascii_of("POST"@) && starts_with(path, ascii_of("/files"@)) {
        Route::FilePost
    } else if method == ascii_of("GET"@) && path == ascii_of("/user-agent"@) {
        Route::UserAgent
    } else if method == ascii_of("GET"@) && path == ascii_of("/"@) {
        Route::Root
    } else {
        Route::NotFound
    }
}

/// Selects the route for a parsed method and path.
pub fn route(method: &Vec<u8>, path: &Vec<u8>) -> (r: Route)
    ensures
        r == route_of(method@, path@),
{
    proof {
        reveal_strlit("GET");
        reveal_strlit("POST");
        reveal_strlit("/echo");
        reveal_strlit("/files");
        reveal_strlit("/user-agent");
        reveal_strlit("/");
    }
    let get = ascii_bytes("GET");
    let post = ascii_bytes("POST");
    let is_get = bytes_eq(method, &get);
    if is_get && starts_with_bytes(path, &ascii_bytes("/echo")) {
        Route::Echo
    } else if is_get && starts_with_bytes(path, &ascii_bytes("/files")) {
        Route::FileGet
    } else if bytes_eq(method, &post) && starts_with_bytes(path, &ascii_bytes("/files")) {
        Route::FilePost
    } else if is_get && bytes_eq(path, &ascii_bytes("/user-agent")) {
        Route::UserAgent
    } else if is_get && bytes_eq(path, &ascii_bytes("/")) {
        Route::Root
    } else {
        Route::NotFound
    }
}

} // verus!
