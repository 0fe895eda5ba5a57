//! Construction of the complete HTTP/1.1 responses the server sends,
//! as byte vectors pinned down byte for byte.

use vstd::prelude::*;

use crate::bytes::{append_bytes, ascii_bytes, ascii_of};
use crate::num::{dec_digits, format_dec};

verus! {

broadcast use vstd::string::group_string_axioms;

/// The 200 response carrying `body` as plain text.
pub open spec fn text_ok_bytes(body: Seq<u8>) -> Seq<u8> {
    ascii_of("HTTP/1.1 200 OK\r\nContent-Type: text/plain\r\nContent-Length: "@) + dec_digits(
        body.len(),
    ) + ascii_of("\r\n\r\n"@) + body
}

/// The 200 response carrying `body` as a raw octet stream.
pub open spec fn octet_ok_bytes(body: Seq<u8>) -> Seq<u8> {
    ascii_of("HTTP/1.1 200 OK\r\nContent-Type: application/octet-stream\r\nContent-Length: "@)
        + dec_digits(body.len()) + ascii_of("\r\n\r\n"@) + body
}

/// The bare 200 response of the root route, status line followed by
/// two blank lines.
pub open spec fn root_ok_bytes() -> Seq<u8> {
    ascii_of("HTTP/1.1 200 OK\r\n\r\n\r\n\r\n"@)
}

/// The bare 201 response confirming an upload.
pub open spec fn created_bytes() -> Seq<u8> {
    ascii_of("HTTP/1.1 201 Created\r\n\r\n"@)
}

/// The bare 400 response for a request the server cannot make out.
pub open spec fn bad_request_bytes() -> Seq<u8> {
    ascii_of("HTTP/1.1 400 Bad Request\r\n\r\n"@)
}

/// The bare 404 response.
pub open spec fn not_found_bytes() -> Seq<u8> {
    ascii_of("HTTP/1.1 404 Not Found\r\n\r\n"@)
}

/// Builds the plain-text 200 response for `body`.
pub fn text_response(body: &Vec<u8>) -> (r: Vec<u8>)
    ensures
        r@ == text_ok_bytes(body@),
{
    proof {
        reveal_strlit("HTTP/1.1 200 OK\r\nContent-Type: text/plain\r\nContent-Length: ");
        reveal_strlit("\r\n\r\n");
    }
    let mut r = ascii_bytes("HTTP/1.1 200 OK\r\nContent-Type: text/plain\r\nContent-Length: ");
    let digits = format_dec(body.len());
    append_bytes(&mut r, &digits);
    let sep = ascii_bytes("\r\n\r\n");
    append_bytes(&mut r, &sep);
    append_bytes(&mut r, body);
    proof {
        assert(r@ =~= text_ok_bytes(body@));
    }
    r
}

/// Builds the octet-stream 200 response for `body`.
pub fn octet_response(body: &Vec<u8>) -> (r: Vec<u8>)
    ensures
        r@ == octet_ok_bytes(body@),
{
    proof {
        reveal_strlit(
            "HTTP/1.1 200 OK\r\nContent-Type: application/octet-stream\r\nContent-Length: ",
        );
        reveal_strlit("\r\n\r\n");
    }
    let mut r = ascii_bytes(
        "HTTP/1.1 200 OK\r\nContent-Type: application/octet-stream\r\nContent-Length: ",
    );
    let digits = format_dec(body.len());
    append_bytes(&mut r, &digits);
    let sep = ascii_bytes("\r\n\r\n");
    append_bytes(&mut r, &sep);
    append_bytes(&mut r, body);
    proof {
        assert(r@ =~= octet_ok_bytes(body@));
    }
    r
}

/// Builds the root route's bare 200 response.
pub fn root_response() -> (r: Vec<u8>)
    ensures
        r@ == root_ok_bytes(),
{
    proof {
        reveal_strlit("HTTP/1.1 200 OK\r\n\r\n\r\n\r\n");
    }
    ascii_bytes("HTTP/1.1 200 OK\r\n\r\n\r\n\r\n")
}

/// Builds the bare 201 response confirming an upload.
pub fn created_response() -> (r: Vec<u8>)
    ensures
        r@ == created_bytes(),
{
    proof {
        reveal_strlit("HTTP/1.1 201 Created\r\n\r\n");
    }
    ascii_bytes("HTTP/1.1 201 Created\r\n\r\n")
}

/// Builds the bare 400 response.
pub fn bad_request_response() -> (r: Vec<u8>)
    ensures
        r@ == bad_request_bytes(),
{
    proof {
        reveal_strlit("HTTP/1.1 400 Bad Request\r\n\r\n");
    }
    ascii_bytes("HTTP/1.1 400 Bad Request\r\n\r\n")
}

/// Builds the bare 404 response.
pub fn not_found_response() -> (r: Vec<u8>)
    ensures
        r@ == not_found_bytes(),
{
    proof {
        reveal_strlit("HTTP/1.1 404 Not Found\r\n\r\n");
    }
    ascii_bytes("HTTP/1.1 404 Not Found\r\n\r\n")
}

} // verus!
