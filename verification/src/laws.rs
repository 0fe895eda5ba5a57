//! Laws the handler obeys, proved once and for all inputs: how lines
//! and tokens decompose over concatenation, what a well-formed request
//! parses to, and what each route answers.

use vstd::prelude::*;

use crate::bytes::{ascii_of, is_ws, starts_with, strip_prefix_all, CR, LF, PLUS, SLASH, SP};
use crate::lines::{find_crlf, has_terminator, header_value, lemma_find_crlf, lines_of};
use crate::num::{dec_digits, is_digit, lemma_dec_round_trip};
use crate::response::{
    bad_request_bytes, created_bytes, not_found_bytes, octet_ok_bytes, root_ok_bytes,
    text_ok_bytes,
};
use crate::route::{route_of, Route};
use crate::server::{content_length_of, spec_handle, strip_plus, user_agent_of, ActionSpec};
use crate::tokens::{skip_ws, token_len, tokens_of, trim_end_ws, trim_ws};

verus! {

broadcast use vstd::string::group_string_axioms;

/// Splitting on CRLF peels off a CR-free prefix as one whole line.
pub proof fn lemma_lines_concat(a: Seq<u8>, rest: Seq<u8>)
    requires
        forall|i: int| 0 <= i < a.len() ==> #[trigger] a[i] != CR,
    ensures
        lines_of(a + seq![CR, LF] + rest) == seq![a] + lines_of(rest),
{
    let s = a + seq![CR, LF] + rest;
    lemma_find_crlf(s);
    assert(s[a.len() as int] == CR && s[a.len() as int + 1] == LF);
    if find_crlf(s) is None {
        assert(false);
    }
    let k = find_crlf(s)->Some_0;
    if k < a.len() {
        assert(s[k as int] == a[k as int]);
        assert(false);
    }
    if k > a.len() {
        assert(false);
    }
    assert(s.take(a.len() as int) =~= a);
    assert(s.skip(a.len() as int + 2) =~= rest);
    assert(lines_of(s) == seq![a] + lines_of(rest));
}

/// A sequence of bytes none of which is whitespace is one whole token.
pub proof fn lemma_tokens_single(t: Seq<u8>)
    requires
        t.len() > 0,
        forall|i: int| 0 <= i < t.len() ==> !is_ws(#[trigger] t[i]),
    ensures
        tokens_of(t) == seq![t],
{
    lemma_token_len_full(t);
    assert(skip_ws(t) == t);
    assert(t.take(t.len() as int) =~= t);
    let after = t.skip(t.len() as int);
    assert(after.len() == 0);
    assert(skip_ws(after) == after);
    assert(tokens_of(after) =~= Seq::<Seq<u8>>::empty());
    assert(tokens_of(t) =~= seq![t]);
}

/// A run of non-whitespace bytes is its own front token.
proof fn lemma_token_len_full(t: Seq<u8>)
    requires
        forall|i: int| 0 <= i < t.len() ==> !is_ws(#[trigger] t[i]),
    ensures
        token_len(t) == t.len(),
    decreases t.len(),
{
    if t.len() > 0 {
        assert(forall|i: int| 0 <= i < t.skip(1).len() ==> #[trigger] t.skip(1)[i] == t[i + 1]);
        lemma_token_len_full(t.skip(1));
    }
}

/// The front token of a non-whitespace run followed by whitespace is
/// exactly that run.
proof fn lemma_token_len_stops(a: Seq<u8>, b: Seq<u8>)
    requires
        forall|i: int| 0 <= i < a.len() ==> !is_ws(#[trigger] a[i]),
        b.len() > 0 ==> is_ws(b[0]),
    ensures
        token_len(a + b) == a.len(),
    decreases a.len(),
{
    let s = a + b;
    if a.len() == 0 {
        assert(s =~= b);
    } else {
        assert(s[0] == a[0]);
        assert(s.skip(1) =~= a.skip(1) + b);
        assert(forall|i: int| 0 <= i < a.skip(1).len() ==> #[trigger] a.skip(1)[i] == a[i + 1]);
        lemma_token_len_stops(a.skip(1), b);
    }
}

/// Tokenization only looks past leading whitespace.
proof fn lemma_tokens_after_ws(x: Seq<u8>, y: Seq<u8>)
    requires
        skip_ws(x) == skip_ws(y),
    ensures
        tokens_of(x) == tokens_of(y),
{
}

/// Tokens split at a space: the tokens of `a`, then those of `b`,
/// when `a` holds no whitespace.
pub proof fn lemma_tokens_sep(a: Seq<u8>, b: Seq<u8>)
    requires
        forall|i: int| 0 <= i < a.len() ==> !is_ws(#[trigger] a[i]),
    ensures
        tokens_of(a + seq![SP] + b) == tokens_of(a) + tokens_of(b),
{
    let s = a + seq![SP] + b;
    if a.len() == 0 {
        assert(s =~= seq![SP] + b);
        assert(s.skip(1) =~= b);
        assert(skip_ws(s) == skip_ws(b));
        lemma_tokens_after_ws(s, b);
        assert(skip_ws(a) == a);
        assert(tokens_of(a) =~= Seq::<Seq<u8>>::empty());
        assert(tokens_of(s) =~= tokens_of(a) + tokens_of(b));
    } else {
        assert(s[0] == a[0]);
        assert(skip_ws(s) == s);
        assert(s =~= a + (seq![SP] + b));
        lemma_token_len_stops(a, seq![SP] + b);
        assert(token_len(s) == a.len());
        assert(s.take(a.len() as int) =~= a);
        let after = s.skip(a.len() as int);
        assert(after =~= seq![SP] + b);
        assert(after.skip(1) =~= b);
        assert(skip_ws(after) == skip_ws(b));
        lemma_tokens_after_ws(after, b);
        lemma_tokens_single(a);
        assert(tokens_of(s) =~= tokens_of(a) + tokens_of(b));
    }
}

/// A sequence free of carriage returns is one whole line.
pub proof fn lemma_lines_whole(s: Seq<u8>)
    requires
        forall|i: int| 0 <= i < s.len() ==> #[trigger] s[i] != CR,
    ensures
        lines_of(s) == seq![s],
{
    lemma_find_crlf(s);
    if find_crlf(s) is Some {
        let k = find_crlf(s)->Some_0;
        assert(s[k as int] == CR);
        assert(false);
    }
}

/// A request line of a whitespace-free method and path splits into
/// the method, the path, and the protocol version.
pub proof fn lemma_request_line_tokens(method: Seq<u8>, path: Seq<u8>)
    requires
        method.len() > 0,
        forall|i: int| 0 <= i < method.len() ==> !is_ws(#[trigger] method[i]),
        path.len() > 0,
        forall|i: int| 0 <= i < path.len() ==> !is_ws(#[trigger] path[i]),
    ensures
        tokens_of(method + seq![SP] + path + seq![SP] + ascii_of("HTTP/1.1"@)) == seq![
            method,
            path,
            ascii_of("HTTP/1.1"@),
        ],
{
    reveal_strlit("HTTP/1.1");
    let http = ascii_of("HTTP/1.1"@);
    let fl = method + seq![SP] + path + seq![SP] + http;
    assert(fl =~= method + seq![SP] + (path + seq![SP] + http));
    lemma_tokens_sep(method, path + seq![SP] + http);
    lemma_tokens_sep(path, http);
    lemma_tokens_single(method);
    lemma_tokens_single(path);
    assert forall|i: int| 0 <= i < http.len() implies !is_ws(#[trigger] http[i]) by {}
    lemma_tokens_single(http);
    assert(tokens_of(fl) =~= seq![method, path, http]);
}

/// The request a client sends to GET `path`, headers empty.
pub open spec fn simple_get_request(path: Seq<u8>) -> Seq<u8> {
    ascii_of("GET "@) + path + ascii_of(" HTTP/1.1\r\n\r\n"@)
}

/// The request line of `simple_get_request`.
pub open spec fn simple_get_line(path: Seq<u8>) -> Seq<u8> {
    ascii_of("GET "@) + path + ascii_of(" HTTP/1.1"@)
}

/// How a plain GET request parses: one request line and two empty
/// lines, three tokens, and a content length of zero.
pub proof fn lemma_simple_get_parse(path: Seq<u8>)
    requires
        path.len() > 0,
        forall|i: int| 0 <= i < path.len() ==> !is_ws(#[trigger] path[i]),
    ensures
        lines_of(simple_get_request(path)) == seq![
            simple_get_line(path),
            Seq::<u8>::empty(),
            Seq::<u8>::empty(),
        ],
        tokens_of(simple_get_line(path)) == seq![ascii_of("GET"@), path, ascii_of("HTTP/1.1"@)],
        content_length_of(simple_get_request(path)) == Some(0nat),
{
    reveal_strlit("GET ");
    reveal_strlit("GET");
    reveal_strlit(" HTTP/1.1\r\n\r\n");
    reveal_strlit(" HTTP/1.1");
    reveal_strlit("HTTP/1.1");
    reveal_strlit("Content-Length: ");
    let req = simple_get_request(path);
    let fl = simple_get_line(path);

    // The request is the request line, a CRLF, and one more CRLF.
    assert(req =~= fl + seq![CR, LF] + seq![CR, LF]);
    assert forall|i: int| 0 <= i < fl.len() implies #[trigger] fl[i] != CR by {
        if i < 4 {
            assert(fl[i] == ascii_of("GET "@)[i]);
        } else if i < 4 + path.len() {
            assert(fl[i] == path[i - 4]);
        } else {
            assert(fl[i] == ascii_of(" HTTP/1.1"@)[i - 4 - path.len()]);
        }
    }
    lemma_lines_concat(fl, seq![CR, LF]);
    let tail = seq![CR, LF];
    assert(tail =~= Seq::<u8>::empty() + seq![CR, LF] + Seq::<u8>::empty());
    lemma_lines_concat(Seq::<u8>::empty(), Seq::<u8>::empty());
    assert(lines_of(Seq::<u8>::empty()) =~= seq![Seq::<u8>::empty()]);
    assert(lines_of(req) =~= seq![fl, Seq::<u8>::empty(), Seq::<u8>::empty()]);

    // The request line splits into the three tokens.
    let get = ascii_of("GET"@);
    let http = ascii_of("HTTP/1.1"@);
    assert forall|i: int| 0 <= i < get.len() implies !is_ws(#[trigger] get[i]) by {}
    assert(fl =~= get + seq![SP] + path + seq![SP] + http);
    lemma_request_line_tokens(get, path);
    assert(tokens_of(fl) =~= seq![get, path, http]);

    // The terminator is present, and no Content-Length header is.
    assert(req[fl.len() as int] == CR && req[fl.len() as int + 1] == LF && req[fl.len() as int
        + 2] == CR && req[fl.len() as int + 3] == LF);
    assert(has_terminator(req));
    let clp = ascii_of("Content-Length: "@);
    let ls = lines_of(req);
    if starts_with(fl, clp) {
        assert(fl.take(clp.len() as int)[0] == clp[0]);
        assert(false);
    }
    assert(ls.skip(1) =~= seq![Seq::<u8>::empty(), Seq::<u8>::empty()]);
    assert(ls.skip(1).skip(1) =~= seq![Seq::<u8>::empty()]);
    assert(ls.skip(1).skip(1).skip(1) =~= Seq::<Seq<u8>>::empty());
    assert(ls[0] == fl);
    assert(header_value(ls, clp) == header_value(ls.skip(1), clp));
    assert(ls.skip(1)[0].len() == 0);
    assert(header_value(ls.skip(1), clp) == header_value(ls.skip(1).skip(1), clp));
    assert(ls.skip(1).skip(1)[0].len() == 0);
    assert(header_value(ls.skip(1).skip(1), clp) == header_value(ls.skip(1).skip(1).skip(1), clp));
    assert(header_value(ls, clp) is None);
}

/// Echo answers with the path segment: a GET of `/echo/` followed by
/// any segment free of whitespace and slashes is answered with the
/// plain-text 200 response whose body is exactly that segment,
/// whether or not a serving root is configured. Segments holding
/// whitespace cannot ride in a request line's path token, and a
/// slash could extend the `/echo/` prefix itself, so both stay out.
pub proof fn lemma_echo_request(seg: Seq<u8>, has_root: bool)
    requires
        forall|i: int|
            0 <= i < seg.len() ==> !is_ws(#[trigger] seg[i]) && seg[i] != SLASH,
    ensures
        spec_handle(ascii_of("GET /echo/"@) + seg + ascii_of(" HTTP/1.1\r\n\r\n"@), has_root)
            == ActionSpec::Respond(text_ok_bytes(seg)),
{
    reveal_strlit("GET /echo/");
    reveal_strlit("GET ");
    reveal_strlit("GET");
    reveal_strlit("/echo/");
    reveal_strlit("/echo");
    let p6 = ascii_of("/echo/"@);
    let path = p6 + seg;
    let req = ascii_of("GET /echo/"@) + seg + ascii_of(" HTTP/1.1\r\n\r\n"@);
    assert(req =~= simple_get_request(path));
    assert forall|i: int| 0 <= i < path.len() implies !is_ws(#[trigger] path[i]) by {
        if i < 6 {
            assert(path[i] == p6[i]);
        } else {
            assert(path[i] == seg[i - 6]);
        }
    }
    lemma_simple_get_parse(path);

    // The route is Echo.
    assert(path.take(ascii_of("/echo"@).len() as int) =~= ascii_of("/echo"@));
    assert(route_of(ascii_of("GET"@), path) == Route::Echo);

    // Stripping `/echo/` leaves the segment, once: the segment cannot
    // begin with a slash, so a second strip finds nothing.
    assert(path.take(p6.len() as int) =~= p6);
    assert(starts_with(path, p6));
    assert(path.skip(p6.len() as int) =~= seg);
    if starts_with(seg, p6) {
        assert(seg.take(p6.len() as int)[0] == p6[0]);
        assert(false);
    }
    assert(strip_prefix_all(seg, p6) == seg);
    assert(strip_prefix_all(path, p6) == seg);
}

/// The root route answers 200: a GET of exactly `/` is answered with
/// the bare 200 response, whether or not a serving root is configured.
pub proof fn lemma_root_request(has_root: bool)
    ensures
        spec_handle(simple_get_request(ascii_of("/"@)), has_root) == ActionSpec::Respond(
            root_ok_bytes(),
        ),
{
    reveal_strlit("GET");
    reveal_strlit("/");
    reveal_strlit("/echo");
    reveal_strlit("/files");
    reveal_strlit("/user-agent");
    let path = ascii_of("/"@);
    lemma_simple_get_parse(path);
    assert(route_of(ascii_of("GET"@), path) == Route::Root);
}

/// Download routing: a GET of `/files/` followed by a name free of
/// whitespace and slashes becomes a read of exactly that name under
/// the serving root when one is configured, and is answered with the
/// bare 404 response when none is.
pub proof fn lemma_file_get_request(name: Seq<u8>, has_root: bool)
    requires
        forall|i: int|
            0 <= i < name.len() ==> !is_ws(#[trigger] name[i]) && name[i] != SLASH,
    ensures
        spec_handle(ascii_of("GET /files/"@) + name + ascii_of(" HTTP/1.1\r\n\r\n"@), has_root)
            == if has_root {
            ActionSpec::ReadFile(name)
        } else {
            ActionSpec::Respond(not_found_bytes())
        },
{
    reveal_strlit("GET /files/");
    reveal_strlit("GET ");
    reveal_strlit("GET");
    reveal_strlit("/files/");
    reveal_strlit("/files");
    reveal_strlit("/echo");
    let p7 = ascii_of("/files/"@);
    let path = p7 + name;
    let req = ascii_of("GET /files/"@) + name + ascii_of(" HTTP/1.1\r\n\r\n"@);
    assert(req =~= simple_get_request(path));
    assert forall|i: int| 0 <= i < path.len() implies !is_ws(#[trigger] path[i]) by {
        if i < 7 {
            assert(path[i] == p7[i]);
        } else {
            assert(path[i] == name[i - 7]);
        }
    }
    lemma_simple_get_parse(path);

    // The route is the file download: `/files`, not `/echo`.
    if starts_with(path, ascii_of("/echo"@)) {
        assert(path.take(ascii_of("/echo"@).len() as int)[1] == ascii_of("/echo"@)[1]);
        assert(false);
    }
    assert(path.take(ascii_of("/files"@).len() as int) =~= ascii_of("/files"@));
    assert(route_of(ascii_of("GET"@), path) == Route::FileGet);

    // Stripping `/files/` leaves the name, once: the name cannot
    // begin with a slash, so a second strip finds nothing.
    assert(path.take(p7.len() as int) =~= p7);
    assert(starts_with(path, p7));
    assert(path.skip(p7.len() as int) =~= name);
    if starts_with(name, p7) {
        assert(name.take(p7.len() as int)[0] == p7[0]);
        assert(false);
    }
    assert(strip_prefix_all(name, p7) == name);
    assert(strip_prefix_all(path, p7) == name);
}

/// User-Agent reflection: a GET of `/user-agent` naming any CR-free
/// agent in its User-Agent header is answered with the plain-text 200
/// response whose body is exactly that agent value, whether or not a
/// serving root is configured.
pub proof fn lemma_user_agent_request(ua: Seq<u8>, has_root: bool)
    requires
        forall|i: int| 0 <= i < ua.len() ==> #[trigger] ua[i] != CR,
    ensures
        spec_handle(
            ascii_of("GET /user-agent HTTP/1.1\r\nUser-Agent: "@) + ua + ascii_of("\r\n\r\n"@),
            has_root,
        ) == ActionSpec::Respond(text_ok_bytes(ua)),
{
    reveal_strlit("GET /user-agent HTTP/1.1\r\nUser-Agent: ");
    reveal_strlit("\r\n\r\n");
    reveal_strlit("GET ");
    reveal_strlit("GET");
    reveal_strlit(" HTTP/1.1");
    reveal_strlit("HTTP/1.1");
    reveal_strlit("/user-agent");
    reveal_strlit("/echo");
    reveal_strlit("/files");
    reveal_strlit("User-Agent: ");
    reveal_strlit("Content-Length: ");
    let path = ascii_of("/user-agent"@);
    let fl = simple_get_line(path);
    let uap = ascii_of("User-Agent: "@);
    let ual = uap + ua;
    let req = ascii_of("GET /user-agent HTTP/1.1\r\nUser-Agent: "@) + ua + ascii_of("\r\n\r\n"@);

    // The request is the request line, the header line, and the two
    // CRLF pairs of the terminator.
    assert(req =~= fl + seq![CR, LF] + (ual + seq![CR, LF] + seq![CR, LF]));
    assert forall|i: int| 0 <= i < fl.len() implies #[trigger] fl[i] != CR by {
        if i < 4 {
            assert(fl[i] == ascii_of("GET "@)[i]);
        } else if i < 4 + path.len() {
            assert(fl[i] == path[i - 4]);
        } else {
            assert(fl[i] == ascii_of(" HTTP/1.1"@)[i - 4 - path.len()]);
        }
    }
    assert forall|i: int| 0 <= i < ual.len() implies #[trigger] ual[i] != CR by {
        if i < uap.len() {
            assert(ual[i] == uap[i]);
        } else {
            assert(ual[i] == ua[i - uap.len()]);
        }
    }
    lemma_lines_concat(fl, ual + seq![CR, LF] + seq![CR, LF]);
    lemma_lines_concat(ual, seq![CR, LF]);
    let tail = seq![CR, LF];
    assert(tail =~= Seq::<u8>::empty() + seq![CR, LF] + Seq::<u8>::empty());
    lemma_lines_concat(Seq::<u8>::empty(), Seq::<u8>::empty());
    assert(lines_of(Seq::<u8>::empty()) =~= seq![Seq::<u8>::empty()]);
    let ls = lines_of(req);
    assert(ls =~= seq![fl, ual, Seq::<u8>::empty(), Seq::<u8>::empty()]);

    // The request line carries the three tokens.
    lemma_simple_get_parse(path);

    // The terminator is present.
    let head = fl + seq![CR, LF] + ual;
    assert(req =~= head + seq![CR, LF, CR, LF]);
    assert(req[head.len() as int] == CR && req[head.len() as int + 1] == LF && req[head.len()
        as int + 2] == CR && req[head.len() as int + 3] == LF);
    assert(has_terminator(req));

    // No Content-Length header is present, so the length is zero.
    let clp = ascii_of("Content-Length: "@);
    if starts_with(fl, clp) {
        assert(fl.take(clp.len() as int)[0] == clp[0]);
        assert(false);
    }
    if starts_with(ual, clp) {
        assert(ual.take(clp.len() as int)[0] == clp[0]);
        assert(false);
    }
    assert(ls[0] == fl);
    assert(header_value(ls, clp) == header_value(ls.skip(1), clp));
    assert(ls.skip(1)[0] == ual);
    assert(header_value(ls.skip(1), clp) == header_value(ls.skip(1).skip(1), clp));
    assert(ls.skip(1).skip(1)[0].len() == 0);
    assert(header_value(ls.skip(1).skip(1), clp) == header_value(
        ls.skip(1).skip(1).skip(1),
        clp,
    ));
    assert(ls.skip(1).skip(1).skip(1)[0].len() == 0);
    assert(header_value(ls.skip(1).skip(1).skip(1), clp) == header_value(
        ls.skip(1).skip(1).skip(1).skip(1),
        clp,
    ));
    assert(ls.skip(1).skip(1).skip(1).skip(1) =~= Seq::<Seq<u8>>::empty());
    assert(header_value(ls, clp) is None);
    assert(content_length_of(req) == Some(0nat));

    // The User-Agent header is found on the second line.
    if starts_with(fl, uap) {
        assert(fl.take(uap.len() as int)[0] == uap[0]);
        assert(false);
    }
    assert(ual.take(uap.len() as int) =~= uap);
    assert(starts_with(ual, uap));
    assert(header_value(ls, uap) == header_value(ls.skip(1), uap));
    assert(header_value(ls.skip(1), uap) == Some(ual.skip(uap.len() as int)));
    assert(ual.skip(uap.len() as int) =~= ua);
    assert(user_agent_of(ls) == ua);

    // The route is the User-Agent reflection.
    if starts_with(path, ascii_of("/echo"@)) {
        assert(path.take(ascii_of("/echo"@).len() as int)[1] == ascii_of("/echo"@)[1]);
        assert(false);
    }
    if starts_with(path, ascii_of("/files"@)) {
        assert(path.take(ascii_of("/files"@).len() as int)[1] == ascii_of("/files"@)[1]);
        assert(false);
    }
    assert(route_of(ascii_of("GET"@), path) == Route::UserAgent);
}

/// Upload routing: a POST to `/files/` followed by a name free of
/// whitespace and slashes and not itself starting with `files`, whose
/// Content-Length header declares `n` and whose single-line body
/// holds at least `n` CR-free bytes, becomes a write of exactly the
/// body's first `n` bytes under that name (with the slash the server
/// keeps) when a serving root is configured, and is answered with the
/// bare 404 response when none is.
pub proof fn lemma_file_post_request(name: Seq<u8>, n: usize, body: Seq<u8>, has_root: bool)
    requires
        forall|i: int|
            0 <= i < name.len() ==> !is_ws(#[trigger] name[i]) && name[i] != SLASH,
        !starts_with(name, ascii_of("files"@)),
        forall|i: int| 0 <= i < body.len() ==> #[trigger] body[i] != CR,
        n <= body.len(),
    ensures
        spec_handle(
            ascii_of("POST /files/"@) + name + ascii_of(" HTTP/1.1\r\nContent-Length: "@)
                + dec_digits(n as nat) + ascii_of("\r\n\r\n"@) + body,
            has_root,
        ) == if has_root {
            ActionSpec::WriteFile(seq![SLASH] + name, body.take(n as int))
        } else {
            ActionSpec::Respond(not_found_bytes())
        },
{
    reveal_strlit("POST /files/");
    reveal_strlit("POST");
    reveal_strlit("GET");
    reveal_strlit("/files/");
    reveal_strlit("/files");
    reveal_strlit("files");
    reveal_strlit("/echo");
    reveal_strlit(" HTTP/1.1\r\nContent-Length: ");
    reveal_strlit(" HTTP/1.1");
    reveal_strlit("HTTP/1.1");
    reveal_strlit("Content-Length: ");
    reveal_strlit("\r\n\r\n");
    let post = ascii_of("POST"@);
    let http = ascii_of("HTTP/1.1"@);
    let p7 = ascii_of("/files/"@);
    let p6 = ascii_of("/files"@);
    let clp = ascii_of("Content-Length: "@);
    let path = p7 + name;
    let digits = dec_digits(n as nat);
    lemma_dec_round_trip(n as nat);
    let fl = post + seq![SP] + path + seq![SP] + http;
    let cll = clp + digits;
    let req = ascii_of("POST /files/"@) + name + ascii_of(" HTTP/1.1\r\nContent-Length: "@)
        + digits + ascii_of("\r\n\r\n"@) + body;

    // Neither the request line, nor the header line, nor the body
    // holds a carriage return, so the lines are these four.
    assert forall|i: int| 0 <= i < path.len() implies !is_ws(#[trigger] path[i]) by {
        if i < 7 {
            assert(path[i] == p7[i]);
        } else {
            assert(path[i] == name[i - 7]);
        }
    }
    assert forall|i: int| 0 <= i < fl.len() implies #[trigger] fl[i] != CR by {
        if i < 5 {
            assert(fl[i] == (post + seq![SP])[i]);
        } else if i < 5 + path.len() {
            assert(fl[i] == path[i - 5]);
        } else {
            assert(fl[i] == (seq![SP] + http)[i - 5 - path.len()]);
        }
    }
    assert forall|i: int| 0 <= i < cll.len() implies #[trigger] cll[i] != CR by {
        if i < clp.len() {
            assert(cll[i] == clp[i]);
        } else {
            assert(cll[i] == digits[i - clp.len()]);
            assert(is_digit(digits[i - clp.len()]));
        }
    }
    assert(ascii_of("POST /files/"@) =~= post + seq![SP] + p7);
    assert(ascii_of(" HTTP/1.1\r\nContent-Length: "@) =~= seq![SP] + http + seq![CR, LF] + clp);
    assert(ascii_of("\r\n\r\n"@) =~= seq![CR, LF, CR, LF]);
    assert(req =~= fl + seq![CR, LF] + (cll + seq![CR, LF] + (seq![CR, LF] + body)));
    lemma_lines_concat(fl, cll + seq![CR, LF] + (seq![CR, LF] + body));
    lemma_lines_concat(cll, seq![CR, LF] + body);
    assert(seq![CR, LF] + body =~= Seq::<u8>::empty() + seq![CR, LF] + body);
    lemma_lines_concat(Seq::<u8>::empty(), body);
    lemma_lines_whole(body);
    let ls = lines_of(req);
    assert(ls =~= seq![fl, cll, Seq::<u8>::empty(), body]);

    // The terminator stands between the header line and the body.
    let head = fl + seq![CR, LF] + cll;
    assert(req =~= head + seq![CR, LF, CR, LF] + body);
    assert(req[head.len() as int] == CR && req[head.len() as int + 1] == LF && req[head.len()
        as int + 2] == CR && req[head.len() as int + 3] == LF);
    assert(has_terminator(req));

    // The Content-Length header is found and declares `n`.
    if starts_with(fl, clp) {
        assert(fl.take(clp.len() as int)[0] == clp[0]);
        assert(false);
    }
    assert(cll.take(clp.len() as int) =~= clp);
    assert(starts_with(cll, clp));
    assert(ls[0] == fl);
    assert(header_value(ls, clp) == header_value(ls.skip(1), clp));
    assert(ls.skip(1)[0] == cll);
    assert(header_value(ls.skip(1), clp) == Some(cll.skip(clp.len() as int)));
    assert(cll.skip(clp.len() as int) =~= digits);
    assert(header_value(ls, clp) == Some(digits));

    // The numeral needs no trimming and carries no sign.
    assert(!is_ws(digits[0]));
    assert(skip_ws(digits) == digits);
    assert(!is_ws(digits[digits.len() - 1]));
    assert(trim_end_ws(digits) == digits);
    assert(trim_ws(digits) == digits);
    assert(digits[0] != PLUS);
    assert(strip_plus(digits) == digits);
    assert(content_length_of(req) == Some(n as nat));

    // The request line carries the three tokens.
    lemma_request_line_tokens(post, path);

    // The route is the upload.
    assert(post != ascii_of("GET"@));
    if starts_with(path, ascii_of("/echo"@)) {
        assert(path.take(ascii_of("/echo"@).len() as int)[1] == ascii_of("/echo"@)[1]);
        assert(false);
    }
    assert(path.take(p6.len() as int) =~= p6);
    assert(starts_with(path, p6));
    assert(route_of(post, path) == Route::FilePost);

    // Stripping `/files` keeps the slash before the name, once: the
    // name does not begin with `files`, so a second strip finds
    // nothing.
    let kept = seq![SLASH] + name;
    assert(path.skip(p6.len() as int) =~= kept);
    if starts_with(kept, p6) {
        assert(name.len() >= 5);
        assert forall|i: int| 0 <= i < 5 implies #[trigger] name[i] == ascii_of("files"@)[i] by {
            assert(kept.take(p6.len() as int)[i + 1] == p6[i + 1]);
            assert(kept[i + 1] == name[i]);
        }
        assert(name.take(ascii_of("files"@).len() as int) =~= ascii_of("files"@));
        assert(starts_with(name, ascii_of("files"@)));
        assert(false);
    }
    assert(strip_prefix_all(kept, p6) == kept);
    assert(strip_prefix_all(path, p6) == kept);

    // The body is the last line, long enough for the declared length.
    assert(ls.last() == body);
}

/// Requests outside the routing table get 404: a GET of any nonempty
/// whitespace-free path that does not start with `/echo` or `/files`
/// and is neither `/user-agent` nor `/` is answered with the bare
/// 404 response, whether or not a serving root is configured.
pub proof fn lemma_not_found_request(path: Seq<u8>, has_root: bool)
    requires
        path.len() > 0,
        forall|i: int| 0 <= i < path.len() ==> !is_ws(#[trigger] path[i]),
        !starts_with(path, ascii_of("/echo"@)),
        !starts_with(path, ascii_of("/files"@)),
        path != ascii_of("/user-agent"@),
        path != ascii_of("/"@),
    ensures
        spec_handle(simple_get_request(path), has_root) == ActionSpec::Respond(
            not_found_bytes(),
        ),
{
    reveal_strlit("GET");
    reveal_strlit("POST");
    lemma_simple_get_parse(path);
    assert(ascii_of("GET"@).len() == 3);
    assert(ascii_of("POST"@).len() == 4);
    assert(route_of(ascii_of("GET"@), path) == Route::NotFound);
}

/// Every response the server writes begins with an HTTP/1.1 status
/// line: whatever bytes any request makes the handler respond with,
/// and the download and upload responses written after a file was
/// read or stored, all start with `HTTP/1.1` and a space.
pub proof fn lemma_every_response_is_http(req: Seq<u8>, body: Seq<u8>, has_root: bool)
    ensures
        spec_handle(req, has_root) is Respond ==> starts_with(
            spec_handle(req, has_root)->Respond_0,
            ascii_of("HTTP/1.1 "@),
        ),
        starts_with(octet_ok_bytes(body), ascii_of("HTTP/1.1 "@)),
        starts_with(created_bytes(), ascii_of("HTTP/1.1 "@)),
{
    reveal_strlit("HTTP/1.1 ");
    reveal_strlit("HTTP/1.1 200 OK\r\nContent-Type: text/plain\r\nContent-Length: ");
    reveal_strlit("HTTP/1.1 200 OK\r\nContent-Type: application/octet-stream\r\nContent-Length: ");
    reveal_strlit("HTTP/1.1 200 OK\r\n\r\n\r\n\r\n");
    reveal_strlit("HTTP/1.1 201 Created\r\n\r\n");
    reveal_strlit("HTTP/1.1 400 Bad Request\r\n\r\n");
    reveal_strlit("HTTP/1.1 404 Not Found\r\n\r\n");
    let hp = ascii_of("HTTP/1.1 "@);
    assert(not_found_bytes().take(hp.len() as int) =~= hp);
    assert(bad_request_bytes().take(hp.len() as int) =~= hp);
    assert(root_ok_bytes().take(hp.len() as int) =~= hp);
    assert(created_bytes().take(hp.len() as int) =~= hp);
    assert forall|b: Seq<u8>| #[trigger] starts_with(text_ok_bytes(b), hp) by {
        assert(text_ok_bytes(b).take(hp.len() as int) =~= hp);
    }
    assert(octet_ok_bytes(body).take(hp.len() as int) =~= hp);
}

} // verus!
