//! The connection handler's decision: from the bytes read off one
//! connection and the single configuration flag to the action the
//! server takes, pinned down exactly.

use vstd::prelude::*;

use crate::bytes::{ascii_bytes, ascii_of, strip_prefix_all, strip_prefix_repeated, subvec, views_of, PLUS};
use crate::lines::{has_terminator, header_value, lines_of, saw_terminator, split_lines, find_header};
use crate::num::{all_digits, dec_val, parse_dec};
use crate::response::{
    bad_request_bytes, bad_request_response, not_found_bytes,
    not_found_response, octet_ok_bytes, octet_response, root_ok_bytes, root_response,
    text_ok_bytes, text_response,
};
use crate::route::{route, route_of, Route};
use crate::tokens::{tokenize, tokens_of, trim, trim_ws};

verus! {

broadcast use vstd::string::group_string_axioms;

/// What the server must do for one request: write a response, or
/// serve the named file, or store the named file and confirm.
#[derive(Debug, PartialEq, Eq)]
pub enum Action {
    /// Write these bytes back and close.
    Respond(Vec<u8>),
    /// Read the named file under the serving root and write the
    /// download response for what was found.
    ReadFile(Vec<u8>),
    /// Create the named file under the serving root with these
    /// contents and confirm with the created response.
    WriteFile(Vec<u8>, Vec<u8>),
}

/// The mathematical value of an `Action`.
pub enum ActionSpec {
    /// Write these bytes back and close.
    Respond(Seq<u8>),
    /// Read the named file and respond with its contents.
    ReadFile(Seq<u8>),
    /// Create the named file with these contents and confirm.
    WriteFile(Seq<u8>, Seq<u8>),
}

impl View for Action {
    type V = ActionSpec;

    open spec fn view(&self) -> ActionSpec {
        match self {
            Action::Respond(bytes) => ActionSpec::Respond(bytes@),
            Action::ReadFile(name) => ActionSpec::ReadFile(name@),
            Action::WriteFile(name, contents) => ActionSpec::WriteFile(name@, contents@),
        }
    }
}

/// `s` with one leading plus sign removed, as an unsigned numeral
/// parser accepts.
pub open spec fn strip_plus(s: Seq<u8>) -> Seq<u8> {
    if s.len() > 0 && s[0] == PLUS {
        s.skip(1)
    } else {
        s
    }
}

/// The declared content length of a request: zero when the header
/// terminator was never seen or no Content-Length header is present;
/// the header's trimmed decimal value when it parses; nothing when it
/// does not, which the server answers with 400.
pub open spec fn content_length_of(req: Seq<u8>) -> Option<nat> {
    if !has_terminator(req) {
        Some(0nat)
    } else {
        match header_value(lines_of(req), ascii_of("Content-Length: "@)) {
            None => Some(0nat),
            Some(raw) => {
                let t = strip_plus(trim_ws(raw));
                if t.len() > 0 && all_digits(t) && dec_val(t) <= usize::MAX {
                    Some(dec_val(t))
                } else {
                    None
                }
            },
        }
    }
}

/// The User-Agent header's value, empty when the header is absent.
pub open spec fn user_agent_of(ls: Seq<Seq<u8>>) -> Seq<u8> {
    match header_value(ls, ascii_of("User-Agent: "@)) {
        Some(value) => value,
        None => Seq::empty(),
    }
}

/// The action taken once the request line is parsed: the route's
/// response, with the echo segment, the upload body, or the file name
/// drawn from the path and lines as each handler asks.
pub open spec fn dispatch(
    method: Seq<u8>,
    path: Seq<u8>,
    ls: Seq<Seq<u8>>,
    content_length: nat,
    has_root: bool,
) -> ActionSpec {
    match route_of(method, path) {
        Route::Echo => ActionSpec::Respond(
            text_ok_bytes(strip_prefix_all(path, ascii_of("/echo/"@))),
        ),
        Route::FileGet => if has_root {
            ActionSpec::ReadFile(strip_prefix_all(path, ascii_of("/files/"@)))
        } else {
            ActionSpec::Respond(not_found_bytes())
        },
        Route::FilePost => if has_root {
            if content_length <= ls.last().len() {
                ActionSpec::WriteFile(
                    strip_prefix_all(path, ascii_of("/files"@)),
                    ls.last().take(content_length as int),
                )
            } else {
                ActionSpec::Respond(bad_request_bytes())
            }
        } else {
            ActionSpec::Respond(not_found_bytes())
        },
        Route::UserAgent => ActionSpec::Respond(text_ok_bytes(user_agent_of(ls))),
        Route::Root => ActionSpec::Respond(root_ok_bytes()),
        Route::NotFound => ActionSpec::Respond(not_found_bytes()),
    }
}

/// The action the server takes for one request read as `req`, with
/// `has_root` saying whether a serving root was configured: 400 when
/// the Content-Length header does not parse or the request line has
/// fewer than two tokens, and the selected handler's action otherwise.
pub open spec fn spec_handle(req: Seq<u8>, has_root: bool) -> ActionSpec {
    match content_length_of(req) {
        None => ActionSpec::Respond(bad_request_bytes()),
        Some(content_length) => {
            let ls = lines_of(req);
            let toks = tokens_of(ls[0]);
            if toks.len() < 2 {
                ActionSpec::Respond(bad_request_bytes())
            } else {
                dispatch(toks[0], toks[1], ls, content_length, has_root)
            }
        },
    }
}

/// Handles one request: turns the bytes read from a connection and
/// the configuration flag into exactly the action `spec_handle` gives.
pub fn handle_request(req: &Vec<u8>, has_root: bool) -> (a: Action)
    ensures
        a@ == spec_handle(req@, has_root),
{
    proof {
        reveal_strlit("Content-Length: ");
        reveal_strlit("User-Agent: ");
        reveal_strlit("/echo/");
        reveal_strlit("/files/");
        reveal_strlit("/files");
    }
    let lines = split_lines(req);
    let content_length_parse: Option<usize> = if saw_terminator(req) {
        match find_header(&lines, &ascii_bytes("Content-Length: ")) {
            None => Some(0),
            Some(raw) => {
                let t = trim(&raw);
                let numeral = if t.len() > 0 && t[0] == PLUS {
                    let stripped = subvec(&t, 1, t.len());
                    proof {
                        assert(stripped@ =~= strip_plus(t@));
                    }
                    stripped
                } else {
                    t
                };
                parse_dec(&numeral)
            },
        }
    } else {
        Some(0)
    };
    let content_length = match content_length_parse {
        None => {
            return Action::Respond(bad_request_response());
        },
        Some(n) => n,
    };
    let toks = tokenize(&lines[0]);
    proof {
        assert(views_of(lines@)[0] == lines@[0]@);
        assert(views_of(toks@).len() == toks@.len());
    }
    if toks.len() < 2 {
        return Action::Respond(bad_request_response());
    }
    let method = &toks[0];
    let path = &toks[1];
    proof {
        assert(views_of(toks@)[0] == method@);
        assert(views_of(toks@)[1] == path@);
    }
    match route(method, path) {
        Route::Echo => {
            let segment = strip_prefix_repeated(path, &ascii_bytes("/echo/"));
            Action::Respond(text_response(&segment))
        },
        Route::FileGet => {
            if has_root {
                Action::ReadFile(strip_prefix_repeated(path, &ascii_bytes("/files/")))
            } else {
                Action::Respond(not_found_response())
            }
        },
        Route::FilePost => {
            if has_root {
                let body = &lines[lines.len() - 1];
                proof {
                    assert(views_of(lines@)[lines@.len() - 1] == body@);
                    assert(lines_of(req@).last() == body@);
                }
                if content_length <= body.len() {
                    let name = strip_prefix_repeated(path, &ascii_bytes("/files"));
                    let contents = subvec(body, 0, content_length);
                    proof {
                        assert(contents@ =~= body@.take(content_length as int));
                    }
                    Action::WriteFile(name, contents)
                } else {
                    Action::Respond(bad_request_response())
                }
            } else {
                Action::Respond(not_found_response())
            }
        },
        Route::UserAgent => {
            let user_agent = match find_header(&lines, &ascii_bytes("User-Agent: ")) {
                Some(value) => value,
                None => Vec::new(),
            };
            proof {
                assert(user_agent@ =~= user_agent_of(lines_of(req@)));
            }
            Action::Respond(text_response(&user_agent))
        },
        Route::Root => Action::Respond(root_response()),
        Route::NotFound => Action::Respond(not_found_response()),
    }
}

/// The response to a file download once the file was looked up: its
/// contents as an octet stream when it could be read, 404 otherwise.
pub fn download_response(contents: Option<Vec<u8>>) -> (r: Vec<u8>)
    ensures
        match contents {
            Some(bytes) => r@ == octet_ok_bytes(bytes@),
            None => r@ == not_found_bytes(),
        },
{
    match contents {
        Some(bytes) => octet_response(&bytes),
        None => not_found_response(),
    }
}

} // verus!
