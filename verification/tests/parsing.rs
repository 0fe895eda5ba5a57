use http_server::bytes::strip_prefix_repeated;
use http_server::lines::{find_header, saw_terminator, split_lines};
use http_server::num::{format_dec, parse_dec};
use http_server::route::{route, Route};
use http_server::tokens::{tokenize, trim};

fn bytes(s: &str) -> Vec<u8> {
    s.as_bytes().to_vec()
}

#[test]
fn terminator_is_seen_only_when_complete() {
    assert!(saw_terminator(&bytes("GET / HTTP/1.1\r\n\r\n")));
    assert!(saw_terminator(&bytes("a\r\n\r\nb")));
    assert!(!saw_terminator(&bytes("GET / HTTP/1.1\r\n")));
    assert!(!saw_terminator(&bytes("\r\n\r")));
    assert!(!saw_terminator(&bytes("")));
}

#[test]
fn lines_split_on_crlf() {
    let split = split_lines(&bytes("a\r\nbb\r\n\r\nccc"));
    assert_eq!(
        split,
        vec![bytes("a"), bytes("bb"), bytes(""), bytes("ccc")]
    );
    assert_eq!(split_lines(&bytes("")), vec![bytes("")]);
    assert_eq!(split_lines(&bytes("no breaks")), vec![bytes("no breaks")]);
}

#[test]
fn tokens_split_on_whitespace_runs() {
    assert_eq!(
        tokenize(&bytes("GET /a/b HTTP/1.1")),
        vec![bytes("GET"), bytes("/a/b"), bytes("HTTP/1.1")]
    );
    assert_eq!(
        tokenize(&bytes("  GET\t\t/  ")),
        vec![bytes("GET"), bytes("/")]
    );
    assert_eq!(tokenize(&bytes("")), Vec::<Vec<u8>>::new());
    assert_eq!(tokenize(&bytes("   ")), Vec::<Vec<u8>>::new());
}

#[test]
fn header_lookup_takes_first_match_and_strips_prefix() {
    let lines = split_lines(&bytes("GET / HTTP/1.1\r\nUser-Agent: curl\r\nUser-Agent: other\r\n\r\n"));
    let found = find_header(&lines, &bytes("User-Agent: "));
    assert_eq!(found, Some(bytes("curl")));
    let missing = find_header(&lines, &bytes("Content-Length: "));
    assert_eq!(missing, None);
}

#[test]
fn trim_strips_ascii_whitespace_at_both_ends() {
    assert_eq!(trim(&bytes("  5 \t")), bytes("5"));
    assert_eq!(trim(&bytes("5")), bytes("5"));
    assert_eq!(trim(&bytes("  \t ")), bytes(""));
    assert_eq!(trim(&bytes(" a b ")), bytes("a b"));
}

#[test]
fn prefix_stripping_repeats_while_the_prefix_matches() {
    assert_eq!(strip_prefix_repeated(&bytes("/echo/abc"), &bytes("/echo/")), bytes("abc"));
    assert_eq!(strip_prefix_repeated(&bytes("/echo"), &bytes("/echo/")), bytes("/echo"));
    assert_eq!(strip_prefix_repeated(&bytes("/echo//echo/x"), &bytes("/echo/")), bytes("x"));
    assert_eq!(strip_prefix_repeated(&bytes("/files/f.txt"), &bytes("/files")), bytes("/f.txt"));
}

#[test]
fn decimal_formatting_matches_expected_numerals() {
    assert_eq!(format_dec(0), bytes("0"));
    assert_eq!(format_dec(9), bytes("9"));
    assert_eq!(format_dec(10), bytes("10"));
    assert_eq!(format_dec(1024), bytes("1024"));
    assert_eq!(format_dec(usize::MAX), bytes(&usize::MAX.to_string()));
}

#[test]
fn decimal_parsing_accepts_digits_only() {
    assert_eq!(parse_dec(&bytes("0")), Some(0));
    assert_eq!(parse_dec(&bytes("5")), Some(5));
    assert_eq!(parse_dec(&bytes("007")), Some(7));
    assert_eq!(parse_dec(&bytes("18446744073709551615")), Some(usize::MAX));
    assert_eq!(parse_dec(&bytes("18446744073709551616")), None);
    assert_eq!(parse_dec(&bytes("")), None);
    assert_eq!(parse_dec(&bytes("12a")), None);
    assert_eq!(parse_dec(&bytes("-5")), None);
    assert_eq!(parse_dec(&bytes(" 5")), None);
}

#[test]
fn routes_are_tried_in_priority_order() {
    assert_eq!(route(&bytes("GET"), &bytes("/echo/x")), Route::Echo);
    assert_eq!(route(&bytes("GET"), &bytes("/echo")), Route::Echo);
    assert_eq!(route(&bytes("GET"), &bytes("/files/x")), Route::FileGet);
    assert_eq!(route(&bytes("POST"), &bytes("/files/x")), Route::FilePost);
    assert_eq!(route(&bytes("GET"), &bytes("/user-agent")), Route::UserAgent);
    assert_eq!(route(&bytes("GET"), &bytes("/")), Route::Root);
    assert_eq!(route(&bytes("GET"), &bytes("/user-agent/x")), Route::NotFound);
    assert_eq!(route(&bytes("POST"), &bytes("/echo/x")), Route::NotFound);
    assert_eq!(route(&bytes("PUT"), &bytes("/")), Route::NotFound);
}
