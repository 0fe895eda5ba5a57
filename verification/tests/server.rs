use http_server::response::created_response;
use http_server::server::{download_response, handle_request, Action};

fn bytes(s: &str) -> Vec<u8> {
    s.as_bytes().to_vec()
}

#[test]
fn echo_returns_segment_with_length() {
    let request = bytes("GET /echo/abc HTTP/1.1\r\nHost: localhost:4221\r\n\r\n");
    let action = handle_request(&request, false);
    let expected = bytes("HTTP/1.1 200 OK\r\nContent-Type: text/plain\r\nContent-Length: 3\r\n\r\nabc");
    assert_eq!(action, Action::Respond(expected));
}

#[test]
fn echo_long_segment_has_two_digit_length() {
    let request = bytes("GET /echo/abcdefghij HTTP/1.1\r\n\r\n");
    let action = handle_request(&request, true);
    let expected =
        bytes("HTTP/1.1 200 OK\r\nContent-Type: text/plain\r\nContent-Length: 10\r\n\r\nabcdefghij");
    assert_eq!(action, Action::Respond(expected));
}

#[test]
fn echo_empty_segment() {
    let request = bytes("GET /echo/ HTTP/1.1\r\n\r\n");
    let action = handle_request(&request, false);
    let expected = bytes("HTTP/1.1 200 OK\r\nContent-Type: text/plain\r\nContent-Length: 0\r\n\r\n");
    assert_eq!(action, Action::Respond(expected));
}

#[test]
fn echo_without_trailing_slash_echoes_whole_path() {
    let request = bytes("GET /echo HTTP/1.1\r\n\r\n");
    let action = handle_request(&request, false);
    let expected =
        bytes("HTTP/1.1 200 OK\r\nContent-Type: text/plain\r\nContent-Length: 5\r\n\r\n/echo");
    assert_eq!(action, Action::Respond(expected));
}

#[test]
fn user_agent_is_reflected() {
    let request = bytes("GET /user-agent HTTP/1.1\r\nUser-Agent: curl/7.64\r\n\r\n");
    let action = handle_request(&request, false);
    let expected =
        bytes("HTTP/1.1 200 OK\r\nContent-Type: text/plain\r\nContent-Length: 9\r\n\r\ncurl/7.64");
    assert_eq!(action, Action::Respond(expected));
}

#[test]
fn user_agent_absent_reflects_empty() {
    let request = bytes("GET /user-agent HTTP/1.1\r\nHost: x\r\n\r\n");
    let action = handle_request(&request, false);
    let expected = bytes("HTTP/1.1 200 OK\r\nContent-Type: text/plain\r\nContent-Length: 0\r\n\r\n");
    assert_eq!(action, Action::Respond(expected));
}

#[test]
fn root_returns_200() {
    let request = bytes("GET / HTTP/1.1\r\nHost: localhost:4221\r\n\r\n");
    let action = handle_request(&request, false);
    match action {
        Action::Respond(response) => {
            assert!(response.starts_with(b"HTTP/1.1 200 OK"));
        },
        other => panic!("root route gave {:?}", other),
    }
}

#[test]
fn unknown_path_returns_404() {
    let request = bytes("GET /nothing/here HTTP/1.1\r\n\r\n");
    let action = handle_request(&request, true);
    assert_eq!(action, Action::Respond(bytes("HTTP/1.1 404 Not Found\r\n\r\n")));
}

#[test]
fn unknown_method_returns_404() {
    let request = bytes("DELETE / HTTP/1.1\r\n\r\n");
    let action = handle_request(&request, false);
    assert_eq!(action, Action::Respond(bytes("HTTP/1.1 404 Not Found\r\n\r\n")));
}

#[test]
fn file_get_with_root_reads_the_named_file() {
    let request = bytes("GET /files/foo.txt HTTP/1.1\r\n\r\n");
    let action = handle_request(&request, true);
    assert_eq!(action, Action::ReadFile(bytes("foo.txt")));
}

#[test]
fn file_get_without_root_returns_404() {
    let request = bytes("GET /files/foo.txt HTTP/1.1\r\n\r\n");
    let action = handle_request(&request, false);
    assert_eq!(action, Action::Respond(bytes("HTTP/1.1 404 Not Found\r\n\r\n")));
}

#[test]
fn download_of_known_bytes_is_byte_identical() {
    let contents = b"known bytes\x00\xff of foo.txt".to_vec();
    assert_eq!(contents.len(), 24);
    let response = download_response(Some(contents.clone()));
    let mut expected =
        bytes("HTTP/1.1 200 OK\r\nContent-Type: application/octet-stream\r\nContent-Length: 24\r\n\r\n");
    expected.extend_from_slice(&contents);
    assert_eq!(response, expected);
}

#[test]
fn download_of_missing_file_returns_404() {
    let request = bytes("GET /files/missing.txt HTTP/1.1\r\n\r\n");
    let action = handle_request(&request, true);
    assert_eq!(action, Action::ReadFile(bytes("missing.txt")));
    let response = download_response(None);
    assert_eq!(response, bytes("HTTP/1.1 404 Not Found\r\n\r\n"));
}

#[test]
fn upload_writes_body_and_confirms_created() {
    let request = bytes("POST /files/bar.txt HTTP/1.1\r\nContent-Length: 5\r\n\r\nhello");
    let action = handle_request(&request, true);
    assert_eq!(action, Action::WriteFile(bytes("/bar.txt"), bytes("hello")));
    assert_eq!(created_response(), bytes("HTTP/1.1 201 Created\r\n\r\n"));
}

#[test]
fn upload_truncates_body_to_content_length() {
    let request = bytes("POST /files/bar.txt HTTP/1.1\r\nContent-Length: 3\r\n\r\nhello");
    let action = handle_request(&request, true);
    assert_eq!(action, Action::WriteFile(bytes("/bar.txt"), bytes("hel")));
}

#[test]
fn upload_without_root_returns_404() {
    let request = bytes("POST /files/bar.txt HTTP/1.1\r\nContent-Length: 5\r\n\r\nhello");
    let action = handle_request(&request, false);
    assert_eq!(action, Action::Respond(bytes("HTTP/1.1 404 Not Found\r\n\r\n")));
}

#[test]
fn upload_longer_than_body_returns_400() {
    let request = bytes("POST /files/bar.txt HTTP/1.1\r\nContent-Length: 50\r\n\r\nhello");
    let action = handle_request(&request, true);
    assert_eq!(action, Action::Respond(bytes("HTTP/1.1 400 Bad Request\r\n\r\n")));
}

#[test]
fn unparseable_content_length_returns_400() {
    let request = bytes("POST /files/bar.txt HTTP/1.1\r\nContent-Length: abc\r\n\r\nhello");
    let action = handle_request(&request, true);
    assert_eq!(action, Action::Respond(bytes("HTTP/1.1 400 Bad Request\r\n\r\n")));
}

#[test]
fn content_length_value_is_trimmed_and_may_carry_plus() {
    let request = bytes("POST /files/bar.txt HTTP/1.1\r\nContent-Length:  +5 \r\n\r\nhello");
    let action = handle_request(&request, true);
    assert_eq!(action, Action::WriteFile(bytes("/bar.txt"), bytes("hello")));
}

#[test]
fn request_line_with_one_token_returns_400() {
    let request = bytes("GET\r\n\r\n");
    let action = handle_request(&request, false);
    assert_eq!(action, Action::Respond(bytes("HTTP/1.1 400 Bad Request\r\n\r\n")));
}

#[test]
fn empty_request_returns_400() {
    let request = Vec::new();
    let action = handle_request(&request, false);
    assert_eq!(action, Action::Respond(bytes("HTTP/1.1 400 Bad Request\r\n\r\n")));
}

#[test]
fn extra_request_line_tokens_are_ignored() {
    let request = bytes("GET /echo/a HTTP/1.1 extra tokens\r\n\r\n");
    let action = handle_request(&request, false);
    let expected = bytes("HTTP/1.1 200 OK\r\nContent-Type: text/plain\r\nContent-Length: 1\r\n\r\na");
    assert_eq!(action, Action::Respond(expected));
}

#[test]
fn upload_without_terminator_writes_nothing_into_the_file() {
    // The peer closed before the blank line, so the declared length
    // was never scanned and counts as zero.
    let request = bytes("POST /files/x HTTP/1.1\r\nContent-Length: 5");
    let action = handle_request(&request, true);
    assert_eq!(action, Action::WriteFile(bytes("/x"), bytes("")));
}

#[test]
fn two_sequential_requests_are_handled_independently() {
    let first = bytes("GET /echo/one HTTP/1.1\r\n\r\n");
    let second = bytes("GET /user-agent HTTP/1.1\r\nUser-Agent: curl/7.64\r\n\r\n");
    let first_action = handle_request(&first, true);
    let second_action = handle_request(&second, true);
    assert_eq!(
        first_action,
        Action::Respond(bytes(
            "HTTP/1.1 200 OK\r\nContent-Type: text/plain\r\nContent-Length: 3\r\n\r\none"
        ))
    );
    assert_eq!(
        second_action,
        Action::Respond(bytes(
            "HTTP/1.1 200 OK\r\nContent-Type: text/plain\r\nContent-Length: 9\r\n\r\ncurl/7.64"
        ))
    );
    let first_again = handle_request(&first, true);
    assert_eq!(first_action, first_again);
}
