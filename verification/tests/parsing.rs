//! Parser behavior at the connection level: malformed input, framing,
//! duplicate headers, and body handling.

use httpcore::conn::run_connection;
use httpcore::parse::{parse_request, ParseOutcome};
use httpcore::http::Method;
use httpcore::store::Store;

fn run_bytes(input: &[u8]) -> Vec<u8> {
    let mut store = Store::new();
    run_connection(&input.to_vec(), &mut store)
}

#[test]
fn empty_input_writes_nothing() {
    assert_eq!(run_bytes(b""), Vec::<u8>::new());
}

#[test]
fn short_start_line_writes_nothing() {
    assert_eq!(run_bytes(b"GET /\r\n\r\n"), Vec::<u8>::new());
}

#[test]
fn four_field_start_line_writes_nothing() {
    assert_eq!(run_bytes(b"GET / HTTP/1.1 extra\r\n\r\n"), Vec::<u8>::new());
}

#[test]
fn header_without_colon_writes_nothing() {
    assert_eq!(run_bytes(b"GET / HTTP/1.1\r\nBadHeader\r\n\r\n"), Vec::<u8>::new());
}

#[test]
fn unreadable_content_length_writes_nothing() {
    assert_eq!(
        run_bytes(b"POST /files/x HTTP/1.1\r\nContent-Length: abc\r\n\r\n"),
        Vec::<u8>::new()
    );
}

#[test]
fn oversized_content_length_writes_nothing() {
    assert_eq!(
        run_bytes(b"POST /files/x HTTP/1.1\r\nContent-Length: 2147483648\r\n\r\nhi"),
        Vec::<u8>::new()
    );
}

#[test]
fn incomplete_request_writes_nothing() {
    assert_eq!(run_bytes(b"GET / HTTP/1.1\r\n"), Vec::<u8>::new());
}

#[test]
fn incomplete_body_writes_nothing() {
    assert_eq!(
        run_bytes(b"POST /files/x HTTP/1.1\r\nContent-Length: 9\r\n\r\nhi"),
        Vec::<u8>::new()
    );
}

#[test]
fn post_to_files_without_body_writes_nothing() {
    // A store write without a body is a caller error; the engine
    // closes without a response.
    assert_eq!(run_bytes(b"POST /files/x HTTP/1.1\r\n\r\n"), Vec::<u8>::new());
}

#[test]
fn zero_content_length_means_no_body() {
    assert_eq!(
        run_bytes(b"POST /files/x HTTP/1.1\r\nContent-Length: 0\r\n\r\n"),
        Vec::<u8>::new()
    );
}

#[test]
fn parse_fills_all_request_fields() {
    let input = b"POST /files/a.txt HTTP/1.1\r\nContent-Length: 3\r\nX-One: 1\r\n\r\nabc".to_vec();
    match parse_request(&input, 0) {
        ParseOutcome::Parsed { req, used } => {
            assert_eq!(req.method, Method::Post);
            assert_eq!(req.path, b"/files/a.txt".to_vec());
            assert_eq!(req.version, b"HTTP/1.1".to_vec());
            assert_eq!(req.body, Some(b"abc".to_vec()));
            assert_eq!(used, input.len());
            assert_eq!(req.headers.len(), 2);
            assert_eq!(req.headers[0].0, b"Content-Length".to_vec());
            assert_eq!(req.headers[0].1, b"3".to_vec());
            assert_eq!(req.headers[1].0, b"X-One".to_vec());
            assert_eq!(req.headers[1].1, b"1".to_vec());
        },
        _ => panic!("expected a parsed request"),
    }
}

#[test]
fn header_values_are_trimmed() {
    let input = b"GET /user-agent HTTP/1.1\r\nUser-Agent:   padded  \r\n\r\n".to_vec();
    let out = run_bytes(&input);
    assert_eq!(
        out,
        b"HTTP/1.1 200 OK\r\nContent-Type: text/plain\r\nContent-Length: 6\r\n\r\npadded"
            .to_vec()
    );
}

#[test]
fn duplicate_headers_take_the_last_value() {
    let out =
        run_bytes(b"GET /user-agent HTTP/1.1\r\nUser-Agent: one\r\nUser-Agent: two\r\n\r\n");
    assert_eq!(
        out,
        b"HTTP/1.1 200 OK\r\nContent-Type: text/plain\r\nContent-Length: 3\r\n\r\ntwo".to_vec()
    );
}

#[test]
fn unknown_method_routes_to_echo() {
    // Method tokens other than GET and POST are kept; routing decides.
    let out = run_bytes(b"PUT /echo/ok HTTP/1.1\r\n\r\n");
    assert_eq!(
        out,
        b"HTTP/1.1 200 OK\r\nContent-Type: text/plain\r\nContent-Length: 2\r\n\r\nok".to_vec()
    );
}

#[test]
fn unknown_method_on_files_is_not_found() {
    let out = run_bytes(b"PUT /files/x HTTP/1.1\r\n\r\n");
    assert_eq!(out, b"HTTP/1.1 404 Not Found\r\nContent-Length: 0\r\n\r\n".to_vec());
}

#[test]
fn signed_content_length_is_accepted() {
    let out = run_bytes(b"POST /files/s HTTP/1.1\r\nContent-Length: +2\r\n\r\nhi");
    assert_eq!(out, b"HTTP/1.1 201 Created\r\nContent-Length: 0\r\n\r\n".to_vec());
}
