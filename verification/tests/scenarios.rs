//! End-to-end scenarios: raw request bytes in, raw response bytes out.

use httpcore::conn::run_connection;
use httpcore::store::Store;

fn run(input: &str) -> Vec<u8> {
    let mut store = Store::new();
    run_connection(&input.as_bytes().to_vec(), &mut store)
}

#[test]
fn root_returns_empty_ok() {
    let out = run("GET / HTTP/1.1\r\n\r\n");
    assert_eq!(out, b"HTTP/1.1 200 OK\r\nContent-Length: 0\r\n\r\n".to_vec());
}

#[test]
fn echo_returns_text() {
    let out = run("GET /echo/abc HTTP/1.1\r\n\r\n");
    assert_eq!(
        out,
        b"HTTP/1.1 200 OK\r\nContent-Type: text/plain\r\nContent-Length: 3\r\n\r\nabc".to_vec()
    );
}

#[test]
fn echo_with_gzip_negotiation() {
    let out = run("GET /echo/abc HTTP/1.1\r\nAccept-Encoding: gzip\r\n\r\n");
    let split = out.windows(4).position(|w| w == b"\r\n\r\n").unwrap();
    let head = String::from_utf8(out[..split].to_vec()).unwrap();
    let body = &out[split + 4..];
    assert!(head.starts_with("HTTP/1.1 200 OK\r\n"));
    assert!(head.contains("\r\nContent-Encoding: gzip"));
    assert!(head.contains(&format!("\r\nContent-Length: {}", body.len())));
    let mut decoder = flate2::read::GzDecoder::new(body);
    let mut plain: Vec<u8> = Vec::new();
    std::io::Read::read_to_end(&mut decoder, &mut plain).unwrap();
    assert_eq!(plain, b"abc".to_vec());
}

#[test]
fn post_then_get_same_connection() {
    let out = run(
        "POST /files/x.txt HTTP/1.1\r\nContent-Length: 5\r\n\r\nhelloGET /files/x.txt HTTP/1.1\r\n\r\n",
    );
    let mut expected = b"HTTP/1.1 201 Created\r\nContent-Length: 0\r\n\r\n".to_vec();
    expected.extend_from_slice(
        b"HTTP/1.1 200 OK\r\nContent-Type: application/octet-stream\r\nContent-Length: 5\r\n\r\nhello",
    );
    assert_eq!(out, expected);
}

#[test]
fn get_missing_file_is_not_found() {
    let out = run("GET /files/missing.txt HTTP/1.1\r\n\r\n");
    assert_eq!(out, b"HTTP/1.1 404 Not Found\r\nContent-Length: 0\r\n\r\n".to_vec());
}

#[test]
fn unknown_path_is_not_found() {
    let out = run("GET /nope HTTP/1.1\r\n\r\n");
    assert_eq!(out, b"HTTP/1.1 404 Not Found\r\nContent-Length: 0\r\n\r\n".to_vec());
}

#[test]
fn connection_close_ends_after_one_response() {
    let out = run("GET / HTTP/1.1\r\nConnection: close\r\n\r\nGET / HTTP/1.1\r\n\r\n");
    assert_eq!(
        out,
        b"HTTP/1.1 200 OK\r\nConnection: close\r\nContent-Length: 0\r\n\r\n".to_vec()
    );
}

#[test]
fn keep_alive_serves_both_requests() {
    let out = run("GET / HTTP/1.1\r\n\r\nGET /echo/hi HTTP/1.1\r\n\r\n");
    let mut expected = b"HTTP/1.1 200 OK\r\nContent-Length: 0\r\n\r\n".to_vec();
    expected.extend_from_slice(
        b"HTTP/1.1 200 OK\r\nContent-Type: text/plain\r\nContent-Length: 2\r\n\r\nhi",
    );
    assert_eq!(out, expected);
}

#[test]
fn other_connection_value_keeps_alive() {
    let out = run("GET / HTTP/1.1\r\nConnection: keep-alive\r\n\r\nGET / HTTP/1.1\r\n\r\n");
    let one = b"HTTP/1.1 200 OK\r\nContent-Length: 0\r\n\r\n".to_vec();
    let mut expected = one.clone();
    expected.extend_from_slice(&one);
    assert_eq!(out, expected);
}

#[test]
fn response_echoes_request_version() {
    let out = run("GET / HTTP/1.0\r\n\r\n");
    assert_eq!(out, b"HTTP/1.0 200 OK\r\nContent-Length: 0\r\n\r\n".to_vec());
}

#[test]
fn user_agent_is_echoed() {
    let out = run("GET /user-agent HTTP/1.1\r\nUser-Agent: foobar/1.2\r\n\r\n");
    assert_eq!(
        out,
        b"HTTP/1.1 200 OK\r\nContent-Type: text/plain\r\nContent-Length: 10\r\n\r\nfoobar/1.2"
            .to_vec()
    );
}

#[test]
fn absent_user_agent_gives_empty_body() {
    let out = run("GET /user-agent HTTP/1.1\r\n\r\n");
    assert_eq!(
        out,
        b"HTTP/1.1 200 OK\r\nContent-Type: text/plain\r\nContent-Length: 0\r\n\r\n".to_vec()
    );
}
