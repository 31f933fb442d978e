//! Response serialization and keep-alive marking.

use httpcore::conn::should_close;
use httpcore::http::{Method, Status, Request, Response};
use httpcore::wire::serialize_response;

fn request_with_connection(value: Option<&str>) -> Request {
    let mut headers: Vec<(Vec<u8>, Vec<u8>)> = Vec::new();
    if let Some(v) = value {
        headers.push((b"Connection".to_vec(), v.as_bytes().to_vec()));
    }
    Request {
        method: Method::Get,
        path: b"/".to_vec(),
        version: b"HTTP/1.1".to_vec(),
        headers,
        body: None,
    }
}

#[test]
fn serialization_frames_the_body_length() {
    let response = Response::text(Status::Okay, String::from("abcde"));
    let out = serialize_response(&b"HTTP/1.1".to_vec(), response);
    assert_eq!(
        out,
        b"HTTP/1.1 200 OK\r\nContent-Type: text/plain\r\nContent-Length: 5\r\n\r\nabcde"
            .to_vec()
    );
}

#[test]
fn serialization_without_body_writes_zero_length() {
    let out = serialize_response(&b"HTTP/1.1".to_vec(), Response::status(Status::ServerError));
    assert_eq!(
        out,
        b"HTTP/1.1 500 Internal Server Error\r\nContent-Length: 0\r\n\r\n".to_vec()
    );
}

#[test]
fn serialization_echoes_any_version_token() {
    let out = serialize_response(&b"HTTP/1.0".to_vec(), Response::status(Status::Created));
    assert_eq!(out, b"HTTP/1.0 201 Created\r\nContent-Length: 0\r\n\r\n".to_vec());
}

#[test]
fn close_header_is_detected_and_echoed() {
    let mut response = Response::status(Status::Okay);
    let close = should_close(&request_with_connection(Some("close")), &mut response);
    assert!(close);
    assert_eq!(response.headers, vec![(b"Connection".to_vec(), b"close".to_vec())]);
}

#[test]
fn absent_connection_header_keeps_alive() {
    let mut response = Response::status(Status::Okay);
    let close = should_close(&request_with_connection(None), &mut response);
    assert!(!close);
    assert!(response.headers.is_empty());
}

#[test]
fn other_connection_value_keeps_alive_and_adds_nothing() {
    let mut response = Response::status(Status::Okay);
    let close = should_close(&request_with_connection(Some("keep-alive")), &mut response);
    assert!(!close);
    assert!(response.headers.is_empty());
}

#[test]
fn connection_value_match_is_case_exact() {
    let mut response = Response::status(Status::Okay);
    let close = should_close(&request_with_connection(Some("Close")), &mut response);
    assert!(!close);
    assert!(response.headers.is_empty());
}

#[test]
fn multi_digit_length_is_decimal() {
    let response = Response::binary(vec![7u8; 123]);
    let out = serialize_response(&b"HTTP/1.1".to_vec(), response);
    let head = String::from_utf8_lossy(&out).to_string();
    assert!(head.contains("\r\nContent-Length: 123\r\n"));
}
