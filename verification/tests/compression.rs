//! Content negotiation and the gzip transform.

use httpcore::encoding::encode;
use httpcore::http::{Method, Status, Request, Response};

fn request_accepting(value: &str) -> Request {
    Request {
        method: Method::Get,
        path: b"/echo/x".to_vec(),
        version: b"HTTP/1.1".to_vec(),
        headers: vec![(b"Accept-Encoding".to_vec(), value.as_bytes().to_vec())],
        body: None,
    }
}

fn gunzip(z: &[u8]) -> Vec<u8> {
    let mut decoder = flate2::read::GzDecoder::new(z);
    let mut plain: Vec<u8> = Vec::new();
    std::io::Read::read_to_end(&mut decoder, &mut plain).unwrap();
    plain
}

#[test]
fn gzip_token_compresses_and_round_trips() {
    let original = b"The quick brown fox jumps over the lazy dog. ".repeat(20);
    let mut response = Response::binary(original.clone());
    encode(&request_accepting("gzip"), &mut response);
    let body = response.body.expect("a body should remain");
    assert_ne!(body, original);
    assert_eq!(gunzip(&body), original);
    assert!(response.headers.contains(&(b"Content-Encoding".to_vec(), b"gzip".to_vec())));
}

#[test]
fn gzip_among_several_tokens_is_honored() {
    let mut response = Response::text(Status::Okay, String::from("abc"));
    encode(&request_accepting("deflate, gzip, br"), &mut response);
    assert_eq!(gunzip(&response.body.unwrap()), b"abc".to_vec());
}

#[test]
fn token_whitespace_is_trimmed() {
    let mut response = Response::text(Status::Okay, String::from("abc"));
    encode(&request_accepting("deflate ,  gzip "), &mut response);
    assert_eq!(gunzip(&response.body.unwrap()), b"abc".to_vec());
}

#[test]
fn unrecognized_tokens_leave_the_body_alone() {
    let mut response = Response::text(Status::Okay, String::from("abc"));
    encode(&request_accepting("deflate, br"), &mut response);
    assert_eq!(response.body, Some(b"abc".to_vec()));
    assert_eq!(response.headers, vec![(b"Content-Type".to_vec(), b"text/plain".to_vec())]);
}

#[test]
fn token_match_is_case_exact() {
    let mut response = Response::text(Status::Okay, String::from("abc"));
    encode(&request_accepting("GZIP"), &mut response);
    assert_eq!(response.body, Some(b"abc".to_vec()));
}

#[test]
fn partial_token_does_not_match() {
    let mut response = Response::text(Status::Okay, String::from("abc"));
    encode(&request_accepting("gzipx"), &mut response);
    assert_eq!(response.body, Some(b"abc".to_vec()));
}

#[test]
fn absent_header_means_no_compression() {
    let plain = Request {
        method: Method::Get,
        path: b"/echo/x".to_vec(),
        version: b"HTTP/1.1".to_vec(),
        headers: Vec::new(),
        body: None,
    };
    let mut response = Response::text(Status::Okay, String::from("abc"));
    encode(&plain, &mut response);
    assert_eq!(response.body, Some(b"abc".to_vec()));
}

#[test]
fn bodyless_response_is_untouched_by_negotiation() {
    let mut response = Response::status(Status::NotFound);
    encode(&request_accepting("gzip"), &mut response);
    assert!(response.body.is_none());
    assert!(response.headers.is_empty());
}

#[test]
fn empty_body_still_round_trips() {
    let mut response = Response::binary(Vec::new());
    encode(&request_accepting("gzip"), &mut response);
    let body = response.body.expect("a body should remain");
    assert_eq!(gunzip(&body), Vec::<u8>::new());
}
