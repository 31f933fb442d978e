//! The router and the store, exercised directly on structured requests.

use httpcore::http::{Method, Status, Request, Response};
use httpcore::router::{route, fetch_response, store_response, FetchOutcome, StoreOutcome};
use httpcore::store::Store;

fn get_request(path: &str) -> Request {
    Request {
        method: Method::Get,
        path: path.as_bytes().to_vec(),
        version: b"HTTP/1.1".to_vec(),
        headers: Vec::new(),
        body: None,
    }
}

fn post_request(path: &str, body: &[u8]) -> Request {
    Request {
        method: Method::Post,
        path: path.as_bytes().to_vec(),
        version: b"HTTP/1.1".to_vec(),
        headers: Vec::new(),
        body: Some(body.to_vec()),
    }
}

#[test]
fn files_round_trip_returns_stored_bytes() {
    let mut store = Store::new();
    let first = route(&post_request("/files/k", b"payload\x00\xff"), &mut store);
    assert_eq!(first.status, Status::Created);
    assert!(first.body.is_none());
    let second = route(&get_request("/files/k"), &mut store);
    assert_eq!(second.status, Status::Okay);
    assert_eq!(second.body, Some(b"payload\x00\xff".to_vec()));
}

#[test]
fn rewriting_a_key_replaces_its_bytes() {
    let mut store = Store::new();
    route(&post_request("/files/k", b"old"), &mut store);
    route(&post_request("/files/k", b"new"), &mut store);
    let got = route(&get_request("/files/k"), &mut store);
    assert_eq!(got.body, Some(b"new".to_vec()));
}

#[test]
fn missing_key_stays_missing_across_unrelated_requests() {
    let mut store = Store::new();
    let before = route(&get_request("/files/k"), &mut store);
    assert_eq!(before.status, Status::NotFound);
    route(&post_request("/files/other", b"x"), &mut store);
    route(&get_request("/"), &mut store);
    route(&get_request("/echo/k"), &mut store);
    let after = route(&get_request("/files/k"), &mut store);
    assert_eq!(after.status, Status::NotFound);
    assert!(after.body.is_none());
}

#[test]
fn route_is_deterministic_on_equal_inputs() {
    let mut store1 = Store::new();
    let mut store2 = Store::new();
    route(&post_request("/files/seed", b"s"), &mut store1);
    route(&post_request("/files/seed", b"s"), &mut store2);
    let r1 = route(&get_request("/files/seed"), &mut store1);
    let r2 = route(&get_request("/files/seed"), &mut store2);
    assert_eq!(r1.status, r2.status);
    assert_eq!(r1.body, r2.body);
}

#[test]
fn store_put_get_round_trip() {
    let mut store = Store::new();
    store.put(b"a".to_vec(), b"1".to_vec());
    store.put(b"b".to_vec(), b"2".to_vec());
    assert_eq!(store.get(&b"a".to_vec()), Some(b"1".to_vec()));
    assert_eq!(store.get(&b"b".to_vec()), Some(b"2".to_vec()));
    assert_eq!(store.get(&b"c".to_vec()), None);
}

#[test]
fn fetch_outcomes_map_to_statuses() {
    let found = fetch_response(FetchOutcome::Found(b"data".to_vec()));
    assert_eq!(found.status, Status::Okay);
    assert_eq!(found.body, Some(b"data".to_vec()));
    assert_eq!(
        found.headers,
        vec![(b"Content-Type".to_vec(), b"application/octet-stream".to_vec())]
    );
    let missing = fetch_response(FetchOutcome::Missing);
    assert_eq!(missing.status, Status::NotFound);
    assert!(missing.body.is_none());
    let failed = fetch_response(FetchOutcome::Failed(String::from("disk on fire")));
    assert_eq!(failed.status, Status::ServerError);
    assert_eq!(failed.body, Some(b"disk on fire".to_vec()));
}

#[test]
fn store_outcomes_map_to_statuses() {
    let stored = store_response(StoreOutcome::Stored);
    assert_eq!(stored.status, Status::Created);
    assert!(stored.body.is_none());
    let missing = store_response(StoreOutcome::Missing);
    assert_eq!(missing.status, Status::NotFound);
    let failed = store_response(StoreOutcome::Failed(String::from("quota")));
    assert_eq!(failed.status, Status::ServerError);
    assert_eq!(failed.body, Some(b"quota".to_vec()));
}

#[test]
fn status_reason_phrases_are_fixed() {
    assert_eq!(Status::Okay.as_str(), "200 OK");
    assert_eq!(Status::Created.as_str(), "201 Created");
    assert_eq!(Status::NotFound.as_str(), "404 Not Found");
    assert_eq!(Status::ServerError.as_str(), "500 Internal Server Error");
}

#[test]
fn response_constructors_fill_the_fields() {
    let bare = Response::status(Status::NotFound);
    assert_eq!(bare.status, Status::NotFound);
    assert!(bare.headers.is_empty());
    assert!(bare.body.is_none());
    let text = Response::text(Status::Okay, String::from("hi"));
    assert_eq!(text.status, Status::Okay);
    assert_eq!(text.headers, vec![(b"Content-Type".to_vec(), b"text/plain".to_vec())]);
    assert_eq!(text.body, Some(b"hi".to_vec()));
    let binary = Response::binary(vec![0u8, 1u8, 2u8]);
    assert_eq!(binary.status, Status::Okay);
    assert_eq!(
        binary.headers,
        vec![(b"Content-Type".to_vec(), b"application/octet-stream".to_vec())]
    );
    assert_eq!(binary.body, Some(vec![0u8, 1u8, 2u8]));
}
