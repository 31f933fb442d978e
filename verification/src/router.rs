//! Routing: a pure function from a parsed request (and the byte store's
//! state) to a response.
//!
//! Dispatch order, first match wins: `/` — `/echo/{text}` — `/user-agent`
//! — `/files/{key}` (`GET` fetches, `POST` stores, anything else falls
//! through) — otherwise `404`.

use vstd::prelude::*;
use vstd::utf8::encode_utf8;
use crate::bytes::{copy_range, bytes_eq};
use crate::http::{
    Method, Status, Request, Response, SpecRequest, SpecResponse, header_lookup, hn_user_agent,
    user_agent_name, header_get, spec_status_response, spec_text_response, spec_binary_response,
};
use crate::store::Store;

verus! {

/// Does `s` start with `p`?
pub open spec fn has_prefix(s: Seq<u8>, p: Seq<u8>) -> bool {
    s.len() >= p.len() && s.subrange(0, p.len() as int) == p
}

/// Executable prefix test.
fn starts_with(v: &Vec<u8>, p: &Vec<u8>) -> (r: bool)
    ensures
        r == has_prefix(v@, p@),
{
    if v.len() < p.len() {
        return false;
    }
    let mut i: usize = 0;
    while i < p.len()
        invariant
            i <= p@.len() <= v@.len(),
            forall|j: int| 0 <= j < i ==> v@[j] == p@[j],
        decreases p@.len() - i,
    {
        if v[i] != p[i] {
            proof {
                assert(v@.subrange(0, p@.len() as int)[i as int] == v@[i as int]);
            }
            return false;
        }
        i = i + 1;
    }
    proof {
        assert(v@.subrange(0, p@.len() as int) =~= p@);
    }
    true
}

/// The store key of a `/files/` path: what follows the prefix.
pub open spec fn spec_files_key(path: Seq<u8>) -> Seq<u8> {
    path.skip(encode_utf8("/files/"@).len() as int)
}

/// Is this a request the router may be given?  A `POST` to `/files/` must
/// carry a body; handing the router one without is a caller error, not a
/// recoverable condition.
pub open spec fn spec_route_ok(req: SpecRequest) -> bool {
    req.method == Method::Post && has_prefix(req.path, encode_utf8("/files/"@)) ==> req.body
        is Some
}

/// Executable form of `spec_route_ok`.
pub fn route_ok(req: &Request) -> (r: bool)
    ensures
        r == spec_route_ok(req@),
{
    let files = vstd::string::StrSliceExecFns::as_bytes_vec("/files/");
    match req.method {
        Method::Post => {
            if starts_with(&req.path, &files) {
                req.body.is_some()
            } else {
                true
            }
        },
        _ => true,
    }
}

/// The response for a request, and the store state it leaves behind.
pub open spec fn spec_route(req: SpecRequest, m: Map<Seq<u8>, Seq<u8>>) -> (SpecResponse, Map<
    Seq<u8>,
    Seq<u8>,
>) {
    if req.path == encode_utf8("/"@) {
        (spec_status_response(Status::Okay), m)
    } else if has_prefix(req.path, encode_utf8("/echo/"@)) {
        (spec_text_response(Status::Okay, req.path.skip(encode_utf8("/echo/"@).len() as int)), m)
    } else if has_prefix(req.path, encode_utf8("/user-agent"@)) {
        let ua = match header_lookup(req.headers, hn_user_agent()) {
            Some(v) => v,
            None => Seq::empty(),
        };
        (spec_text_response(Status::Okay, ua), m)
    } else if has_prefix(req.path, encode_utf8("/files/"@)) {
        let key = spec_files_key(req.path);
        if req.method == Method::Get {
            if m.contains_key(key) {
                (spec_binary_response(m[key]), m)
            } else {
                (spec_status_response(Status::NotFound), m)
            }
        } else if req.method == Method::Post {
            (spec_status_response(Status::Created), m.insert(key, req.body->Some_0))
        } else {
            (spec_status_response(Status::NotFound), m)
        }
    } else {
        (spec_status_response(Status::NotFound), m)
    }
}

/// Route a request, reading or writing the store as the path directs.
pub fn route(request: &Request, store: &mut Store) -> (r: Response)
    requires
        spec_route_ok(request@),
    ensures
        r@ == spec_route(request@, old(store)@).0,
        final(store)@ == spec_route(request@, old(store)@).1,
{
    let root = vstd::string::StrSliceExecFns::as_bytes_vec("/");
    if bytes_eq(&request.path, &root) {
        return Response::status(Status::Okay);
    }
    let echo = vstd::string::StrSliceExecFns::as_bytes_vec("/echo/");
    if starts_with(&request.path, &echo) {
        let rest = copy_range(&request.path, echo.len(), request.path.len());
        proof {
            assert(rest@ =~= request@.path.skip(encode_utf8("/echo/"@).len() as int));
        }
        return Response::text_bytes(Status::Okay, rest);
    }
    let ua_route = vstd::string::StrSliceExecFns::as_bytes_vec("/user-agent");
    if starts_with(&request.path, &ua_route) {
        let ua_name = user_agent_name();
        let ua = match header_get(&request.headers, &ua_name) {
            Some(v) => v,
            None => Vec::new(),
        };
        return Response::text_bytes(Status::Okay, ua);
    }
    let files = vstd::string::StrSliceExecFns::as_bytes_vec("/files/");
    if starts_with(&request.path, &files) {
        let key = copy_range(&request.path, files.len(), request.path.len());
        proof {
            assert(key@ =~= spec_files_key(request@.path));
        }
        match request.method {
            Method::Get => {
                return match store.get(&key) {
                    Some(data) => Response::binary(data),
                    None => Response::status(Status::NotFound),
                };
            },
            Method::Post => {
                let body = match &request.body {
                    Some(b) => b.clone(),
                    None => {
                        // `spec_route_ok` rules this out.
                        proof {
                            assert(false);
                        }
                        Vec::new()
                    },
                };
                store.put(key, body);
                return Response::status(Status::Created);
            },
            Method::Unknown => {
                return Response::status(Status::NotFound);
            },
        }
    }
    Response::status(Status::NotFound)
}

/// What a request asks of the byte store, when routing alone cannot finish
/// it.
pub enum RoutePlan {
    /// The response is already determined; no store access is needed.
    Ready(Response),
    /// Fetch the bytes stored under this key.
    FetchFile(Vec<u8>),
    /// Store these bytes under this key.
    StoreFile(Vec<u8>, Vec<u8>),
}

/// Split routing from store access: every request either has its response
/// ready, or names the single store operation that decides it.  The
/// ensured equations pin each plan to `spec_route` over every store state.
pub fn route_plan(request: &Request) -> (r: RoutePlan)
    requires
        spec_route_ok(request@),
    ensures
        match r {
            RoutePlan::Ready(resp) => forall|m: Map<Seq<u8>, Seq<u8>>|
                #[trigger] spec_route(request@, m) == (resp@, m),
            RoutePlan::FetchFile(key) => request@.method == Method::Get && forall|
                m: Map<Seq<u8>, Seq<u8>>,
            |
                #[trigger] spec_route(request@, m) == (
                    if m.contains_key(key@) {
                        spec_binary_response(m[key@])
                    } else {
                        spec_status_response(Status::NotFound)
                    },
                    m,
                ),
            RoutePlan::StoreFile(key, body) => request@.method == Method::Post && request@.body
                == Some(body@) && forall|m: Map<Seq<u8>, Seq<u8>>|
                #[trigger] spec_route(request@, m) == (
                    spec_status_response(Status::Created),
                    m.insert(key@, body@),
                ),
        },
{
    let root = vstd::string::StrSliceExecFns::as_bytes_vec("/");
    if bytes_eq(&request.path, &root) {
        return RoutePlan::Ready(Response::status(Status::Okay));
    }
    let echo = vstd::string::StrSliceExecFns::as_bytes_vec("/echo/");
    if starts_with(&request.path, &echo) {
        let rest = copy_range(&request.path, echo.len(), request.path.len());
        proof {
            assert(rest@ =~= request@.path.skip(encode_utf8("/echo/"@).len() as int));
        }
        return RoutePlan::Ready(Response::text_bytes(Status::Okay, rest));
    }
    let ua_route = vstd::string::StrSliceExecFns::as_bytes_vec("/user-agent");
    if starts_with(&request.path, &ua_route) {
        let ua_name = user_agent_name();
        let ua = match header_get(&request.headers, &ua_name) {
            Some(v) => v,
            None => Vec::new(),
        };
        return RoutePlan::Ready(Response::text_bytes(Status::Okay, ua));
    }
    let files = vstd::string::StrSliceExecFns::as_bytes_vec("/files/");
    if starts_with(&request.path, &files) {
        let key = copy_range(&request.path, files.len(), request.path.len());
        proof {
            assert(key@ =~= spec_files_key(request@.path));
        }
        match request.method {
            Method::Get => {
                return RoutePlan::FetchFile(key);
            },
            Method::Post => {
                let body = match &request.body {
                    Some(b) => b.clone(),
                    None => {
                        // `spec_route_ok` rules this out.
                        proof {
                            assert(false);
                        }
                        Vec::new()
                    },
                };
                return RoutePlan::StoreFile(key, body);
            },
            Method::Unknown => {
                return RoutePlan::Ready(Response::status(Status::NotFound));
            },
        }
    }
    RoutePlan::Ready(Response::status(Status::NotFound))
}

/// How an attempt to fetch stored bytes ended.
pub enum FetchOutcome {
    /// The key was present, with these bytes.
    Found(Vec<u8>),
    /// The key was absent.
    Missing,
    /// The store failed for another reason, described by this text.
    Failed(String),
}

/// The response for a file fetch: the bytes on success, `404` for an
/// absent key, `500` carrying the error's description otherwise.
pub fn fetch_response(outcome: FetchOutcome) -> (r: Response)
    ensures
        match outcome {
            FetchOutcome::Found(data) => r@ == spec_binary_response(data@),
            FetchOutcome::Missing => r@ == spec_status_response(Status::NotFound),
            FetchOutcome::Failed(msg) => r@ == spec_text_response(
                Status::ServerError,
                encode_utf8(msg@),
            ),
        },
{
    match outcome {
        FetchOutcome::Found(data) => Response::binary(data),
        FetchOutcome::Missing => Response::status(Status::NotFound),
        FetchOutcome::Failed(msg) => Response::text(Status::ServerError, msg),
    }
}

/// How an attempt to store bytes ended.
pub enum StoreOutcome {
    /// The bytes were stored.
    Stored,
    /// The key's place does not exist (a missing directory, for a
    /// filesystem-backed store).
    Missing,
    /// The store failed for another reason, described by this text.
    Failed(String),
}

/// The response for a file store: `201` on success, `404` when the key's
/// place is missing, `500` carrying the error's description otherwise.
pub fn store_response(outcome: StoreOutcome) -> (r: Response)
    ensures
        match outcome {
            StoreOutcome::Stored => r@ == spec_status_response(Status::Created),
            StoreOutcome::Missing => r@ == spec_status_response(Status::NotFound),
            StoreOutcome::Failed(msg) => r@ == spec_text_response(
                Status::ServerError,
                encode_utf8(msg@),
            ),
        },
{
    match outcome {
        StoreOutcome::Stored => Response::status(Status::Created),
        StoreOutcome::Missing => Response::status(Status::NotFound),
        StoreOutcome::Failed(msg) => Response::text(Status::ServerError, msg),
    }
}

/// The wire bytes of the route path literals.
proof fn lemma_route_literals()
    ensures
        encode_utf8("/"@) =~= seq![47u8],
        encode_utf8("/echo/"@) =~= seq![47u8, 101u8, 99u8, 104u8, 111u8, 47u8],
        encode_utf8("/user-agent"@) =~= seq![
            47u8,
            117u8,
            115u8,
            101u8,
            114u8,
            45u8,
            97u8,
            103u8,
            101u8,
            110u8,
            116u8,
        ],
        encode_utf8("/files/"@) =~= seq![47u8, 102u8, 105u8, 108u8, 101u8, 115u8, 47u8],
{
    reveal_strlit("/");
    reveal_strlit("/echo/");
    reveal_strlit("/user-agent");
    reveal_strlit("/files/");
    assert("/"@ =~= seq!['/']);
    assert("/echo/"@ =~= seq!['/', 'e', 'c', 'h', 'o', '/']);
    assert("/user-agent"@ =~= seq!['/', 'u', 's', 'e', 'r', '-', 'a', 'g', 'e', 'n', 't']);
    assert("/files/"@ =~= seq!['/', 'f', 'i', 'l', 'e', 's', '/']);
    vstd::utf8::is_ascii_chars_encode_utf8("/"@);
    vstd::utf8::is_ascii_chars_encode_utf8("/echo/"@);
    vstd::utf8::is_ascii_chars_encode_utf8("/user-agent"@);
    vstd::utf8::is_ascii_chars_encode_utf8("/files/"@);
}

/// A path of the shape `/files/{key}` matches no earlier route: it reaches
/// the file branch, whose key is exactly `{key}`.
proof fn lemma_files_path_dispatch(path: Seq<u8>, k: Seq<u8>)
    requires
        path == encode_utf8("/files/"@) + k,
    ensures
        path != encode_utf8("/"@),
        !has_prefix(path, encode_utf8("/echo/"@)),
        !has_prefix(path, encode_utf8("/user-agent"@)),
        has_prefix(path, encode_utf8("/files/"@)),
        spec_files_key(path) == k,
{
    lemma_route_literals();
    let f = encode_utf8("/files/"@);
    assert(path.len() == 7 + k.len());
    assert(path[1] == f[1]);
    if has_prefix(path, encode_utf8("/echo/"@)) {
        assert(path.subrange(0, 6)[1] == path[1]);
        assert(false);
    }
    if has_prefix(path, encode_utf8("/user-agent"@)) {
        assert(path.subrange(0, 11)[1] == path[1]);
        assert(false);
    }
    assert(path.subrange(0, 7) =~= f);
    assert(spec_files_key(path) =~= k);
}

/// Routing is a pure function of the request and the store state:
/// identical inputs give identical responses and identical final stores.
pub proof fn lemma_route_is_a_function(
    req1: SpecRequest,
    req2: SpecRequest,
    m1: Map<Seq<u8>, Seq<u8>>,
    m2: Map<Seq<u8>, Seq<u8>>,
)
    requires
        req1 == req2,
        m1 == m2,
    ensures
        spec_route(req1, m1) == spec_route(req2, m2),
{
}

/// Storing bytes and fetching them back returns them exactly: a `POST` of
/// body `b` to `/files/{key}` answers `201` with no body, and a `GET` of
/// the same path against the store it leaves behind answers `200` with
/// body `b`, leaving the store as it was.
pub proof fn lemma_files_round_trip(
    post: SpecRequest,
    get: SpecRequest,
    m: Map<Seq<u8>, Seq<u8>>,
    k: Seq<u8>,
    b: Seq<u8>,
)
    requires
        post.method == Method::Post,
        post.path == encode_utf8("/files/"@) + k,
        post.body == Some(b),
        get.method == Method::Get,
        get.path == encode_utf8("/files/"@) + k,
    ensures
        ({
            let first = spec_route(post, m);
            let second = spec_route(get, first.1);
            &&& first.0.status == Status::Created
            &&& first.0.body is None
            &&& second.0.status == Status::Okay
            &&& second.0.body == Some(b)
            &&& second.1 == first.1
        }),
{
    lemma_files_path_dispatch(post.path, k);
    lemma_files_path_dispatch(get.path, k);
}

/// Fetching an absent key answers `404` with no body and leaves the store
/// unchanged.
pub proof fn lemma_missing_key_is_not_found(
    get: SpecRequest,
    m: Map<Seq<u8>, Seq<u8>>,
    k: Seq<u8>,
)
    requires
        get.method == Method::Get,
        get.path == encode_utf8("/files/"@) + k,
        !m.contains_key(k),
    ensures
        spec_route(get, m).0.status == Status::NotFound,
        spec_route(get, m).0.body is None,
        spec_route(get, m).1 == m,
{
    lemma_files_path_dispatch(get.path, k);
}

/// No request other than a `POST` to `/files/{key}` ever creates `{key}`:
/// a key absent from the store stays absent across any number of
/// unrelated requests, so a `GET` for it keeps answering `404`.
pub proof fn lemma_unrelated_request_preserves_absence(
    req: SpecRequest,
    m: Map<Seq<u8>, Seq<u8>>,
    k: Seq<u8>,
)
    requires
        !m.contains_key(k),
        !(req.method == Method::Post && req.path == encode_utf8("/files/"@) + k),
    ensures
        !spec_route(req, m).1.contains_key(k),
{
    lemma_route_literals();
    let f = encode_utf8("/files/"@);
    if has_prefix(req.path, f) && req.method == Method::Post && req.path != encode_utf8("/"@)
        && !has_prefix(req.path, encode_utf8("/echo/"@)) && !has_prefix(
        req.path,
        encode_utf8("/user-agent"@),
    ) {
        let key = spec_files_key(req.path);
        if key == k {
            assert(req.path =~= f + k) by {
                assert(req.path.subrange(0, 7) == f);
                assert(req.path =~= req.path.subrange(0, 7) + req.path.skip(7));
            }
            assert(false);
        }
    }
}

} // verus!
