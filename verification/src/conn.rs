//! The per-connection request/response loop.
//!
//! Each cycle parses one request from the connection's bytes, routes it,
//! negotiates compression, marks and decides keep-alive, and serializes
//! the response.  The loop repeats until the peer stops sending requests,
//! sends something unusable, or asks for the connection to be closed.

use vstd::prelude::*;
use vstd::utf8::encode_utf8;
use crate::bytes::{push_all, bytes_eq};
use crate::http::{
    Request, Response, SpecRequest, SpecResponse, header_lookup, hn_connection, connection_name,
    header_get,
};
use crate::parse::{spec_parse_request, SpecParse, ParseOutcome, parse_request,
    lemma_parse_used_bounds};
use crate::router::{spec_route, spec_route_ok, route, route_ok};
use crate::encoding::{spec_encode, encode};
use crate::wire::{spec_serialize, serialize_response};
use crate::store::Store;

verus! {

/// Did the request ask for the connection to be torn down?  Only the exact
/// value `close` (as received, after trimming) counts.
pub open spec fn spec_wants_close(req: SpecRequest) -> bool {
    header_lookup(req.headers, hn_connection()) == Some(encode_utf8("close"@))
}

/// The response with `Connection: close` added when the request asked for
/// teardown; otherwise unchanged.
pub open spec fn spec_close_mark(req: SpecRequest, r: SpecResponse) -> SpecResponse {
    if spec_wants_close(req) {
        SpecResponse {
            headers: r.headers.push((hn_connection(), encode_utf8("close"@))),
            ..r
        }
    } else {
        r
    }
}

/// Decide keep-alive: report whether the request carried
/// `Connection: close`, and if so add the same header to the outgoing
/// response.
pub fn should_close(request: &Request, response: &mut Response) -> (r: bool)
    ensures
        r == spec_wants_close(request@),
        final(response)@ == spec_close_mark(request@, old(response)@),
{
    let conn_name = connection_name();
    let close_value = vstd::string::StrSliceExecFns::as_bytes_vec("close");
    match header_get(&request.headers, &conn_name) {
        Some(v) => {
            if bytes_eq(&v, &close_value) {
                let name_again = connection_name();
                let value_again = vstd::string::StrSliceExecFns::as_bytes_vec("close");
                response.headers.push((name_again, value_again));
                proof {
                    assert(response@.headers =~= spec_close_mark(
                        request@,
                        old(response)@,
                    ).headers);
                }
                true
            } else {
                false
            }
        },
        None => false,
    }
}

/// One full cycle on a parsed request: the wire bytes of the response and
/// the store state left behind.
pub open spec fn spec_handle(req: SpecRequest, m: Map<Seq<u8>, Seq<u8>>) -> (Seq<u8>, Map<
    Seq<u8>,
    Seq<u8>,
>) {
    let routed = spec_route(req, m);
    let encoded = spec_encode(req, routed.0);
    let marked = spec_close_mark(req, encoded);
    (spec_serialize(req.version, marked), routed.1)
}

/// Route, negotiate, mark keep-alive and serialize one request.  Returns
/// the response bytes and whether the connection is to close after them.
pub fn handle_request(request: Request, store: &mut Store) -> (r: (Vec<u8>, bool))
    requires
        spec_route_ok(request@),
    ensures
        r.0@ == spec_handle(request@, old(store)@).0,
        final(store)@ == spec_handle(request@, old(store)@).1,
        r.1 == spec_wants_close(request@),
{
    let mut response = route(&request, store);
    encode(&request, &mut response);
    let close = should_close(&request, &mut response);
    let out = serialize_response(&request.version, response);
    (out, close)
}

/// Everything the connection writes for the bytes it received, and the
/// store state it leaves: responses are emitted for consecutive parsed
/// requests until the input is exhausted or unusable, a request breaks the
/// router's contract, or a request asks to close.
pub open spec fn spec_run(s: Seq<u8>, m: Map<Seq<u8>, Seq<u8>>) -> (Seq<u8>, Map<Seq<u8>, Seq<u8>>)
    decreases s.len(),
{
    match spec_parse_request(s) {
        SpecParse::Parsed { req, used } => {
            if 1 <= used <= s.len() {
                if spec_route_ok(req) {
                    let step = spec_handle(req, m);
                    if spec_wants_close(req) {
                        step
                    } else {
                        let rest = spec_run(s.skip(used), step.1);
                        (step.0 + rest.0, rest.1)
                    }
                } else {
                    // A `POST` to the file store without a body is a
                    // caller error; the connection closes with nothing
                    // written.
                    (Seq::empty(), m)
                }
            } else {
                // A parse never consumes less than one byte nor more than
                // the input; vacuous.
                (Seq::empty(), m)
            }
        },
        _ => (Seq::empty(), m),
    }
}

/// Run one connection over its buffered input bytes.
pub fn run_connection(input: &Vec<u8>, store: &mut Store) -> (out: Vec<u8>)
    ensures
        out@ == spec_run(input@, old(store)@).0,
        final(store)@ == spec_run(input@, old(store)@).1,
{
    let mut out: Vec<u8> = Vec::new();
    let mut pos: usize = 0;
    proof {
        assert(input@.skip(0) =~= input@);
    }
    loop
        invariant
            pos <= input@.len(),
            spec_run(input@, old(store)@).0 == out@ + spec_run(
                input@.skip(pos as int),
                store@,
            ).0,
            spec_run(input@, old(store)@).1 == spec_run(input@.skip(pos as int), store@).1,
        decreases input@.len() - pos,
    {
        let ghost rem = input@.skip(pos as int);
        let ghost m_here = store@;
        match parse_request(input, pos) {
            ParseOutcome::Parsed { req, used } => {
                let ghost reqv = req@;
                proof {
                    lemma_parse_used_bounds(rem);
                }
                if !route_ok(&req) {
                    proof {
                        assert(spec_run(rem, m_here) == (Seq::<u8>::empty(), m_here));
                        assert(out@ =~= out@ + Seq::<u8>::empty());
                    }
                    return out;
                }
                let (bytes, close) = handle_request(req, store);
                push_all(&mut out, &bytes);
                if close {
                    return out;
                }
                let n = input.len();
                proof {
                    assert(1 <= used <= rem.len());
                    assert(rem.len() == n - pos);
                    assert(rem.skip(used as int) =~= input@.skip(pos + used));
                }
                pos = pos + used;
            },
            _ => {
                proof {
                    assert(spec_run(rem, m_here) == (Seq::<u8>::empty(), m_here));
                    assert(out@ =~= out@ + Seq::<u8>::empty());
                }
                return out;
            },
        }
    }
}

/// A request carrying `Connection: close` gets exactly one more response:
/// whatever else follows it in the input, the connection's output ends
/// with that response and the store keeps only that request's effect.
pub proof fn lemma_close_ends_connection(
    s: Seq<u8>,
    m: Map<Seq<u8>, Seq<u8>>,
    req: SpecRequest,
    used: int,
)
    requires
        spec_parse_request(s) == (SpecParse::Parsed { req, used }),
        spec_wants_close(req),
        spec_route_ok(req),
    ensures
        spec_run(s, m) == spec_handle(req, m),
{
    lemma_parse_used_bounds(s);
}

/// A request without `Connection: close` keeps the connection open: the
/// output continues with whatever the remaining input produces against the
/// store this request left behind.
pub proof fn lemma_keep_alive_continues(
    s: Seq<u8>,
    m: Map<Seq<u8>, Seq<u8>>,
    req: SpecRequest,
    used: int,
)
    requires
        spec_parse_request(s) == (SpecParse::Parsed { req, used }),
        !spec_wants_close(req),
        spec_route_ok(req),
    ensures
        spec_run(s, m).0 == spec_handle(req, m).0 + spec_run(
            s.skip(used),
            spec_handle(req, m).1,
        ).0,
        spec_run(s, m).1 == spec_run(s.skip(used), spec_handle(req, m).1).1,
{
    lemma_parse_used_bounds(s);
}

} // verus!
