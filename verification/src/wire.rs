//! Serializing a response onto the wire.
//!
//! The status line echoes the request's version token verbatim, then the
//! headers in order, then the `Content-Length` framing header computed
//! from the body (zero without one), a blank line, and the body bytes.

use vstd::prelude::*;
use crate::bytes::{dec_repr, push_dec, push_all};
use crate::http::{
    Response, SpecResponse, SpecHeaders, headers_view, status_text, hn_content_length,
    content_length_name,
};

verus! {

/// The two-byte line terminator.
pub open spec fn crlf() -> Seq<u8> {
    seq![13u8, 10u8]
}

/// The `: ` separator between a header name and its value.
pub open spec fn colon_space() -> Seq<u8> {
    seq![58u8, 32u8]
}

/// One serialized header line.
pub open spec fn spec_header_line(h: (Seq<u8>, Seq<u8>)) -> Seq<u8> {
    h.0 + colon_space() + h.1 + crlf()
}

/// The serialized header block, in list order.
pub open spec fn spec_header_block(hs: SpecHeaders) -> Seq<u8>
    decreases hs.len(),
{
    if hs.len() == 0 {
        Seq::empty()
    } else {
        spec_header_block(hs.drop_last()) + spec_header_line(hs.last())
    }
}

/// The body's byte count, zero when absent.
pub open spec fn spec_body_len(r: SpecResponse) -> nat {
    match r.body {
        Some(b) => b.len(),
        None => 0,
    }
}

/// The header list as written: the response's own headers, then the
/// computed `Content-Length`.
pub open spec fn spec_framed_headers(r: SpecResponse) -> SpecHeaders {
    r.headers.push((hn_content_length(), dec_repr(spec_body_len(r))))
}

/// The full wire form of a response, echoing the request's `version`.
pub open spec fn spec_serialize(version: Seq<u8>, r: SpecResponse) -> Seq<u8> {
    version + seq![32u8] + status_text(r.status) + crlf() + spec_header_block(
        spec_framed_headers(r),
    ) + crlf() + (match r.body {
        Some(b) => b,
        None => Seq::empty(),
    })
}

/// Serialize a response, consuming it.
pub fn serialize_response(version: &Vec<u8>, response: Response) -> (out: Vec<u8>)
    ensures
        out@ == spec_serialize(version@, response@),
{
    let ghost rv = response@;
    let mut out: Vec<u8> = Vec::new();
    push_all(&mut out, version);
    out.push(32u8);
    let status_bytes = vstd::string::StrSliceExecFns::as_bytes_vec(response.status.as_str());
    push_all(&mut out, &status_bytes);
    out.push(13u8);
    out.push(10u8);
    let ghost base = version@ + seq![32u8] + status_text(rv.status) + crlf();
    proof {
        assert(out@ =~= base);
    }
    let mut i: usize = 0;
    while i < response.headers.len()
        invariant
            i <= response.headers@.len(),
            response@ == rv,
            out@ == base + spec_header_block(headers_view(response.headers@).take(i as int)),
        decreases response.headers@.len() - i,
    {
        let ghost hs = headers_view(response.headers@);
        proof {
            assert(hs.take(i + 1).drop_last() =~= hs.take(i as int));
            assert(hs.take(i + 1).last() == hs[i as int]);
        }
        let pair = &response.headers[i];
        push_all(&mut out, &pair.0);
        out.push(58u8);
        out.push(32u8);
        push_all(&mut out, &pair.1);
        out.push(13u8);
        out.push(10u8);
        proof {
            assert(out@ =~= base + spec_header_block(hs.take(i + 1)));
        }
        i = i + 1;
    }
    proof {
        let hs = headers_view(response.headers@);
        assert(hs.take(hs.len() as int) =~= hs);
    }
    let cl_name = content_length_name();
    push_all(&mut out, &cl_name);
    out.push(58u8);
    out.push(32u8);
    match &response.body {
        Some(b) => push_dec(&mut out, b.len()),
        None => push_dec(&mut out, 0),
    }
    out.push(13u8);
    out.push(10u8);
    // The blank line ending the header section.
    out.push(13u8);
    out.push(10u8);
    proof {
        let framed = spec_framed_headers(rv);
        let cl_pair = (hn_content_length(), dec_repr(spec_body_len(rv)));
        assert(framed.drop_last() =~= rv.headers);
        assert(framed.last() == cl_pair);
        assert(rv.headers == headers_view(response.headers@));
        assert(out@ =~= base + spec_header_block(rv.headers) + spec_header_line(cl_pair)
            + crlf());
        assert(spec_header_block(framed) == spec_header_block(framed.drop_last())
            + spec_header_line(framed.last()));
        assert(out@ =~= base + spec_header_block(framed) + crlf());
    }
    match response.body {
        Some(b) => {
            push_all(&mut out, &b);
        },
        None => {},
    }
    proof {
        assert(out@ =~= spec_serialize(version@, rv));
    }
    out
}

} // verus!
