//! Content negotiation and compression.
//!
//! A response body is gzip-compressed exactly when the request's
//! `Accept-Encoding` header lists `gzip` among its comma-separated,
//! whitespace-trimmed tokens.  No other encoding is recognized; a response
//! without a body is left alone whatever was negotiated.

use vstd::prelude::*;
use vstd::utf8::encode_utf8;
use crate::bytes::{spec_find, spec_trim, find_byte, trim_range, bytes_eq};
use crate::http::{
    Request, Response, SpecRequest, SpecResponse, header_lookup, hn_accept_encoding,
    hn_content_encoding, accept_encoding_name, content_encoding_name, header_get,
};

verus! {

/// The bytes that flate2's gzip encoder produces for this input at the
/// default level.  With an unconfigured header the encoder writes a zero
/// timestamp and a fixed operating-system byte, so the output is a function
/// of the input bytes alone.
pub uninterp spec fn gzip_of(b: Seq<u8>) -> Seq<u8>;

/// What flate2's gzip decoder recovers from a byte string: the original
/// input when the bytes are a complete gzip stream, nothing otherwise.
pub uninterp spec fn gunzip_of(z: Seq<u8>) -> Option<Seq<u8>>;

/// Relies on flate2's `write::GzEncoder` (backed by its pure-Rust default
/// backend) at `Compression::default()`: the output is a gzip stream that
/// is a function of the input bytes alone, and flate2's `read::GzDecoder`
/// recovers exactly the input from it.  Writing into a `Vec` sink cannot
/// fail, so `write_all` and `finish` return `Ok` on every input.
#[verifier::external_body]
fn gzip_compress(data: &Vec<u8>) -> (r: Vec<u8>)
    ensures
        r@ == gzip_of(data@),
        gunzip_of(r@) == Some(data@),
{
    let mut encoder = flate2::write::GzEncoder::new(Vec::new(), flate2::Compression::default());
    std::io::Write::write_all(&mut encoder, data.as_slice()).unwrap();
    encoder.finish().unwrap()
}

/// Does the comma-separated token list `v` contain exactly `gzip` after
/// trimming surrounding whitespace from each token?
pub open spec fn gzip_token(v: Seq<u8>) -> bool
    decreases v.len(),
{
    match spec_find(v, 44u8, 0) {
        None => spec_trim(v) == encode_utf8("gzip"@),
        Some(c) => if 0 <= c < v.len() {
            spec_trim(v.subrange(0, c)) == encode_utf8("gzip"@) || gzip_token(
                v.subrange(c + 1, v.len() as int),
            )
        } else {
            // `spec_find` only returns in-range indices; vacuous.
            false
        },
    }
}

/// Does the request accept the gzip encoding?
pub open spec fn spec_accepts_gzip(req: SpecRequest) -> bool {
    match header_lookup(req.headers, hn_accept_encoding()) {
        Some(v) => gzip_token(v),
        None => false,
    }
}

/// The response after negotiation: the body replaced by its gzip form and
/// a `Content-Encoding: gzip` header added when the request accepts gzip
/// and a body is present; otherwise unchanged.
pub open spec fn spec_encode(req: SpecRequest, r: SpecResponse) -> SpecResponse {
    if spec_accepts_gzip(req) && r.body is Some {
        SpecResponse {
            status: r.status,
            headers: r.headers.push((hn_content_encoding(), encode_utf8("gzip"@))),
            body: Some(gzip_of(r.body->Some_0)),
        }
    } else {
        r
    }
}

/// Scan a comma-separated token list for a token that trims to `gzip`.
fn has_gzip_token(v: &Vec<u8>) -> (r: bool)
    ensures
        r == gzip_token(v@),
{
    let gz = vstd::string::StrSliceExecFns::as_bytes_vec("gzip");
    let n = v.len();
    let mut pos: usize = 0;
    proof {
        assert(v@.subrange(0, n as int) =~= v@);
    }
    loop
        invariant
            pos <= n == v@.len(),
            gz@ == encode_utf8("gzip"@),
            gzip_token(v@) == gzip_token(v@.subrange(pos as int, n as int)),
        decreases n - pos,
    {
        let ghost rem = v@.subrange(pos as int, n as int);
        match find_byte(v, 44u8, pos, n) {
            None => {
                proof {
                    crate::parse::lemma_find_window(v@, pos as int, n as int, pos as int, 44u8,
                        None);
                }
                let tok = trim_range(v, pos, n);
                return bytes_eq(&tok, &gz);
            },
            Some(c) => {
                proof {
                    crate::parse::lemma_find_window(v@, pos as int, n as int, pos as int, 44u8,
                        Some(c as int));
                    assert(v@.subrange(pos as int, c as int) =~= rem.subrange(0, c - pos));
                    assert(v@.subrange(c + 1, n as int) =~= rem.subrange(
                        c + 1 - pos,
                        rem.len() as int,
                    ));
                }
                let tok = trim_range(v, pos, c);
                if bytes_eq(&tok, &gz) {
                    return true;
                }
                pos = c + 1;
            },
        }
    }
}

/// Apply content negotiation to a response.
///
/// When the request accepts gzip and a body is present, the body is
/// replaced by its gzip-compressed form and a `Content-Encoding: gzip`
/// header is added; decompressing the new body recovers the old one
/// exactly.  Otherwise the response is left unchanged.
pub fn encode(request: &Request, response: &mut Response)
    ensures
        final(response)@ == spec_encode(request@, old(response)@),
        spec_accepts_gzip(request@) && old(response).body is Some ==> gunzip_of(
            final(response)@.body->Some_0,
        ) == Some(old(response)@.body->Some_0),
{
    let ae_name = accept_encoding_name();
    let accepts = match header_get(&request.headers, &ae_name) {
        Some(v) => has_gzip_token(&v),
        None => false,
    };
    if accepts {
        let body = response.body.take();
        match body {
            Some(b) => {
                let packed = gzip_compress(&b);
                response.body = Some(packed);
                let ce_name = content_encoding_name();
                let gz_value = vstd::string::StrSliceExecFns::as_bytes_vec("gzip");
                response.headers.push((ce_name, gz_value));
                proof {
                    assert(response@.headers =~= spec_encode(request@, old(response)@).headers);
                }
            },
            None => {
                response.body = None;
            },
        }
    }
}

} // verus!
