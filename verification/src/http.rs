//! The request and response model: methods, statuses, header lists, and the
//! response constructors.
//!
//! Header names and values are byte strings, kept case-sensitive as
//! received.  A header list is an ordered sequence of pairs; looking a name
//! up finds the value written last, so duplicate names behave
//! last-write-wins.

use vstd::prelude::*;
use vstd::utf8::encode_utf8;

verus! {

/// Request method, as mapped from the start line's first token.  Any token
/// other than `GET` or `POST` parses to `Unknown`; routing alone decides
/// what to do with it.
#[derive(Clone, Copy, PartialEq, Eq, Structural, Debug)]
pub enum Method {
    Get,
    Post,
    Unknown,
}

/// Response status; each variant carries a fixed reason phrase.
#[derive(Clone, Copy, PartialEq, Eq, Structural, Debug)]
pub enum Status {
    Okay,
    Created,
    NotFound,
    ServerError,
}

impl Status {
    /// The numeric code with its reason phrase, as written on the wire.
    pub fn as_str(&self) -> (r: &'static str)
        ensures
            encode_utf8(r@) == status_text(*self),
    {
        match self {
            Status::Okay => "200 OK",
            Status::Created => "201 Created",
            Status::NotFound => "404 Not Found",
            Status::ServerError => "500 Internal Server Error",
        }
    }
}

/// Wire bytes of a status's code and reason phrase.
pub open spec fn status_text(st: Status) -> Seq<u8> {
    match st {
        Status::Okay => encode_utf8("200 OK"@),
        Status::Created => encode_utf8("201 Created"@),
        Status::NotFound => encode_utf8("404 Not Found"@),
        Status::ServerError => encode_utf8("500 Internal Server Error"@),
    }
}

/// The `Content-Length` header name.
pub open spec fn hn_content_length() -> Seq<u8> {
    encode_utf8("Content-Length"@)
}

/// The `Accept-Encoding` header name.
pub open spec fn hn_accept_encoding() -> Seq<u8> {
    encode_utf8("Accept-Encoding"@)
}

/// The `User-Agent` header name.
pub open spec fn hn_user_agent() -> Seq<u8> {
    encode_utf8("User-Agent"@)
}

/// The `Connection` header name.
pub open spec fn hn_connection() -> Seq<u8> {
    encode_utf8("Connection"@)
}

/// The `Content-Encoding` header name.
pub open spec fn hn_content_encoding() -> Seq<u8> {
    encode_utf8("Content-Encoding"@)
}

pub fn content_length_name() -> (r: Vec<u8>)
    ensures
        r@ == hn_content_length(),
{
    vstd::string::StrSliceExecFns::as_bytes_vec("Content-Length")
}

pub fn accept_encoding_name() -> (r: Vec<u8>)
    ensures
        r@ == hn_accept_encoding(),
{
    vstd::string::StrSliceExecFns::as_bytes_vec("Accept-Encoding")
}

pub fn user_agent_name() -> (r: Vec<u8>)
    ensures
        r@ == hn_user_agent(),
{
    vstd::string::StrSliceExecFns::as_bytes_vec("User-Agent")
}

pub fn connection_name() -> (r: Vec<u8>)
    ensures
        r@ == hn_connection(),
{
    vstd::string::StrSliceExecFns::as_bytes_vec("Connection")
}

pub fn content_encoding_name() -> (r: Vec<u8>)
    ensures
        r@ == hn_content_encoding(),
{
    vstd::string::StrSliceExecFns::as_bytes_vec("Content-Encoding")
}

/// A header list as the specification sees it.
pub type SpecHeaders = Seq<(Seq<u8>, Seq<u8>)>;

/// Value of the last header with this name, if any.
pub open spec fn header_lookup(hs: SpecHeaders, name: Seq<u8>) -> Option<Seq<u8>>
    decreases hs.len(),
{
    if hs.len() == 0 {
        None
    } else if hs.last().0 == name {
        Some(hs.last().1)
    } else {
        header_lookup(hs.drop_last(), name)
    }
}

pub open spec fn headers_view(hs: Seq<(Vec<u8>, Vec<u8>)>) -> SpecHeaders {
    hs.map_values(|p: (Vec<u8>, Vec<u8>)| (p.0@, p.1@))
}

/// Value of the last header named `name`, cloned out of the list.
pub fn header_get(hs: &Vec<(Vec<u8>, Vec<u8>)>, name: &Vec<u8>) -> (r: Option<Vec<u8>>)
    ensures
        match r {
            Some(v) => header_lookup(headers_view(hs@), name@) == Some(v@),
            None => header_lookup(headers_view(hs@), name@) is None,
        },
{
    proof {
        assert(headers_view(hs@).take(hs@.len() as int) =~= headers_view(hs@));
    }
    let mut i: usize = hs.len();
    while i > 0
        invariant
            i <= hs@.len(),
            header_lookup(headers_view(hs@), name@) == header_lookup(
                headers_view(hs@).take(i as int),
                name@,
            ),
        decreases i,
    {
        i = i - 1;
        let pair = &hs[i];
        if pair.0 == *name {
            proof {
                assert(pair.0@ =~= name@);
                let taken = headers_view(hs@).take(i + 1);
                assert(taken.last() == (hs@[i as int].0@, hs@[i as int].1@));
                assert(header_lookup(taken, name@) == Some(pair.1@));
            }
            return Some(pair.1.clone());
        }
        proof {
            assert(!(pair.0@ =~= name@)) by {
                assert(pair.0@.len() == pair.0.len());
            }
            let taken = headers_view(hs@).take(i + 1);
            assert(taken.last() == (hs@[i as int].0@, hs@[i as int].1@));
            assert(taken.drop_last() =~= headers_view(hs@).take(i as int));
        }
    }
    proof {
        assert(headers_view(hs@).take(0).len() == 0);
    }
    None
}

/// A parsed request.  `path` and `version` are stored with trailing
/// whitespace (and the line's CRLF) stripped; the body is present exactly
/// when the method is `POST` and a positive `Content-Length` was supplied.
pub struct Request {
    pub method: Method,
    pub path: Vec<u8>,
    pub version: Vec<u8>,
    pub headers: Vec<(Vec<u8>, Vec<u8>)>,
    pub body: Option<Vec<u8>>,
}

/// The specification-level image of a `Request`.
pub ghost struct SpecRequest {
    pub method: Method,
    pub path: Seq<u8>,
    pub version: Seq<u8>,
    pub headers: SpecHeaders,
    pub body: Option<Seq<u8>>,
}

impl View for Request {
    type V = SpecRequest;

    open spec fn view(&self) -> SpecRequest {
        SpecRequest {
            method: self.method,
            path: self.path@,
            version: self.version@,
            headers: headers_view(self.headers@),
            body: match self.body {
                Some(b) => Some(b@),
                None => None,
            },
        }
    }
}

/// A response before serialization.  The `Content-Length` framing header is
/// not stored here; the writer computes it from the body when the response
/// goes out.
pub struct Response {
    pub status: Status,
    pub headers: Vec<(Vec<u8>, Vec<u8>)>,
    pub body: Option<Vec<u8>>,
}

/// The specification-level image of a `Response`.
pub ghost struct SpecResponse {
    pub status: Status,
    pub headers: SpecHeaders,
    pub body: Option<Seq<u8>>,
}

impl View for Response {
    type V = SpecResponse;

    open spec fn view(&self) -> SpecResponse {
        SpecResponse {
            status: self.status,
            headers: headers_view(self.headers@),
            body: match self.body {
                Some(b) => Some(b@),
                None => None,
            },
        }
    }
}

/// A bare response: no headers, no body.
pub open spec fn spec_status_response(st: Status) -> SpecResponse {
    SpecResponse { status: st, headers: Seq::empty(), body: None }
}

/// A `text/plain` response with the given body bytes.
pub open spec fn spec_text_response(st: Status, body: Seq<u8>) -> SpecResponse {
    SpecResponse {
        status: st,
        headers: seq![(encode_utf8("Content-Type"@), encode_utf8("text/plain"@))],
        body: Some(body),
    }
}

/// An `application/octet-stream` response carrying stored bytes.
pub open spec fn spec_binary_response(data: Seq<u8>) -> SpecResponse {
    SpecResponse {
        status: Status::Okay,
        headers: seq![(encode_utf8("Content-Type"@), encode_utf8("application/octet-stream"@))],
        body: Some(data),
    }
}

impl Response {
    /// A response that is only a status: no headers, no body.
    pub fn status(status: Status) -> (r: Response)
        ensures
            r@ == spec_status_response(status),
    {
        let r = Response { status, headers: Vec::new(), body: None };
        proof {
            assert(r@.headers =~= spec_status_response(status).headers);
        }
        r
    }

    /// A `text/plain` response whose body is the given byte string.
    pub fn text_bytes(status: Status, body: Vec<u8>) -> (r: Response)
        ensures
            r@ == spec_text_response(status, body@),
    {
        let mut headers: Vec<(Vec<u8>, Vec<u8>)> = Vec::new();
        let name = vstd::string::StrSliceExecFns::as_bytes_vec("Content-Type");
        let value = vstd::string::StrSliceExecFns::as_bytes_vec("text/plain");
        headers.push((name, value));
        let r = Response { status, headers, body: Some(body) };
        proof {
            assert(r@.headers =~= spec_text_response(status, body@).headers);
        }
        r
    }

    /// A `text/plain` response whose body is the UTF-8 encoding of `text`.
    pub fn text(status: Status, text: String) -> (r: Response)
        ensures
            r@ == spec_text_response(status, encode_utf8(text@)),
    {
        let body = vstd::string::StrSliceExecFns::as_bytes_vec(text.as_str());
        Response::text_bytes(status, body)
    }

    /// A `200` response carrying raw bytes as `application/octet-stream`.
    pub fn binary(data: Vec<u8>) -> (r: Response)
        ensures
            r@ == spec_binary_response(data@),
    {
        let mut headers: Vec<(Vec<u8>, Vec<u8>)> = Vec::new();
        let name = vstd::string::StrSliceExecFns::as_bytes_vec("Content-Type");
        let value = vstd::string::StrSliceExecFns::as_bytes_vec("application/octet-stream");
        headers.push((name, value));
        let r = Response { status: Status::Okay, headers, body: Some(data) };
        proof {
            assert(r@.headers =~= spec_binary_response(data@).headers);
        }
        r
    }
}

} // verus!
