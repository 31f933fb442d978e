//! Parsing raw request bytes into a structured request.
//!
//! The parser is a pure function of the buffered bytes of one connection.
//! It consumes one request from the front of the buffer:
//!
//! * the start line, split on single spaces into exactly three fields
//!   (method, path, version) — any other shape means the peer closed or
//!   sent garbage, and the connection is to be closed without a response;
//! * header lines up to the empty `CRLF` line — a header line without a
//!   colon, or an unreadable `Content-Length`, is a fatal parse error;
//! * for `POST` with a positive `Content-Length`, that many body bytes.
//!
//! When the buffer holds only a prefix of a request the parser reports
//! that more bytes are needed; the caller reads more or, at end of input,
//! closes the connection.

use vstd::prelude::*;
use vstd::utf8::encode_utf8;
use crate::bytes::{
    spec_find, spec_trim, spec_trim_back, spec_parse_i32, lemma_find_some, lemma_find_none,
    find_byte, copy_range, trim_range, trim_back_range, parse_i32, bytes_eq,
};
use crate::http::{
    Method, Request, SpecRequest, SpecHeaders, headers_view, header_lookup, hn_content_length,
    content_length_name, header_get,
};

verus! {

/// Method named by a start-line token.
pub open spec fn spec_method(tok: Seq<u8>) -> Method {
    if tok == encode_utf8("GET"@) {
        Method::Get
    } else if tok == encode_utf8("POST"@) {
        Method::Post
    } else {
        Method::Unknown
    }
}

/// Outcome of reading the header section, at the specification level.
pub ghost enum SpecHeaderParse {
    /// No complete header section in the bytes yet.
    Incomplete,
    /// A header line without a colon: a fatal parse error.
    Bad,
    /// The full section: accumulated headers and the bytes consumed.
    Done { headers: SpecHeaders, used: int },
}

/// Read header lines from the front of `s` until the empty `CRLF` line,
/// appending each `name: value` pair (value trimmed of surrounding
/// whitespace) to `acc`.
pub open spec fn spec_parse_headers(s: Seq<u8>, acc: SpecHeaders) -> SpecHeaderParse
    decreases s.len(),
{
    match spec_find(s, 10u8, 0) {
        None => SpecHeaderParse::Incomplete,
        Some(lf) => if !(0 <= lf < s.len()) {
            // `spec_find` only returns in-range indices; vacuous.
            SpecHeaderParse::Incomplete
        } else {
            let line = s.subrange(0, lf + 1);
            if line == seq![13u8, 10u8] {
                SpecHeaderParse::Done { headers: acc, used: lf + 1 }
            } else {
                match spec_find(line, 58u8, 0) {
                    None => SpecHeaderParse::Bad,
                    Some(c) => {
                        let key = line.subrange(0, c);
                        let value = spec_trim(line.subrange(c + 1, line.len() as int));
                        let rest = s.subrange(lf + 1, s.len() as int);
                        match spec_parse_headers(rest, acc.push((key, value))) {
                            SpecHeaderParse::Done { headers, used } => SpecHeaderParse::Done {
                                headers,
                                used: used + lf + 1,
                            },
                            other => other,
                        }
                    },
                }
            }
        },
    }
}

/// Outcome of parsing one request, at the specification level.
pub ghost enum SpecParse {
    /// The bytes hold only a prefix of a request.
    Incomplete,
    /// The start line does not split into exactly three fields: no request
    /// is available and the connection is to be closed cleanly.
    NoRequest,
    /// A fatal parse error: bad header line or bad `Content-Length`.
    Bad,
    /// One parsed request and the number of bytes it occupied.
    Parsed { req: SpecRequest, used: int },
}

/// Parse one request from the front of `s`.
pub open spec fn spec_parse_request(s: Seq<u8>) -> SpecParse {
    match spec_find(s, 10u8, 0) {
        None => SpecParse::Incomplete,
        Some(lf) => if !(0 <= lf < s.len()) {
            // `spec_find` only returns in-range indices; vacuous.
            SpecParse::Incomplete
        } else {
            let line = s.subrange(0, lf + 1);
            match spec_find(line, 32u8, 0) {
                None => SpecParse::NoRequest,
                Some(sp1) => match spec_find(line, 32u8, sp1 + 1) {
                    None => SpecParse::NoRequest,
                    Some(sp2) => if spec_find(line, 32u8, sp2 + 1) is Some {
                        SpecParse::NoRequest
                    } else {
                        let method = spec_method(line.subrange(0, sp1));
                        let path = spec_trim_back(line.subrange(sp1 + 1, sp2));
                        let version = spec_trim_back(line.subrange(sp2 + 1, line.len() as int));
                        spec_parse_tail(s, lf, method, path, version)
                    },
                },
            }
        },
    }
}

/// The part after the start line: headers, then the body when `POST` and a
/// positive `Content-Length` call for one.
pub open spec fn spec_parse_tail(
    s: Seq<u8>,
    lf: int,
    method: Method,
    path: Seq<u8>,
    version: Seq<u8>,
) -> SpecParse {
    match spec_parse_headers(s.subrange(lf + 1, s.len() as int), Seq::empty()) {
        SpecHeaderParse::Incomplete => SpecParse::Incomplete,
        SpecHeaderParse::Bad => SpecParse::Bad,
        SpecHeaderParse::Done { headers, used } => {
            let after = lf + 1 + used;
            let req0 = SpecRequest { method, path, version, headers, body: None };
            if method != Method::Post {
                SpecParse::Parsed { req: req0, used: after }
            } else {
                match header_lookup(headers, hn_content_length()) {
                    None => SpecParse::Parsed { req: req0, used: after },
                    Some(v) => match spec_parse_i32(v) {
                        None => SpecParse::Bad,
                        Some(cl) => if cl <= 0 {
                            SpecParse::Parsed { req: req0, used: after }
                        } else if after + cl <= s.len() {
                            SpecParse::Parsed {
                                req: SpecRequest {
                                    body: Some(s.subrange(after, after + cl)),
                                    ..req0
                                },
                                used: after + cl,
                            }
                        } else {
                            SpecParse::Incomplete
                        },
                    },
                }
            }
        },
    }
}

/// A parsed header section spans the empty line (two bytes) at least, and
/// never more than the input.
pub proof fn lemma_headers_used_bounds(s: Seq<u8>, acc: SpecHeaders)
    ensures
        spec_parse_headers(s, acc) matches SpecHeaderParse::Done { used, .. } ==> 2 <= used
            <= s.len(),
    decreases s.len(),
{
    match spec_find(s, 10u8, 0) {
        None => {},
        Some(lf) => {
            crate::bytes::lemma_find_props(s, 10u8, 0);
            if 0 <= lf < s.len() {
                let line = s.subrange(0, lf + 1);
                if line == seq![13u8, 10u8] {
                } else {
                    match spec_find(line, 58u8, 0) {
                        None => {},
                        Some(c) => {
                            let key = line.subrange(0, c);
                            let value = spec_trim(line.subrange(c + 1, line.len() as int));
                            let rest = s.subrange(lf + 1, s.len() as int);
                            lemma_headers_used_bounds(rest, acc.push((key, value)));
                        },
                    }
                }
            }
        },
    }
}

/// A parsed request occupies at least the empty header line and never more
/// than the input.
pub proof fn lemma_parse_used_bounds(s: Seq<u8>)
    ensures
        spec_parse_request(s) matches SpecParse::Parsed { used, .. } ==> 1 <= used <= s.len(),
{
    match spec_find(s, 10u8, 0) {
        None => {},
        Some(lf) => {
            crate::bytes::lemma_find_props(s, 10u8, 0);
            if 0 <= lf < s.len() {
                lemma_headers_used_bounds(s.subrange(lf + 1, s.len() as int), Seq::empty());
            }
        },
    }
}

/// Outcome of one parse attempt on the connection buffer.
pub enum ParseOutcome {
    /// The buffer holds only a prefix of a request; read more bytes.
    Incomplete,
    /// No request is available (malformed start line): close cleanly.
    NoRequest,
    /// Fatal parse error: close the connection without a response.
    Bad,
    /// One request, and how many buffer bytes it consumed.
    Parsed { req: Request, used: usize },
}

/// Carry an executable search over `v[from..end)` into `spec_find` on the
/// window `v.subrange(base, end)`.
pub proof fn lemma_find_window(v: Seq<u8>, base: int, end: int, from: int, b: u8, r: Option<int>)
    requires
        0 <= base <= from <= end <= v.len(),
        match r {
            Some(i) => from <= i < end && v[i] == b && forall|j: int| from <= j < i ==> v[j] != b,
            None => forall|j: int| from <= j < end ==> v[j] != b,
        },
    ensures
        spec_find(v.subrange(base, end), b, from - base) == match r {
            Some(i) => Some(i - base),
            None => None::<int>,
        },
{
    let w = v.subrange(base, end);
    match r {
        Some(i) => {
            assert(w[i - base] == v[i]);
            assert(forall|j: int| from - base <= j < i - base ==> w[j] == v[j + base]);
            lemma_find_some(w, b, from - base, i - base);
        },
        None => {
            assert(forall|j: int| from - base <= j < w.len() ==> w[j] == v[j + base]);
            lemma_find_none(w, b, from - base);
        },
    }
}

/// Outcome of reading a start line from the buffer.
enum StartOutcome {
    Incomplete,
    NoRequest,
    /// The three fields, and the buffer position just after the line.
    Line { method: Method, path: Vec<u8>, version: Vec<u8>, next: usize },
}

/// Read the start line of `input[start..]` and split it into its three
/// fields.
fn parse_start_line(input: &Vec<u8>, start: usize) -> (r: StartOutcome)
    requires
        start <= input@.len(),
    ensures
        ({
            let s = input@.subrange(start as int, input@.len() as int);
            match r {
                StartOutcome::Incomplete => spec_parse_request(s) is Incomplete,
                StartOutcome::NoRequest => spec_parse_request(s) is NoRequest,
                StartOutcome::Line { method, path, version, next } => start < next
                    <= input@.len() && spec_parse_request(s) == spec_parse_tail(
                    s,
                    next - 1 - start,
                    method,
                    path@,
                    version@,
                ),
            }
        }),
{
    let n = input.len();
    let ghost s = input@.subrange(start as int, n as int);
    let lf = match find_byte(input, 10u8, start, n) {
        None => {
            proof {
                lemma_find_window(input@, start as int, n as int, start as int, 10u8, None);
            }
            return StartOutcome::Incomplete;
        },
        Some(i) => {
            proof {
                lemma_find_window(
                    input@,
                    start as int,
                    n as int,
                    start as int,
                    10u8,
                    Some(i as int),
                );
            }
            i
        },
    };
    let ghost lfr = lf - start;
    let ghost line = s.subrange(0, lfr + 1);
    proof {
        assert(line =~= input@.subrange(start as int, lf + 1));
    }
    let sp1 = match find_byte(input, 32u8, start, lf + 1) {
        None => {
            proof {
                lemma_find_window(input@, start as int, lf + 1, start as int, 32u8, None);
            }
            return StartOutcome::NoRequest;
        },
        Some(i) => {
            proof {
                lemma_find_window(
                    input@,
                    start as int,
                    lf + 1,
                    start as int,
                    32u8,
                    Some(i as int),
                );
            }
            i
        },
    };
    let sp2 = match find_byte(input, 32u8, sp1 + 1, lf + 1) {
        None => {
            proof {
                lemma_find_window(input@, start as int, lf + 1, sp1 + 1, 32u8, None);
            }
            return StartOutcome::NoRequest;
        },
        Some(i) => {
            proof {
                lemma_find_window(input@, start as int, lf + 1, sp1 + 1, 32u8, Some(i as int));
            }
            i
        },
    };
    match find_byte(input, 32u8, sp2 + 1, lf + 1) {
        Some(i) => {
            proof {
                lemma_find_window(input@, start as int, lf + 1, sp2 + 1, 32u8, Some(i as int));
            }
            return StartOutcome::NoRequest;
        },
        None => {
            proof {
                lemma_find_window(input@, start as int, lf + 1, sp2 + 1, 32u8, None);
            }
        },
    };
    let tok = copy_range(input, start, sp1);
    proof {
        assert(tok@ =~= line.subrange(0, sp1 - start));
    }
    let get_tok = vstd::string::StrSliceExecFns::as_bytes_vec("GET");
    let post_tok = vstd::string::StrSliceExecFns::as_bytes_vec("POST");
    let method = if bytes_eq(&tok, &get_tok) {
        Method::Get
    } else if bytes_eq(&tok, &post_tok) {
        Method::Post
    } else {
        Method::Unknown
    };
    proof {
        assert(method == spec_method(line.subrange(0, sp1 - start)));
    }
    let path = trim_back_range(input, sp1 + 1, sp2);
    let version = trim_back_range(input, sp2 + 1, lf + 1);
    proof {
        assert(input@.subrange(sp1 + 1, sp2 as int) =~= line.subrange(sp1 + 1 - start, sp2
            - start));
        assert(input@.subrange(sp2 + 1, lf + 1) =~= line.subrange(sp2 + 1 - start, line.len()
            as int));
    }
    StartOutcome::Line { method, path, version, next: lf + 1 }
}

/// Outcome of reading the header section from the buffer.
enum HeaderOutcome {
    Incomplete,
    Bad,
    /// The headers in order, and the buffer position just after the empty
    /// line.
    Done { headers: Vec<(Vec<u8>, Vec<u8>)>, end: usize },
}

/// Add `off` to the byte count of a finished header section.
pub open spec fn shift_headers(r: SpecHeaderParse, off: int) -> SpecHeaderParse {
    match r {
        SpecHeaderParse::Done { headers, used } => SpecHeaderParse::Done {
            headers,
            used: used + off,
        },
        other => other,
    }
}

/// Read header lines from `input[hstart..]` until the empty `CRLF` line.
fn parse_header_section(input: &Vec<u8>, hstart: usize) -> (r: HeaderOutcome)
    requires
        hstart <= input@.len(),
    ensures
        ({
            let hp = spec_parse_headers(
                input@.subrange(hstart as int, input@.len() as int),
                Seq::empty(),
            );
            match r {
                HeaderOutcome::Incomplete => hp is Incomplete,
                HeaderOutcome::Bad => hp is Bad,
                HeaderOutcome::Done { headers, end } => hstart < end <= input@.len()
                    && hp == SpecHeaderParse::Done {
                    headers: headers_view(headers@),
                    used: end - hstart,
                },
            }
        }),
{
    let n = input.len();
    let ghost hdr0 = input@.subrange(hstart as int, n as int);
    let mut headers: Vec<(Vec<u8>, Vec<u8>)> = Vec::new();
    let mut pos: usize = hstart;
    proof {
        assert(headers_view(headers@) =~= Seq::<(Seq<u8>, Seq<u8>)>::empty());
    }
    loop
        invariant
            hstart <= pos <= n == input@.len(),
            hdr0 == input@.subrange(hstart as int, n as int),
            spec_parse_headers(hdr0, Seq::empty()) == shift_headers(
                spec_parse_headers(
                    input@.subrange(pos as int, n as int),
                    headers_view(headers@),
                ),
                pos - hstart,
            ),
        decreases n - pos,
    {
        let ghost rem = input@.subrange(pos as int, n as int);
        let ghost acc = headers_view(headers@);
        let hlf = match find_byte(input, 10u8, pos, n) {
            None => {
                proof {
                    lemma_find_window(input@, pos as int, n as int, pos as int, 10u8, None);
                }
                return HeaderOutcome::Incomplete;
            },
            Some(i) => {
                proof {
                    lemma_find_window(
                        input@,
                        pos as int,
                        n as int,
                        pos as int,
                        10u8,
                        Some(i as int),
                    );
                }
                i
            },
        };
        let ghost hline = rem.subrange(0, hlf - pos + 1);
        proof {
            assert(hline =~= input@.subrange(pos as int, hlf + 1));
        }
        if hlf == pos + 1 && input[pos] == 13u8 {
            proof {
                assert(hline =~= seq![13u8, 10u8]);
                assert(spec_parse_headers(rem, acc) == (SpecHeaderParse::Done {
                    headers: acc,
                    used: hlf + 1 - pos,
                }));
            }
            return HeaderOutcome::Done { headers, end: hlf + 1 };
        }
        proof {
            assert(!(hline =~= seq![13u8, 10u8]));
        }
        let colon = match find_byte(input, 58u8, pos, hlf + 1) {
            None => {
                proof {
                    lemma_find_window(input@, pos as int, hlf + 1, pos as int, 58u8, None);
                }
                return HeaderOutcome::Bad;
            },
            Some(i) => {
                proof {
                    lemma_find_window(
                        input@,
                        pos as int,
                        hlf + 1,
                        pos as int,
                        58u8,
                        Some(i as int),
                    );
                }
                i
            },
        };
        let key = copy_range(input, pos, colon);
        let value = trim_range(input, colon + 1, hlf + 1);
        proof {
            assert(key@ =~= hline.subrange(0, colon - pos));
            assert(input@.subrange(colon + 1, hlf + 1) =~= hline.subrange(
                colon + 1 - pos,
                hline.len() as int,
            ));
        }
        headers.push((key, value));
        proof {
            assert(headers_view(headers@) =~= acc.push((key@, value@)));
            assert(rem.subrange(hlf + 1 - pos, rem.len() as int) =~= input@.subrange(
                hlf + 1,
                n as int,
            ));
        }
        pos = hlf + 1;
    }
}

/// Parse one request from `input[start..]`.
pub fn parse_request(input: &Vec<u8>, start: usize) -> (r: ParseOutcome)
    requires
        start <= input@.len(),
    ensures
        ({
            let sp = spec_parse_request(input@.skip(start as int));
            match r {
                ParseOutcome::Incomplete => sp is Incomplete,
                ParseOutcome::NoRequest => sp is NoRequest,
                ParseOutcome::Bad => sp is Bad,
                ParseOutcome::Parsed { req, used } => sp matches SpecParse::Parsed {
                    req: sreq,
                    used: sused,
                } && req@ == sreq && used == sused,
            }
        }),
{
    let n = input.len();
    let ghost s = input@.subrange(start as int, n as int);
    proof {
        assert(s =~= input@.skip(start as int));
    }
    let (method, path, version, next) = match parse_start_line(input, start) {
        StartOutcome::Incomplete => {
            return ParseOutcome::Incomplete;
        },
        StartOutcome::NoRequest => {
            return ParseOutcome::NoRequest;
        },
        StartOutcome::Line { method, path, version, next } => (method, path, version, next),
    };
    let ghost lfr = next - 1 - start;
    proof {
        assert(s.subrange(lfr + 1, s.len() as int) =~= input@.subrange(next as int, n as int));
    }
    let (headers, hdr_end) = match parse_header_section(input, next) {
        HeaderOutcome::Incomplete => {
            return ParseOutcome::Incomplete;
        },
        HeaderOutcome::Bad => {
            return ParseOutcome::Bad;
        },
        HeaderOutcome::Done { headers, end } => (headers, end),
    };
    let ghost after = hdr_end - start;
    let mut body: Option<Vec<u8>> = None;
    let mut used: usize = hdr_end - start;
    if let Method::Post = method {
        let cl_name = content_length_name();
        match header_get(&headers, &cl_name) {
            None => {},
            Some(v) => {
                match parse_i32(&v) {
                    None => {
                        return ParseOutcome::Bad;
                    },
                    Some(cl) => {
                        if cl > 0 {
                            let nn = cl as usize;
                            if nn <= n - hdr_end {
                                let b = copy_range(input, hdr_end, hdr_end + nn);
                                proof {
                                    assert(b@ =~= s.subrange(after, after + cl));
                                }
                                body = Some(b);
                                used = hdr_end - start + nn;
                            } else {
                                return ParseOutcome::Incomplete;
                            }
                        }
                    },
                }
            },
        }
    }
    let req = Request { method, path, version, headers, body };
    ParseOutcome::Parsed { req, used }
}

} // verus!
