//! A minimal HTTP/1.1 server engine, verified with Verus.
//!
//! The crate covers the protocol logic: parsing raw request bytes into a
//! structured request, routing a request to a response (consulting a
//! key-addressed byte store for the file routes), negotiating gzip
//! compression of the response body, serializing the response with its
//! framing header, and the per-connection request/response loop with
//! keep-alive semantics.  Everything operating on the wire works on plain
//! byte sequences; binding those bytes to sockets, files and threads is
//! left to an unverified frontend.

pub mod bytes;
pub mod http;
pub mod store;
pub mod parse;
pub mod encoding;
pub mod router;
pub mod wire;
pub mod conn;
