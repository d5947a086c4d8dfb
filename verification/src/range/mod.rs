//! HTTP range requests (RFC 7233) in the `bytes` unit.
//!
//! * One satisfiable range gives 206 with `Content-Range`.
//! * Several give 206 with `multipart/byteranges`.
//! * None that can be satisfied gives 416 with `Content-Range: bytes */<length>`.
//! * A failed `If-Range` validator means that the range is ignored.
pub mod answers;
pub mod boundary;
pub mod evaluate;
pub mod grammar;
pub mod handle;
pub mod laws;
pub mod parse;
pub mod response;
pub mod types;
