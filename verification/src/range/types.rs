//! The values that range handling works on.
use std::path::PathBuf;

use vstd::prelude::*;

use crate::header::Header;

verus! {

/// `std::path::PathBuf`, carried from the context to whoever opens the file.
#[verifier::external_type_specification]
#[verifier::external_body]
pub struct ExPathBuf(std::path::PathBuf);

/// `PathBuf::clone` gives back the same path.
pub assume_specification[ <std::path::PathBuf as Clone>::clone ](p: &std::path::PathBuf) -> (r:
    std::path::PathBuf)
    ensures
        r == *p,
;

/// `std::io::Error`, carried from a failed read to the caller.
#[verifier::external_type_specification]
#[verifier::external_body]
pub struct ExIoError(std::io::Error);

#[derive(Debug, Clone, Copy, PartialEq, Eq, Structural)]
pub enum RangeUnit {
    Bytes,
}

/// One element of a byte-range set.
#[derive(Debug, Clone, Copy, PartialEq, Eq, Structural)]
pub struct RangeSpec {
    /// First byte, inclusive; `None` for a suffix range such as `-500`.
    pub start: Option<u64>,
    /// Last byte, inclusive; `None` for a range that runs to the end such as `500-`. In a suffix
    /// range this is the length of the suffix.
    pub end: Option<u64>,
}

#[derive(Debug, Clone)]
pub struct RangeConfig {
    /// Allow `multipart/byteranges` when several ranges are requested.
    pub enable_multipart: bool,
    /// How many ranges of a request are looked at; the rest is dropped.
    pub max_parts: usize,
}

impl Default for RangeConfig {
    fn default() -> (c: Self)
        ensures
            c.enable_multipart,
            c.max_parts == 16,
    {
        RangeConfig { enable_multipart: true, max_parts: 16 }
    }
}

/// An `If-Range` validator. A request should give one of the two; if it gives both, both must hold.
#[derive(Debug, Clone)]
pub struct IfRange {
    pub etag: Option<String>,
    /// An HTTP-date as text.
    pub last_modified_http_date: Option<String>,
}

/// The representation that ranges are taken from.
#[derive(Debug, Clone)]
pub struct RangeContext {
    /// The file that backs the body.
    pub path: PathBuf,
    /// Size of the full representation in bytes.
    pub total_len: u64,
    /// Entity tag of the full representation, if known.
    pub etag: Option<String>,
    /// Last-Modified as HTTP-date text, if known.
    pub last_modified_http_date: Option<String>,
    /// Content-Type of the full representation.
    pub content_type: Option<Vec<u8>>,
    /// The `If-Range` validator of the request.
    pub if_range: Option<IfRange>,
}

#[derive(Debug)]
#[non_exhaustive]
pub enum RangeError {
    /// The header is there but malformed.
    Parse,
    /// The unit is not `bytes`.
    UnsupportedUnit,
    /// More ranges than allowed.
    TooManyParts,
    /// No range of the set overlaps the representation.
    Unsatisfiable,
    /// A read failed while the body was assembled.
    Io(std::io::Error),
}

impl From<std::io::Error> for RangeError {
    fn from(e: std::io::Error) -> (r: Self) {
        RangeError::Io(e)
    }
}

impl vstd::std_specs::convert::FromSpecImpl<std::io::Error> for RangeError {
    open spec fn obeys_from_spec() -> bool {
        true
    }

    open spec fn from_spec(e: std::io::Error) -> Self {
        RangeError::Io(e)
    }
}

#[derive(Debug)]
pub struct RangeResponse {
    /// 206 or 416.
    pub status: u16,
    /// All header fields of the response.
    pub headers: Vec<Header>,
    /// The whole entity.
    pub body: Vec<u8>,
}

/// A `Range` header as written, before it is held against a representation.
#[derive(Debug, Clone)]
pub struct ParsedRangeHeader {
    pub unit: RangeUnit,
    pub specs: Vec<RangeSpec>,
}

} // verus!
