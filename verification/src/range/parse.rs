//! The `Range` header: `bytes=` and a comma-separated list of ranges.
use vstd::prelude::*;
use vstd::utf8::*;

use crate::header;
use crate::header::Header;
use crate::number;
use crate::range::types::{ParsedRangeHeader, RangeError, RangeSpec, RangeUnit};
use crate::text;

verus! {

/// Whether a text names the byte unit, up to ASCII case and surrounding white space.
pub open spec fn is_bytes_unit(s: Seq<char>) -> bool {
    text::same_text_ignoring_case(text::trim(s), "bytes"@)
}

/// The range written by one element of a range set: `first-last`, `first-` or `-length`, with
/// white space allowed around each number.
pub open spec fn spec_of_part(part: Seq<char>) -> Option<RangeSpec> {
    match text::split_once(text::trim(part), '-') {
        None => None,
        Some((left, right)) => {
            let first = text::trim(left);
            let last = text::trim(right);
            if first.len() == 0 {
                match number::parse_u64(last) {
                    Some(n) => Some(RangeSpec { start: None, end: Some(n) }),
                    None => None,
                }
            } else if last.len() == 0 {
                match number::parse_u64(first) {
                    Some(n) => Some(RangeSpec { start: Some(n), end: None }),
                    None => None,
                }
            } else {
                match (number::parse_u64(first), number::parse_u64(last)) {
                    (Some(a), Some(b)) => if a <= b {
                        Some(RangeSpec { start: Some(a), end: Some(b) })
                    } else {
                        None
                    },
                    _ => None,
                }
            }
        },
    }
}

/// The ranges written by a range set, if every element is well-formed.
pub open spec fn specs_of_set(set: Seq<char>) -> Option<Seq<RangeSpec>> {
    let parts = text::split(set, ',');
    if forall|i: int| 0 <= i < parts.len() ==> spec_of_part(#[trigger] parts[i]) is Some {
        Some(parts.map_values(|p: Seq<char>| spec_of_part(p)->0))
    } else {
        None
    }
}

/// What the text of a `Range` header stands for.
pub open spec fn specs_of_text(t: Seq<char>) -> Result<Seq<RangeSpec>, RangeError> {
    match text::split_once(t, '=') {
        None => Err(RangeError::Parse),
        Some((unit, set)) => if !is_bytes_unit(unit) {
            Err(RangeError::UnsupportedUnit)
        } else {
            match specs_of_set(set) {
                Some(specs) => Ok(specs),
                None => Err(RangeError::Parse),
            }
        },
    }
}

/// What the bytes of a `Range` header stand for.
pub open spec fn specs_of_value(v: Seq<u8>) -> Result<Seq<RangeSpec>, RangeError> {
    if valid_utf8(v) {
        specs_of_text(decode_utf8(v))
    } else {
        Err(RangeError::Parse)
    }
}

/// The value of the `Range` header of a request.
pub open spec fn range_value(headers: Seq<Header>) -> Option<Seq<u8>> {
    header::lookup(header::header_views(headers), encode_utf8("range"@))
}

fn unit_is_bytes(s: &[char]) -> (r: bool)
    ensures
        r == is_bytes_unit(s@),
{
    let bytes = text::chars_of("bytes");
    text::text_eq_ignoring_case(text::trimmed(s), bytes.as_slice())
}

/// Accepts the unit `bytes`.
pub fn parse_bytes_unit(s: &str) -> (r: Result<(), RangeError>)
    ensures
        r is Ok <==> is_bytes_unit(s@),
        r matches Err(e) ==> e == RangeError::UnsupportedUnit,
{
    let chars = text::chars_of(s);
    if unit_is_bytes(chars.as_slice()) {
        Ok(())
    } else {
        Err(RangeError::UnsupportedUnit)
    }
}

fn parse_part(part: &[char]) -> (r: Option<RangeSpec>)
    ensures
        r == spec_of_part(part@),
{
    let (left, right) = match text::cut(text::trimmed(part), '-') {
        Some(pair) => pair,
        None => {
            return None;
        },
    };
    let first = text::trimmed(left);
    let last = text::trimmed(right);
    if first.is_empty() {
        match number::read_u64(last) {
            Some(n) => Some(RangeSpec { start: None, end: Some(n) }),
            None => None,
        }
    } else if last.is_empty() {
        match number::read_u64(first) {
            Some(n) => Some(RangeSpec { start: Some(n), end: None }),
            None => None,
        }
    } else {
        match (number::read_u64(first), number::read_u64(last)) {
            (Some(a), Some(b)) => {
                if a <= b {
                    Some(RangeSpec { start: Some(a), end: Some(b) })
                } else {
                    None
                }
            },
            _ => None,
        }
    }
}

fn parse_set(set: &[char]) -> (r: Option<Vec<RangeSpec>>)
    ensures
        match specs_of_set(set@) {
            Some(specs) => r matches Some(v) && v@ == specs,
            None => r is None,
        },
{
    let ghost parts = text::split(set@, ',');
    let mut out: Vec<RangeSpec> = Vec::new();
    let mut rest: &[char] = set;
    assert(parts.skip(0) =~= parts);
    loop
        invariant
            parts == text::split(set@, ','),
            out@.len() < parts.len(),
            parts.skip(out@.len() as int) == text::split(rest@, ','),
            forall|i: int|
                0 <= i < out@.len() ==> spec_of_part(#[trigger] parts[i]) == Some(out@[i]),
        decreases rest@.len(),
    {
        let ghost k = out@.len() as int;
        match text::cut(rest, ',') {
            Some((head, tail)) => {
                assert(parts.skip(k)[0] == head@);
                assert(parts[k] == head@);
                match parse_part(head) {
                    Some(spec) => {
                        out.push(spec);
                    },
                    None => {
                        return None;
                    },
                }
                assert(parts.skip(k + 1) =~= text::split(tail@, ',')) by {
                    assert(parts.skip(k) == seq![head@] + text::split(tail@, ','));
                    assert(parts.skip(k).skip(1) =~= parts.skip(k + 1));
                    assert(parts.skip(k).skip(1) =~= text::split(tail@, ','));
                }
                assert(text::split(tail@, ',').len() > 0);
                rest = tail;
            },
            None => {
                assert(parts.skip(k)[0] == rest@);
                assert(parts[k] == rest@);
                assert(parts.skip(k).len() == parts.len() - k);
                assert(parts.len() == k + 1);
                match parse_part(rest) {
                    Some(spec) => {
                        out.push(spec);
                    },
                    None => {
                        return None;
                    },
                }
                assert(out@ =~= parts.map_values(|p: Seq<char>| spec_of_part(p)->0));
                return Some(out);
            },
        }
    }
}

/// Reads a range set such as `0-499,500-,-500`.
pub fn parse_range_specs(s: &str) -> (r: Result<Vec<RangeSpec>, RangeError>)
    ensures
        match specs_of_set(s@) {
            Some(specs) => r matches Ok(v) && v@ == specs,
            None => r matches Err(e) && e == RangeError::Parse,
        },
{
    let chars = text::chars_of(s);
    match parse_set(chars.as_slice()) {
        Some(specs) => Ok(specs),
        None => Err(RangeError::Parse),
    }
}

/// Reads the text of a `Range` header.
pub fn parse_range_text(t: &str) -> (r: Result<Vec<RangeSpec>, RangeError>)
    ensures
        match specs_of_text(t@) {
            Ok(specs) => r matches Ok(v) && v@ == specs,
            Err(e) => r matches Err(f) && f == e,
        },
{
    let chars = text::chars_of(t);
    match text::cut(chars.as_slice(), '=') {
        None => Err(RangeError::Parse),
        Some((unit, set)) => {
            if !unit_is_bytes(unit) {
                return Err(RangeError::UnsupportedUnit);
            }
            match parse_set(set) {
                Some(specs) => Ok(specs),
                None => Err(RangeError::Parse),
            }
        },
    }
}

/// Reads the `Range` header of a request, without holding it against a representation.
pub fn parse_range_header_only(request_headers: &[Header]) -> (r: Result<
    Option<ParsedRangeHeader>,
    RangeError,
>)
    ensures
        match range_value(request_headers@) {
            None => r matches Ok(p) && p is None,
            Some(v) => match specs_of_value(v) {
                Ok(specs) => r matches Ok(Some(p)) && p.unit == RangeUnit::Bytes && p.specs@
                    == specs,
                Err(e) => r matches Err(f) && f == e,
            },
        },
{
    match header::header_value(request_headers, "range".as_bytes()) {
        None => Ok(None),
        Some(value) => match text::utf8_text(value) {
            None => Err(RangeError::Parse),
            Some(t) => match parse_range_text(t) {
                Ok(specs) => Ok(Some(ParsedRangeHeader { unit: RangeUnit::Bytes, specs })),
                Err(e) => Err(e),
            },
        },
    }
}

} // verus!
