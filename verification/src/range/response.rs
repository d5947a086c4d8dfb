//! The responses to a range request.
use vstd::prelude::*;
use vstd::utf8::*;

use crate::header;
use crate::header::{Header, HeaderView};
use crate::number;
use crate::range::types::RangeResponse;
use crate::text;

verus! {

/// A response as status, header fields and body.
#[verifier::ext_equal]
pub struct ResponseView {
    pub status: u16,
    pub headers: Seq<HeaderView>,
    pub body: Seq<u8>,
}

impl View for RangeResponse {
    type V = ResponseView;

    open spec fn view(&self) -> ResponseView {
        ResponseView {
            status: self.status,
            headers: header::header_views(self.headers@),
            body: self.body@,
        }
    }
}

/// A header field with a fixed name.
pub open spec fn field(name: Seq<char>, value: Seq<u8>) -> HeaderView {
    (encode_utf8(name), value)
}

/// `bytes <first>-<last>/<total>`.
pub open spec fn content_range(first: u64, last: u64, total_len: u64) -> Seq<u8> {
    encode_utf8("bytes "@) + number::decimal(first as nat) + encode_utf8("-"@) + number::decimal(
        last as nat,
    ) + encode_utf8("/"@) + number::decimal(total_len as nat)
}

/// `bytes */<total>`.
pub open spec fn unsatisfied_range(total_len: u64) -> Seq<u8> {
    encode_utf8("bytes */"@) + number::decimal(total_len as nat)
}

/// The answer when no range can be satisfied.
pub open spec fn unsatisfiable_response(total_len: u64) -> ResponseView {
    ResponseView {
        status: 416,
        headers: seq![
            field(":status"@, encode_utf8("416"@)),
            field("server"@, encode_utf8("quiche"@)),
            field("content-range"@, unsatisfied_range(total_len)),
            field("content-length"@, encode_utf8("0"@)),
        ],
        body: Seq::empty(),
    }
}

/// The answer that carries one range, read as `body`.
pub open spec fn single_response(
    range: (u64, u64),
    total_len: u64,
    content_type: Option<Seq<u8>>,
    body: Seq<u8>,
) -> ResponseView {
    let fields = seq![
        field(":status"@, encode_utf8("206"@)),
        field("server"@, encode_utf8("quiche"@)),
        field("content-range"@, content_range(range.0, range.1, total_len)),
        field("content-length"@, number::decimal(body.len())),
    ];
    ResponseView {
        status: 206,
        headers: match content_type {
            Some(t) => fields.push(field("content-type"@, t)),
            None => fields,
        },
        body,
    }
}

/// The type that the parts of a multipart body are given.
pub open spec fn part_type(content_type: Option<Seq<u8>>) -> Seq<u8> {
    match content_type {
        Some(t) => t,
        None => encode_utf8("application/octet-stream"@),
    }
}

/// The line that starts a part.
pub open spec fn opening_line(boundary: Seq<char>) -> Seq<u8> {
    encode_utf8("--"@) + encode_utf8(boundary) + encode_utf8("\r\n"@)
}

/// The `Content-Type` line of a part.
pub open spec fn type_line(content_type: Option<Seq<u8>>) -> Seq<u8> {
    encode_utf8("Content-Type: "@) + part_type(content_type) + encode_utf8("\r\n"@)
}

/// The `Content-Range` line of a part, with the empty line that ends its header.
pub open spec fn range_line(range: (u64, u64), total_len: u64) -> Seq<u8> {
    encode_utf8("Content-Range: "@) + content_range(range.0, range.1, total_len) + encode_utf8(
        "\r\n\r\n"@,
    )
}

/// One part of a multipart body: boundary, header fields, payload.
pub open spec fn part(
    boundary: Seq<char>,
    content_type: Option<Seq<u8>>,
    range: (u64, u64),
    total_len: u64,
    payload: Seq<u8>,
) -> Seq<u8> {
    opening_line(boundary) + type_line(content_type) + range_line(range, total_len) + payload
        + encode_utf8("\r\n"@)
}

/// The parts for the given payloads, one after the other.
pub open spec fn parts(
    boundary: Seq<char>,
    content_type: Option<Seq<u8>>,
    ranges: Seq<(u64, u64)>,
    total_len: u64,
    payloads: Seq<Seq<u8>>,
) -> Seq<u8>
    decreases payloads.len(),
{
    if payloads.len() == 0 {
        Seq::empty()
    } else {
        parts(boundary, content_type, ranges, total_len, payloads.drop_last()) + part(
            boundary,
            content_type,
            ranges[payloads.len() - 1],
            total_len,
            payloads.last(),
        )
    }
}

/// The line that ends a multipart body.
pub open spec fn closing_line(boundary: Seq<char>) -> Seq<u8> {
    encode_utf8("--"@) + encode_utf8(boundary) + encode_utf8("--\r\n"@)
}

/// The answer that carries several ranges, given the bytes of its parts.
pub open spec fn multipart_answer(boundary: Seq<char>, part_bytes: Seq<u8>) -> ResponseView {
    let body = part_bytes + closing_line(boundary);
    ResponseView {
        status: 206,
        headers: seq![
            field(":status"@, encode_utf8("206"@)),
            field("server"@, encode_utf8("quiche"@)),
            field(
                "content-type"@,
                encode_utf8("multipart/byteranges; boundary="@) + encode_utf8(boundary),
            ),
            field("content-length"@, number::decimal(body.len())),
        ],
        body,
    }
}

/// The answer that carries several ranges.
pub open spec fn multipart_response(
    boundary: Seq<char>,
    content_type: Option<Seq<u8>>,
    ranges: Seq<(u64, u64)>,
    total_len: u64,
    payloads: Seq<Seq<u8>>,
) -> ResponseView {
    multipart_answer(boundary, parts(boundary, content_type, ranges, total_len, payloads))
}

fn add_field(headers: &mut Vec<Header>, name: &str, value: &[u8])
    ensures
        header::header_views(final(headers)@) == header::header_views(old(headers)@).push(
            field(name@, value@),
        ),
{
    headers.push(Header::new(name.as_bytes(), value));
    assert(header::header_views(headers@) =~= header::header_views(old(headers)@).push(
        field(name@, value@),
    ));
}

fn write_content_range(out: &mut Vec<u8>, range: (u64, u64), total_len: u64)
    ensures
        final(out)@ == old(out)@ + content_range(range.0, range.1, total_len),
{
    text::push_text(out, "bytes ");
    text::push_bytes(out, number::write_decimal(range.0).as_slice());
    text::push_text(out, "-");
    text::push_bytes(out, number::write_decimal(range.1).as_slice());
    text::push_text(out, "/");
    text::push_bytes(out, number::write_decimal(total_len).as_slice());
    assert(out@ =~= old(out)@ + content_range(range.0, range.1, total_len));
}

/// Builds the 416 answer.
pub fn build_unsatisfiable(total_len: u64) -> (r: RangeResponse)
    ensures
        r@ == unsatisfiable_response(total_len),
{
    let mut range: Vec<u8> = Vec::new();
    text::push_text(&mut range, "bytes */");
    text::push_bytes(&mut range, number::write_decimal(total_len).as_slice());
    assert(range@ =~= unsatisfied_range(total_len));
    let mut headers: Vec<Header> = Vec::new();
    add_field(&mut headers, ":status", "416".as_bytes());
    add_field(&mut headers, "server", "quiche".as_bytes());
    add_field(&mut headers, "content-range", range.as_slice());
    add_field(&mut headers, "content-length", "0".as_bytes());
    let r = RangeResponse { status: 416, headers, body: Vec::new() };
    assert(r@ =~= unsatisfiable_response(total_len));
    r
}

/// Builds the 206 answer with one range.
pub fn build_single(
    range: (u64, u64),
    total_len: u64,
    content_type: &Option<Vec<u8>>,
    body: Vec<u8>,
) -> (r: RangeResponse)
    ensures
        r@ == single_response(range, total_len, content_type_view(*content_type), body@),
{
    let mut content_range: Vec<u8> = Vec::new();
    write_content_range(&mut content_range, range, total_len);
    assert(content_range@ =~= self::content_range(range.0, range.1, total_len));
    let mut headers: Vec<Header> = Vec::with_capacity(5);
    assert(header::header_views(headers@) =~= Seq::empty());
    add_field(&mut headers, ":status", "206".as_bytes());
    add_field(&mut headers, "server", "quiche".as_bytes());
    add_field(&mut headers, "content-range", content_range.as_slice());
    add_field(
        &mut headers,
        "content-length",
        number::write_decimal(body.len() as u64).as_slice(),
    );
    match content_type {
        Some(t) => {
            add_field(&mut headers, "content-type", t.as_slice());
        },
        None => {},
    }
    let r = RangeResponse { status: 206, headers, body };
    assert(r@ =~= single_response(range, total_len, content_type_view(*content_type), body@));
    r
}

/// The bytes of an optional content type.
pub open spec fn content_type_view(content_type: Option<Vec<u8>>) -> Option<Seq<u8>> {
    match content_type {
        Some(t) => Some(t@),
        None => None,
    }
}

fn write_opening_line(out: &mut Vec<u8>, boundary: &str)
    ensures
        final(out)@ == old(out)@ + opening_line(boundary@),
{
    text::push_text(out, "--");
    text::push_text(out, boundary);
    text::push_text(out, "\r\n");
    assert(out@ =~= old(out)@ + opening_line(boundary@));
}

fn write_type_line(out: &mut Vec<u8>, content_type: &Option<Vec<u8>>)
    ensures
        final(out)@ == old(out)@ + type_line(content_type_view(*content_type)),
{
    text::push_text(out, "Content-Type: ");
    match content_type {
        Some(t) => {
            text::push_bytes(out, t.as_slice());
        },
        None => {
            text::push_text(out, "application/octet-stream");
        },
    }
    text::push_text(out, "\r\n");
    assert(out@ =~= old(out)@ + type_line(content_type_view(*content_type)));
}

fn write_range_line(out: &mut Vec<u8>, range: (u64, u64), total_len: u64)
    ensures
        final(out)@ == old(out)@ + range_line(range, total_len),
{
    text::push_text(out, "Content-Range: ");
    write_content_range(out, range, total_len);
    text::push_text(out, "\r\n\r\n");
    assert(out@ =~= old(out)@ + range_line(range, total_len));
}

/// Appends one part to a multipart body.
pub fn write_part(
    out: &mut Vec<u8>,
    boundary: &str,
    content_type: &Option<Vec<u8>>,
    range: (u64, u64),
    total_len: u64,
    payload: &[u8],
)
    ensures
        final(out)@ == old(out)@ + part(
            boundary@,
            content_type_view(*content_type),
            range,
            total_len,
            payload@,
        ),
{
    write_opening_line(out, boundary);
    write_type_line(out, content_type);
    write_range_line(out, range, total_len);
    text::push_bytes(out, payload);
    text::push_text(out, "\r\n");
    assert(out@ =~= old(out)@ + part(
        boundary@,
        content_type_view(*content_type),
        range,
        total_len,
        payload@,
    ));
}

/// Closes a multipart body and builds the 206 answer around it.
pub fn build_multipart(boundary: &str, part_bytes: Vec<u8>) -> (r: RangeResponse)
    ensures
        r@ == multipart_answer(boundary@, part_bytes@),
{
    let mut body = part_bytes;
    text::push_text(&mut body, "--");
    text::push_text(&mut body, boundary);
    text::push_text(&mut body, "--\r\n");
    assert(body@ =~= part_bytes@ + closing_line(boundary@));
    let mut content_type: Vec<u8> = Vec::new();
    text::push_text(&mut content_type, "multipart/byteranges; boundary=");
    text::push_text(&mut content_type, boundary);
    assert(content_type@ =~= encode_utf8("multipart/byteranges; boundary="@) + encode_utf8(
        boundary@,
    ));
    let mut headers: Vec<Header> = Vec::new();
    assert(header::header_views(headers@) =~= Seq::empty());
    add_field(&mut headers, ":status", "206".as_bytes());
    add_field(&mut headers, "server", "quiche".as_bytes());
    add_field(&mut headers, "content-type", content_type.as_slice());
    add_field(
        &mut headers,
        "content-length",
        number::write_decimal(body.len() as u64).as_slice(),
    );
    let r = RangeResponse { status: 206, headers, body };
    assert(r@ =~= multipart_answer(boundary@, part_bytes@));
    r
}

} // verus!
