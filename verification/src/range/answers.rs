//! What the answers to a range request say, field by field and byte by byte.
use vstd::prelude::*;
use vstd::utf8::*;

use crate::number;
use crate::range::boundary;
use crate::range::handle;
use crate::range::response;
use crate::range::types::RangeResponse;

verus! {

/// A response is seen as it is: its status, its body, and the names and values of its fields.
pub proof fn law_responses_are_seen_as_they_are(r: RangeResponse)
    ensures
        r@.status == r.status,
        r@.body == r.body@,
        r@.headers.len() == r.headers@.len(),
        forall|i: int|
            0 <= i < r.headers@.len() ==> #[trigger] r@.headers[i] == (
                r.headers@[i].name@,
                r.headers@[i].value@,
            ),
{
}

/// A content type is seen as its bytes.
pub proof fn law_content_types_are_seen_as_they_are(t: Vec<u8>)
    ensures
        response::content_type_view(Some(t)) == Some(t@),
        response::content_type_view(None) is None,
{
}

/// `Content-Range` is `bytes `, the first byte, a dash, the last byte, a slash and the length of
/// the representation. Each of the three numbers reads back as what it stands for.
pub proof fn law_content_range_reads_back(first: u64, last: u64, total_len: u64)
    ensures
        exists|a: Seq<u8>, b: Seq<u8>, c: Seq<u8>|
            {
                &&& response::content_range(first, last, total_len) == encode_utf8("bytes "@) + a
                    + seq![45u8] + b + seq![47u8] + c
                &&& #[trigger] reads_as(a, first)
                &&& #[trigger] reads_as(b, last)
                &&& #[trigger] reads_as(c, total_len)
            },
        forall|digits: Seq<u8>, n: u64| #[trigger]
            reads_as(digits, n) <==> {
                &&& forall|i: int| 0 <= i < digits.len() ==> 48 <= #[trigger] digits[i] <= 57
                &&& valid_utf8(digits)
                &&& number::parse_u64(decode_utf8(digits)) == Some(n)
            },
{
    let a = number::decimal(first as nat);
    let b = number::decimal(last as nat);
    let c = number::decimal(total_len as nat);
    lemma_reads_as(first);
    lemma_reads_as(last);
    lemma_reads_as(total_len);
    reveal_strlit("-");
    reveal_strlit("/");
    is_ascii_chars_encode_utf8("-"@);
    is_ascii_chars_encode_utf8("/"@);
    assert(encode_utf8("-"@) =~= seq![45u8]);
    assert(encode_utf8("/"@) =~= seq![47u8]);
    assert(reads_as(a, first) && reads_as(b, last) && reads_as(c, total_len));
}

/// Whether bytes are decimal digits that stand for a number.
pub open spec fn reads_as(digits: Seq<u8>, n: u64) -> bool {
    &&& forall|i: int| 0 <= i < digits.len() ==> 48 <= #[trigger] digits[i] <= 57
    &&& valid_utf8(digits)
    &&& number::parse_u64(decode_utf8(digits)) == Some(n)
}

proof fn lemma_reads_as(n: u64)
    ensures
        reads_as(number::decimal(n as nat), n),
{
    number::law_decimal_reads_back(n);
    number::law_decimal_is_canonical(n as nat);
}

proof fn lemma_cut_at(a: Seq<u8>, b: Seq<u8>, mark: u8, x: Seq<u8>, y: Seq<u8>)
    requires
        a + seq![mark] + x == b + seq![mark] + y,
        !a.contains(mark),
        !b.contains(mark),
    ensures
        a == b,
        x == y,
{
    let s = a + seq![mark] + x;
    let t = b + seq![mark] + y;
    assert(s[a.len() as int] == mark);
    assert(t[b.len() as int] == mark);
    if a.len() < b.len() {
        assert(t[a.len() as int] == b[a.len() as int]);
        assert(b.contains(b[a.len() as int]));
    } else if b.len() < a.len() {
        assert(s[b.len() as int] == a[b.len() as int]);
        assert(a.contains(a[b.len() as int]));
    }
    assert forall|i: int| 0 <= i < a.len() implies a[i] == b[i] by {
        assert(s[i] == a[i] && t[i] == b[i]);
    }
    assert(a =~= b);
    let n = a.len() as int + 1;
    assert(s.skip(n) =~= x);
    assert(t.skip(n) =~= y);
}

proof fn lemma_digits_hold_no(n: nat, mark: u8)
    requires
        mark < 48,
    ensures
        !number::decimal(n).contains(mark),
{
    number::law_decimal_is_canonical(n);
}

/// Different ranges and lengths have different `Content-Range` values.
pub proof fn law_content_range_is_unambiguous(
    first: u64,
    last: u64,
    total_len: u64,
    other_first: u64,
    other_last: u64,
    other_len: u64,
)
    requires
        response::content_range(first, last, total_len) == response::content_range(
            other_first,
            other_last,
            other_len,
        ),
    ensures
        first == other_first,
        last == other_last,
        total_len == other_len,
{
    let p = encode_utf8("bytes "@);
    let a = number::decimal(first as nat);
    let b = number::decimal(last as nat);
    let c = number::decimal(total_len as nat);
    let x = number::decimal(other_first as nat);
    let y = number::decimal(other_last as nat);
    let z = number::decimal(other_len as nat);
    reveal_strlit("-");
    reveal_strlit("/");
    is_ascii_chars_encode_utf8("-"@);
    is_ascii_chars_encode_utf8("/"@);
    assert(encode_utf8("-"@) =~= seq![45u8]);
    assert(encode_utf8("/"@) =~= seq![47u8]);
    let s = response::content_range(first, last, total_len);
    let t = response::content_range(other_first, other_last, other_len);
    assert(s.skip(p.len() as int) =~= a + seq![45u8] + (b + seq![47u8] + c));
    assert(t.skip(p.len() as int) =~= x + seq![45u8] + (y + seq![47u8] + z));
    lemma_digits_hold_no(first as nat, 45);
    lemma_digits_hold_no(other_first as nat, 45);
    lemma_cut_at(a, x, 45, b + seq![47u8] + c, y + seq![47u8] + z);
    lemma_digits_hold_no(last as nat, 47);
    lemma_digits_hold_no(other_last as nat, 47);
    lemma_cut_at(b, y, 47, c, z);
    number::law_decimal_is_unambiguous(first as nat, other_first as nat);
    number::law_decimal_is_unambiguous(last as nat, other_last as nat);
    number::law_decimal_is_unambiguous(total_len as nat, other_len as nat);
}

/// The refusal has status 416, four fields and no body; its `content-range` is `bytes */` and the
/// length of the representation, which reads back.
pub proof fn law_refusal(total_len: u64)
    ensures
        ({
            let r = response::unsatisfiable_response(total_len);
            &&& r.status == 416
            &&& r.body.len() == 0
            &&& r.headers.len() == 4
            &&& r.headers[0] == (encode_utf8(":status"@), encode_utf8("416"@))
            &&& r.headers[1] == (encode_utf8("server"@), encode_utf8("quiche"@))
            &&& r.headers[2].0 == encode_utf8("content-range"@)
            &&& exists|digits: Seq<u8>|
                r.headers[2].1 == encode_utf8("bytes */"@) + digits && #[trigger] reads_as(
                    digits,
                    total_len,
                )
            &&& r.headers[3] == (encode_utf8("content-length"@), encode_utf8("0"@))
        }),
{
    lemma_reads_as(total_len);
    let digits = number::decimal(total_len as nat);
    assert(response::unsatisfied_range(total_len) == encode_utf8("bytes */"@) + digits);
}

/// The answer with one range has status 206 and what was read as its body. Its fields are the
/// status, the server, the range, the length of the body, and the content type if there is one.
pub proof fn law_single_answer(
    range: (u64, u64),
    total_len: u64,
    content_type: Option<Seq<u8>>,
    body: Seq<u8>,
)
    requires
        body.len() <= u64::MAX,
    ensures
        ({
            let r = response::single_response(range, total_len, content_type, body);
            &&& r.status == 206
            &&& r.body == body
            &&& r.headers.len() == if content_type is Some {
                5int
            } else {
                4
            }
            &&& r.headers[0] == (encode_utf8(":status"@), encode_utf8("206"@))
            &&& r.headers[1] == (encode_utf8("server"@), encode_utf8("quiche"@))
            &&& r.headers[2] == (
                encode_utf8("content-range"@),
                response::content_range(range.0, range.1, total_len),
            )
            &&& r.headers[3].0 == encode_utf8("content-length"@)
            &&& reads_as(r.headers[3].1, body.len() as u64)
            &&& content_type matches Some(t) ==> r.headers[4] == (encode_utf8("content-type"@), t)
        }),
{
    lemma_reads_as(body.len() as u64);
}

/// A part is, in this order: two dashes, the boundary and a line end; the `Content-Type` line,
/// with the content type or `application/octet-stream`; the `Content-Range` line and an empty line;
/// what was read, and a line end.
pub proof fn law_part(
    boundary: Seq<char>,
    content_type: Option<Seq<u8>>,
    range: (u64, u64),
    total_len: u64,
    payload: Seq<u8>,
)
    ensures
        response::part(boundary, content_type, range, total_len, payload) == encode_utf8("--"@)
            + encode_utf8(boundary) + encode_utf8("\r\n"@) + encode_utf8("Content-Type: "@) + (
        if content_type is Some {
            content_type->0
        } else {
            encode_utf8("application/octet-stream"@)
        }) + encode_utf8("\r\n"@) + encode_utf8("Content-Range: "@) + response::content_range(
            range.0,
            range.1,
            total_len,
        ) + encode_utf8("\r\n\r\n"@) + payload + encode_utf8("\r\n"@),
{
    assert(response::part(boundary, content_type, range, total_len, payload) =~= encode_utf8("--"@)
        + encode_utf8(boundary) + encode_utf8("\r\n"@) + encode_utf8("Content-Type: "@) + (
    if content_type is Some {
        content_type->0
    } else {
        encode_utf8("application/octet-stream"@)
    }) + encode_utf8("\r\n"@) + encode_utf8("Content-Range: "@) + response::content_range(
        range.0,
        range.1,
        total_len,
    ) + encode_utf8("\r\n\r\n"@) + payload + encode_utf8("\r\n"@));
}

/// Parts follow one another, each with its own range: a further slice adds one part at the end.
pub proof fn law_parts_follow_one_another(
    boundary: Seq<char>,
    content_type: Option<Seq<u8>>,
    ranges: Seq<(u64, u64)>,
    total_len: u64,
    payloads: Seq<Seq<u8>>,
    payload: Seq<u8>,
)
    ensures
        response::parts(boundary, content_type, ranges, total_len, Seq::empty()).len() == 0,
        response::parts(boundary, content_type, ranges, total_len, payloads.push(payload))
            == response::parts(boundary, content_type, ranges, total_len, payloads)
            + response::part(
            boundary,
            content_type,
            ranges[payloads.len() as int],
            total_len,
            payload,
        ),
{
    assert(payloads.push(payload).drop_last() =~= payloads);
}

/// The answer with several ranges has status 206; its body is the parts and the closing line. Its
/// fields are the status, the server, the multipart type with the boundary, and the length of the
/// body.
pub proof fn law_multipart_answer(
    boundary: Seq<char>,
    content_type: Option<Seq<u8>>,
    ranges: Seq<(u64, u64)>,
    total_len: u64,
    payloads: Seq<Seq<u8>>,
)
    requires
        response::multipart_response(
            boundary,
            content_type,
            ranges,
            total_len,
            payloads,
        ).body.len() <= u64::MAX,
    ensures
        ({
            let r = response::multipart_response(
                boundary,
                content_type,
                ranges,
                total_len,
                payloads,
            );
            &&& r.status == 206
            &&& r.body == response::parts(boundary, content_type, ranges, total_len, payloads)
                + encode_utf8("--"@) + encode_utf8(boundary) + encode_utf8("--\r\n"@)
            &&& r.headers.len() == 4
            &&& r.headers[0] == (encode_utf8(":status"@), encode_utf8("206"@))
            &&& r.headers[1] == (encode_utf8("server"@), encode_utf8("quiche"@))
            &&& r.headers[2] == (
                encode_utf8("content-type"@),
                encode_utf8("multipart/byteranges; boundary="@) + encode_utf8(boundary),
            )
            &&& r.headers[3].0 == encode_utf8("content-length"@)
            &&& reads_as(r.headers[3].1, r.body.len() as u64)
        }),
{
    let r = response::multipart_response(boundary, content_type, ranges, total_len, payloads);
    lemma_reads_as(r.body.len() as u64);
    assert(r.body =~= response::parts(boundary, content_type, ranges, total_len, payloads)
        + encode_utf8("--"@) + encode_utf8(boundary) + encode_utf8("--\r\n"@));
}

/// The boundary is the fixed prefix and the time in hexadecimal.
pub proof fn law_boundary_is_the_time(nanos: nat)
    ensures
        boundary::boundary_text(nanos) == "quiche_boundary_"@ + number::hex(nanos),
{
}

/// A job answers with its first slice where it has no boundary, and otherwise with all of them.
pub proof fn law_jobs_answer_with_what_was_read(job: handle::JobView)
    ensures
        job.boundary is None ==> job.response() == response::single_response(
            job.ranges[0],
            job.total_len,
            job.content_type,
            job.slices[0],
        ),
        job.boundary matches Some(b) ==> job.response() == response::multipart_response(
            b,
            job.content_type,
            job.ranges,
            job.total_len,
            job.slices,
        ),
{
}

} // verus!
