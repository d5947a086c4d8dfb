//! What holds of range handling as a whole.
use vstd::prelude::*;
use vstd::utf8::*;

use crate::header;
use crate::header::{Header, HeaderView};
use crate::number;
use crate::range::evaluate;
use crate::range::handle;
use crate::range::parse;
use crate::range::response;
use crate::range::response::ResponseView;
use crate::range::types::{RangeConfig, RangeContext, RangeError, RangeSpec};
use crate::text;

verus! {

/// A range set that is well-formed has at least one range.
pub proof fn law_some_range_is_written(set: Seq<char>)
    ensures
        parse::specs_of_set(set) matches Some(specs) ==> specs.len() > 0,
{
    assert(text::split(set, ',').len() > 0);
}

/// A request that handling rejects is rejected with the same error by parsing alone.
pub proof fn law_handling_rejects_only_what_does_not_parse(
    headers: Seq<Header>,
    ctx: RangeContext,
    cfg: RangeConfig,
)
    ensures
        handle::ranges_to_serve(headers, ctx, cfg) matches Err(e) ==> parse::range_value(
            headers,
        ) matches Some(v) && parse::specs_of_value(v) == Err::<Seq<RangeSpec>, RangeError>(e),
{
}

/// A header that does not parse is never served: it is rejected, or a failed validator has made it
/// irrelevant.
pub proof fn law_what_does_not_parse_is_not_served(
    headers: Seq<Header>,
    ctx: RangeContext,
    cfg: RangeConfig,
)
    requires
        parse::range_value(headers) matches Some(v) && parse::specs_of_value(v) is Err,
    ensures
        handle::ranges_to_serve(headers, ctx, cfg) matches Err(e) && parse::specs_of_value(
            parse::range_value(headers)->0,
        ) == Err::<Seq<RangeSpec>, RangeError>(e) || handle::ranges_to_serve(headers, ctx, cfg)
            == Ok::<Option<Seq<(u64, u64)>>, RangeError>(None),
        handle::validator_holds(ctx) ==> handle::ranges_to_serve(headers, ctx, cfg) is Err,
{
}

/// A failed `If-Range` validator means the full representation, whatever ranges are asked for.
pub proof fn law_failed_validator_means_full_representation(
    headers: Seq<Header>,
    ctx: RangeContext,
    cfg: RangeConfig,
)
    requires
        !handle::validator_holds(ctx),
        parse::range_value(headers) matches Some(v) ==> valid_utf8(v),
    ensures
        handle::ranges_to_serve(headers, ctx, cfg) == Ok::<Option<Seq<(u64, u64)>>, RangeError>(
            None,
        ),
{
}

/// A validator that the server cannot compare fails.
pub proof fn law_unknown_validator_fails(ctx: RangeContext)
    requires
        ctx.if_range matches Some(v) && ((v.etag is Some && ctx.etag is None) || (
        v.last_modified_http_date is Some && ctx.last_modified_http_date is None)),
    ensures
        !handle::validator_holds(ctx),
{
}

/// No more ranges are served than the configuration allows, and only one without multipart.
pub proof fn law_served_within_limits(headers: Seq<Header>, ctx: RangeContext, cfg: RangeConfig)
    ensures
        handle::ranges_to_serve(headers, ctx, cfg) matches Ok(Some(ranges)) ==> ranges.len()
            <= cfg.max_parts && (!cfg.enable_multipart ==> ranges.len() <= 1),
{
    if let Ok(Some(ranges)) = handle::ranges_to_serve(headers, ctx, cfg) {
        let v = parse::range_value(headers)->0;
        let specs = handle::first_n(
            parse::specs_of_text(decode_utf8(v))->Ok_0,
            cfg.max_parts,
        );
        evaluate::law_resolved_count(specs, ctx.total_len);
    }
}

/// What is served lies within the representation and is not empty.
pub proof fn law_served_in_bounds(headers: Seq<Header>, ctx: RangeContext, cfg: RangeConfig)
    ensures
        handle::ranges_to_serve(headers, ctx, cfg) matches Ok(Some(ranges)) ==> forall|i: int|
            0 <= i < ranges.len() ==> (#[trigger] ranges[i]).0 <= ranges[i].1 < ctx.total_len,
{
    if let Ok(Some(ranges)) = handle::ranges_to_serve(headers, ctx, cfg) {
        let v = parse::range_value(headers)->0;
        let specs = handle::first_n(
            parse::specs_of_text(decode_utf8(v))->Ok_0,
            cfg.max_parts,
        );
        evaluate::law_resolved_in_bounds(specs, ctx.total_len);
        let all = evaluate::resolve_all(specs, ctx.total_len);
        assert forall|i: int| 0 <= i < ranges.len() implies (#[trigger] ranges[i]).0 <= ranges[i].1
            < ctx.total_len by {
            assert(ranges[i] == all[i]);
        }
    }
}

/// Ranges beyond the limit do not matter.
pub proof fn law_ranges_beyond_limit_are_dropped(
    specs: Seq<RangeSpec>,
    more: Seq<RangeSpec>,
    max_parts: usize,
)
    requires
        specs.len() >= max_parts,
    ensures
        handle::first_n(specs + more, max_parts) == handle::first_n(specs, max_parts),
{
    assert(handle::first_n(specs + more, max_parts) =~= specs.take(max_parts as int));
    assert(handle::first_n(specs, max_parts) =~= specs.take(max_parts as int));
}

/// No range of an empty representation can be satisfied.
pub proof fn law_empty_representation_is_unsatisfiable(specs: Seq<RangeSpec>)
    ensures
        evaluate::resolve_all(specs, 0).len() == 0,
{
    evaluate::law_resolved_in_bounds(specs, 0);
    if evaluate::resolve_all(specs, 0).len() > 0 {
        let r = evaluate::resolve_all(specs, 0)[0];
        assert(r.0 <= r.1 < 0u64);
    }
}

proof fn lemma_names()
    ensures
        !text::same_bytes_ignoring_case(encode_utf8(":status"@), encode_utf8("content-length"@)),
        !text::same_bytes_ignoring_case(encode_utf8("server"@), encode_utf8("content-length"@)),
        !text::same_bytes_ignoring_case(
            encode_utf8("content-range"@),
            encode_utf8("content-length"@),
        ),
        !text::same_bytes_ignoring_case(
            encode_utf8("content-type"@),
            encode_utf8("content-length"@),
        ),
        !text::same_bytes_ignoring_case(encode_utf8(":status"@), encode_utf8("content-range"@)),
        !text::same_bytes_ignoring_case(encode_utf8("server"@), encode_utf8("content-range"@)),
{
    reveal_strlit(":status");
    reveal_strlit("server");
    reveal_strlit("content-range");
    reveal_strlit("content-length");
    reveal_strlit("content-type");
    is_ascii_chars_encode_utf8(":status"@);
    is_ascii_chars_encode_utf8("server"@);
    is_ascii_chars_encode_utf8("content-range"@);
    is_ascii_chars_encode_utf8("content-length"@);
    is_ascii_chars_encode_utf8("content-type"@);
}

/// The declared length of a response.
pub open spec fn declared_length(r: ResponseView) -> Option<Seq<u8>> {
    header::lookup(r.headers, encode_utf8("content-length"@))
}

/// The declared range of a response.
pub open spec fn declared_range(r: ResponseView) -> Option<Seq<u8>> {
    header::lookup(r.headers, encode_utf8("content-range"@))
}

proof fn lemma_lookup_at(headers: Seq<HeaderView>, name: Seq<u8>, k: int)
    requires
        0 <= k < headers.len(),
        text::same_bytes_ignoring_case(headers[k].0, name),
        forall|i: int|
            0 <= i < k ==> !text::same_bytes_ignoring_case((#[trigger] headers[i]).0, name),
    ensures
        header::lookup(headers, name) == Some(headers[k].1),
    decreases k,
{
    if k > 0 {
        assert(!text::same_bytes_ignoring_case(headers[0].0, name));
        let rest = headers.drop_first();
        assert forall|i: int| 0 <= i < k - 1 implies !text::same_bytes_ignoring_case(
            (#[trigger] rest[i]).0,
            name,
        ) by {
            assert(rest[i] == headers[i + 1]);
        }
        lemma_lookup_at(rest, name, k - 1);
    }
}

/// Every response declares the length of its body, in a form that reads back as that number.
pub proof fn law_declared_length_is_body_length(job: handle::JobView, total_len: u64)
    requires
        job.wf(),
        job.slices.len() == job.ranges.len(),
        job.response().body.len() <= u64::MAX,
    ensures
        declared_length(job.response()) == Some(number::decimal(job.response().body.len())),
        number::parse_u64(decode_utf8(declared_length(job.response())->0)) == Some(
            job.response().body.len() as u64,
        ),
        declared_length(response::unsatisfiable_response(total_len)) == Some(number::decimal(0)),
        response::unsatisfiable_response(total_len).body.len() == 0,
{
    lemma_names();
    lemma_lookup_at(job.response().headers, encode_utf8("content-length"@), 3);
    number::law_decimal_reads_back(job.response().body.len() as u64);
    lemma_lookup_at(
        response::unsatisfiable_response(total_len).headers,
        encode_utf8("content-length"@),
        3,
    );
    reveal_strlit("0");
    is_ascii_chars_encode_utf8("0"@);
    assert(encode_utf8("0"@) =~= number::decimal(0));
}

/// The bytes of `content` that a range covers.
pub open spec fn slice_of(content: Seq<u8>, range: (u64, u64)) -> Seq<u8> {
    content.subrange(range.0 as int, range.1 + 1)
}

/// The bytes of `content` that each range of a list covers.
pub open spec fn slices_of(content: Seq<u8>, ranges: Seq<(u64, u64)>) -> Seq<Seq<u8>> {
    ranges.map_values(|r: (u64, u64)| slice_of(content, r))
}

/// An answer with one range carries exactly the bytes that its `Content-Range` names.
pub proof fn law_single_answer_carries_its_range(job: handle::JobView, content: Seq<u8>)
    requires
        job.wf(),
        job.boundary is None,
        content.len() == job.total_len,
        job.slices == slices_of(content, job.ranges),
    ensures
        job.response().status == 206,
        job.response().body == slice_of(content, job.ranges[0]),
        job.response().body.len() == job.ranges[0].1 - job.ranges[0].0 + 1,
        declared_range(job.response()) == Some(
            response::content_range(job.ranges[0].0, job.ranges[0].1, job.total_len),
        ),
{
    lemma_names();
    assert(job.ranges[0].0 <= job.ranges[0].1 < job.total_len);
    assert(job.slices[0] == slice_of(content, job.ranges[0]));
    lemma_lookup_at(job.response().headers, encode_utf8("content-range"@), 2);
}

/// The refusal names the length of the representation.
pub proof fn law_refusal_names_the_length(total_len: u64)
    ensures
        response::unsatisfiable_response(total_len).status == 416,
        declared_range(response::unsatisfiable_response(total_len)) == Some(
            response::unsatisfied_range(total_len),
        ),
{
    lemma_names();
    lemma_lookup_at(
        response::unsatisfiable_response(total_len).headers,
        encode_utf8("content-range"@),
        2,
    );
}

proof fn lemma_part_within(
    boundary: Seq<char>,
    content_type: Option<Seq<u8>>,
    ranges: Seq<(u64, u64)>,
    total_len: u64,
    payloads: Seq<Seq<u8>>,
    i: int,
) -> (cut: (Seq<u8>, Seq<u8>))
    requires
        0 <= i < payloads.len(),
    ensures
        response::parts(boundary, content_type, ranges, total_len, payloads) == cut.0
            + response::part(boundary, content_type, ranges[i], total_len, payloads[i]) + cut.1,
    decreases payloads.len(),
{
    let all = response::parts(boundary, content_type, ranges, total_len, payloads);
    let before = response::parts(boundary, content_type, ranges, total_len, payloads.drop_last());
    let p = response::part(boundary, content_type, ranges[i], total_len, payloads[i]);
    if i == payloads.len() - 1 {
        assert(all =~= before + p + Seq::<u8>::empty());
        (before, Seq::empty())
    } else {
        let (a, b) = lemma_part_within(
            boundary,
            content_type,
            ranges,
            total_len,
            payloads.drop_last(),
            i,
        );
        assert(payloads.drop_last()[i] == payloads[i]);
        let last = response::part(
            boundary,
            content_type,
            ranges[payloads.len() - 1],
            total_len,
            payloads.last(),
        );
        assert(all =~= a + p + (b + last));
        (a, b + last)
    }
}

/// The body of a multipart answer holds, for each range, a part with exactly the bytes that its
/// `Content-Range` names, and ends with the closing line.
pub proof fn law_multipart_answer_carries_every_range(
    job: handle::JobView,
    content: Seq<u8>,
    i: int,
)
    requires
        job.wf(),
        job.boundary is Some,
        content.len() == job.total_len,
        job.slices == slices_of(content, job.ranges),
        0 <= i < job.ranges.len(),
    ensures
        job.response().status == 206,
        exists|before: Seq<u8>, after: Seq<u8>|
            #![trigger before + after]
            job.response().body == before + response::part(
                job.boundary->0,
                job.content_type,
                job.ranges[i],
                job.total_len,
                slice_of(content, job.ranges[i]),
            ) + after + response::closing_line(job.boundary->0),
{
    assert(job.slices[i] == slice_of(content, job.ranges[i]));
    let (before, after) = lemma_part_within(
        job.boundary->0,
        job.content_type,
        job.ranges,
        job.total_len,
        job.slices,
        i,
    );
    let _ = before + after;
}

/// Feeding the slices that are asked for, in order, leads to the answer over the whole content.
pub proof fn law_feeding_in_order(job: handle::JobView, content: Seq<u8>, k: int)
    requires
        job.wf(),
        0 <= k < job.ranges.len(),
        job.slices == slices_of(content, job.ranges.take(k)),
    ensures
        job.slices.push(slice_of(content, job.ranges[k])) == slices_of(
            content,
            job.ranges.take(k + 1),
        ),
{
    assert(job.slices.push(slice_of(content, job.ranges[k])) =~= slices_of(
        content,
        job.ranges.take(k + 1),
    ));
}

/// A number as text, or nothing.
pub open spec fn number_text(n: Option<u64>) -> Seq<char> {
    match n {
        Some(k) => text::ascii_chars(number::decimal(k as nat)),
        None => Seq::empty(),
    }
}

/// A range as it is written in a header.
pub open spec fn spec_text(spec: RangeSpec) -> Seq<char> {
    number_text(spec.start).push('-') + number_text(spec.end)
}

/// A list of ranges as it is written in a header.
pub open spec fn set_text(specs: Seq<RangeSpec>) -> Seq<char>
    decreases specs.len(),
{
    if specs.len() <= 1 {
        spec_text(specs.first())
    } else {
        spec_text(specs.first()).push(',') + set_text(specs.drop_first())
    }
}

/// Whether a range can be written: it has an end or a start, and does not end before it starts.
pub open spec fn writable(spec: RangeSpec) -> bool {
    match (spec.start, spec.end) {
        (Some(first), Some(last)) => first <= last,
        (None, None) => false,
        _ => true,
    }
}

proof fn lemma_number_text(n: u64)
    ensures
        number_text(Some(n)).len() > 0,
        forall|i: int|
            0 <= i < number_text(Some(n)).len() ==> number::is_digit(
                #[trigger] number_text(Some(n))[i],
            ),
        text::trim(number_text(Some(n))) == number_text(Some(n)),
        number::parse_u64(number_text(Some(n))) == Some(n),
{
    number::lemma_decimal_shape(n as nat);
    number::law_decimal_reads_back(n);
    text::law_ascii_text(number::decimal(n as nat));
    let t = number_text(Some(n));
    assert forall|i: int| 0 <= i < t.len() implies number::is_digit(#[trigger] t[i]) by {
        assert(48 <= number::decimal(n as nat)[i] <= 57);
    }
    assert(number::is_digit(t[0]));
    assert(number::is_digit(t[t.len() - 1]));
    text::lemma_trim_nothing(t);
}

proof fn lemma_spec_text(spec: RangeSpec)
    requires
        writable(spec),
    ensures
        parse::spec_of_part(spec_text(spec)) == Some(spec),
        !spec_text(spec).contains(','),
{
    let a = number_text(spec.start);
    let b = number_text(spec.end);
    let t = spec_text(spec);
    if let Some(n) = spec.start {
        lemma_number_text(n);
    }
    if let Some(n) = spec.end {
        lemma_number_text(n);
    }
    assert forall|i: int| 0 <= i < t.len() implies t[i] == '-' || number::is_digit(
        #[trigger] t[i],
    ) by {
        if i < a.len() {
            assert(t[i] == a[i]);
        } else if i > a.len() {
            assert(t[i] == b[i - a.len() - 1]);
        }
    }
    assert(t[0] == '-' || number::is_digit(t[0]));
    assert(t[t.len() - 1] == '-' || number::is_digit(t[t.len() - 1]));
    text::lemma_trim_nothing(t);
    assert forall|i: int| 0 <= i < a.len() implies a[i] != '-' by {
        assert(number::is_digit(a[i]));
    }
    text::lemma_find_first(a, '-', b);
    text::lemma_trim_nothing(Seq::empty());
}

proof fn lemma_set_text(specs: Seq<RangeSpec>)
    requires
        specs.len() > 0,
        forall|i: int| 0 <= i < specs.len() ==> writable(#[trigger] specs[i]),
    ensures
        text::split(set_text(specs), ',') == specs.map_values(|s: RangeSpec| spec_text(s)),
    decreases specs.len(),
{
    let head = spec_text(specs[0]);
    assert(writable(specs[0]));
    lemma_spec_text(specs[0]);
    let pieces = specs.map_values(|s: RangeSpec| spec_text(s));
    if specs.len() == 1 {
        text::lemma_find_none(head, ',');
        assert(text::split(set_text(specs), ',') =~= pieces);
    } else {
        let rest = specs.drop_first();
        assert forall|i: int| 0 <= i < rest.len() implies writable(#[trigger] rest[i]) by {
            assert(rest[i] == specs[i + 1]);
        }
        lemma_set_text(rest);
        text::lemma_find_first(head, ',', set_text(rest));
        assert(text::split(set_text(specs), ',') =~= seq![head] + text::split(
            set_text(rest),
            ',',
        ));
        assert(pieces =~= seq![head] + rest.map_values(|s: RangeSpec| spec_text(s)));
    }
}

/// Ranges that are written into a header are read back as they were.
pub proof fn law_written_ranges_read_back(specs: Seq<RangeSpec>)
    requires
        specs.len() > 0,
        forall|i: int| 0 <= i < specs.len() ==> writable(#[trigger] specs[i]),
    ensures
        parse::specs_of_text("bytes="@ + set_text(specs)) == Ok::<Seq<RangeSpec>, RangeError>(
            specs,
        ),
{
    let set = set_text(specs);
    lemma_set_text(specs);
    let parts = text::split(set, ',');
    assert forall|i: int| 0 <= i < parts.len() implies parse::spec_of_part(#[trigger] parts[i])
        == Some(specs[i]) by {
        assert(writable(specs[i]));
        lemma_spec_text(specs[i]);
    }
    assert(parts.map_values(|p: Seq<char>| parse::spec_of_part(p)->0) =~= specs);
    reveal_strlit("bytes=");
    reveal_strlit("bytes");
    let unit = "bytes"@;
    assert("bytes="@ + set =~= unit.push('=') + set);
    assert(!unit.contains('='));
    text::lemma_find_first(unit, '=', set);
    text::lemma_trim_nothing(unit);
}

/// The validator lets the range apply exactly if the request gives none, or each that it gives is
/// known to the server and has the same characters. The two are held against their own counterpart
/// and do not depend on each other.
pub proof fn law_validators_are_compared_one_by_one(ctx: RangeContext)
    ensures
        handle::validator_holds(ctx) <==> (ctx.if_range is Some ==> {
            let v = ctx.if_range->0;
            &&& v.etag is Some ==> ctx.etag is Some && ctx.etag->0@ == v.etag->0@
            &&& v.last_modified_http_date is Some ==> ctx.last_modified_http_date is Some
                && ctx.last_modified_http_date->0@ == v.last_modified_http_date->0@
        }),
{
}

/// Where each validator that is given matches, a `Range` header is never ignored: its ranges are
/// served or it is rejected.
pub proof fn law_matching_validators_let_the_range_apply(
    headers: Seq<Header>,
    ctx: RangeContext,
    cfg: RangeConfig,
)
    requires
        parse::range_value(headers) is Some,
        ctx.if_range is Some ==> (ctx.if_range->0.etag is Some ==> ctx.etag is Some && ctx.etag->0@
            == ctx.if_range->0.etag->0@),
        ctx.if_range is Some ==> (ctx.if_range->0.last_modified_http_date is Some
            ==> ctx.last_modified_http_date is Some && ctx.last_modified_http_date->0@
            == ctx.if_range->0.last_modified_http_date->0@),
    ensures
        handle::ranges_to_serve(headers, ctx, cfg) != Ok::<Option<Seq<(u64, u64)>>, RangeError>(
            None,
        ),
        handle::ranges_to_serve(headers, ctx, cfg) is Ok <==> parse::specs_of_value(
            parse::range_value(headers)->0,
        ) is Ok,
{
}

/// Where one validator that is given differs, a `Range` header that is text is ignored.
pub proof fn law_a_differing_validator_hides_the_range(
    headers: Seq<Header>,
    ctx: RangeContext,
    cfg: RangeConfig,
)
    requires
        parse::range_value(headers) is Some ==> valid_utf8(parse::range_value(headers)->0),
        ctx.if_range is Some,
        ({
            let v = ctx.if_range->0;
            ||| v.etag is Some && !(ctx.etag is Some && ctx.etag->0@ == v.etag->0@)
            ||| v.last_modified_http_date is Some && !(ctx.last_modified_http_date is Some
                && ctx.last_modified_http_date->0@ == v.last_modified_http_date->0@)
        }),
    ensures
        handle::ranges_to_serve(headers, ctx, cfg) == Ok::<Option<Seq<(u64, u64)>>, RangeError>(
            None,
        ),
{
}

/// Without a `Range` header, ranges play no role.
pub proof fn law_no_header_no_ranges(headers: Seq<Header>, ctx: RangeContext, cfg: RangeConfig)
    requires
        parse::range_value(headers) is None,
    ensures
        handle::ranges_to_serve(headers, ctx, cfg) == Ok::<Option<Seq<(u64, u64)>>, RangeError>(
            None,
        ),
{
}

/// What is served of a well-formed header: of the ranges up to the limit, all that resolve, in the
/// order in which they are asked for; without multipart, only the first of those.
pub proof fn law_what_is_served(
    headers: Seq<Header>,
    ctx: RangeContext,
    cfg: RangeConfig,
    specs: Seq<RangeSpec>,
)
    requires
        parse::range_value(headers) is Some,
        parse::specs_of_value(parse::range_value(headers)->0) == Ok::<Seq<RangeSpec>, RangeError>(
            specs,
        ),
        handle::validator_holds(ctx),
    ensures
        ({
            let kept = if specs.len() <= cfg.max_parts {
                specs
            } else {
                specs.take(cfg.max_parts as int)
            };
            let found = evaluate::resolve_all(kept, ctx.total_len);
            let served = handle::ranges_to_serve(headers, ctx, cfg);
            &&& served is Ok && served->Ok_0 is Some
            &&& cfg.enable_multipart ==> served->Ok_0->0 == found
            &&& !cfg.enable_multipart && found.len() == 0 ==> served->Ok_0->0.len() == 0
            &&& !cfg.enable_multipart && found.len() > 0 ==> served->Ok_0->0 == seq![found[0]]
        }),
{
    let kept = if specs.len() <= cfg.max_parts {
        specs
    } else {
        specs.take(cfg.max_parts as int)
    };
    let found = evaluate::resolve_all(kept, ctx.total_len);
    if !cfg.enable_multipart && found.len() > 0 {
        assert(handle::ranges_to_serve(headers, ctx, cfg)->Ok_0->0 =~= seq![found[0]]);
    }
}

/// A `Range` header that is no text is rejected, whatever the validators say.
pub proof fn law_what_is_no_text_is_rejected(
    headers: Seq<Header>,
    ctx: RangeContext,
    cfg: RangeConfig,
)
    requires
        parse::range_value(headers) is Some,
        !valid_utf8(parse::range_value(headers)->0),
    ensures
        handle::ranges_to_serve(headers, ctx, cfg) == Err::<Option<Seq<(u64, u64)>>, RangeError>(
            RangeError::Parse,
        ),
{
}

/// With multipart and within the limit, a byte of the representation is in some served range
/// exactly if some range of the header asks for it.
pub proof fn law_every_byte_asked_for_is_served(
    headers: Seq<Header>,
    ctx: RangeContext,
    cfg: RangeConfig,
    specs: Seq<RangeSpec>,
    pos: int,
)
    requires
        parse::range_value(headers) is Some,
        parse::specs_of_value(parse::range_value(headers)->0) == Ok::<Seq<RangeSpec>, RangeError>(
            specs,
        ),
        handle::validator_holds(ctx),
        cfg.enable_multipart,
        specs.len() <= cfg.max_parts,
    ensures
        ({
            let served = handle::ranges_to_serve(headers, ctx, cfg)->Ok_0->0;
            (exists|k: int|
                0 <= k < served.len() && (#[trigger] served[k]).0 <= pos <= served[k].1) <==> (0
                <= pos < ctx.total_len && (exists|i: int|
                0 <= i < specs.len() && (match ((#[trigger] specs[i]).start, specs[i].end) {
                    (Some(first), Some(last)) => first <= pos && pos <= last,
                    (Some(first), None) => first <= pos,
                    (None, Some(length)) => pos >= ctx.total_len - length,
                    (None, None) => false,
                })))
        }),
{
    law_what_is_served(headers, ctx, cfg, specs);
    evaluate::law_resolved_bytes_are_those_asked_for(specs, ctx.total_len, pos);
}

} // verus!
