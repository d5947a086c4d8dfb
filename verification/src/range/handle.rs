//! Deciding how to answer a range request, and assembling the answer from what is read.
use vstd::prelude::*;
use vstd::utf8::*;

use crate::header;
use crate::header::Header;
use crate::range::boundary;
use crate::range::evaluate;
use crate::range::laws;
use crate::range::parse;
use crate::range::response;
use crate::range::types::{RangeConfig, RangeContext, RangeError, RangeResponse, RangeSpec};
use crate::text;

verus! {

/// Whether an optional text is the given one.
pub open spec fn is_text(current: Option<String>, wanted: String) -> bool {
    current matches Some(c) && c@ == wanted@
}

/// Whether the `If-Range` validator lets the range apply: each validator that the request gives
/// must be known and the same.
pub open spec fn validator_holds(ctx: RangeContext) -> bool {
    match ctx.if_range {
        None => true,
        Some(v) => {
            &&& v.etag matches Some(tag) ==> is_text(ctx.etag, tag)
            &&& v.last_modified_http_date matches Some(date) ==> is_text(
                ctx.last_modified_http_date,
                date,
            )
        },
    }
}

/// The first `n` elements.
pub open spec fn first_n(specs: Seq<RangeSpec>, n: usize) -> Seq<RangeSpec> {
    if specs.len() <= n {
        specs
    } else {
        specs.take(n as int)
    }
}

/// The ranges that are served out of those that resolve: only the first without multipart.
pub open spec fn served(ranges: Seq<(u64, u64)>, multipart: bool) -> Seq<(u64, u64)> {
    if multipart || ranges.len() <= 1 {
        ranges
    } else {
        ranges.take(1)
    }
}

/// How a request is answered: `Ok(None)` if ranges play no role, `Ok(Some(ranges))` with the ranges
/// to serve, of which there may be none.
pub open spec fn ranges_to_serve(headers: Seq<Header>, ctx: RangeContext, cfg: RangeConfig) -> Result<
    Option<Seq<(u64, u64)>>,
    RangeError,
> {
    match parse::range_value(headers) {
        None => Ok(None),
        Some(v) => if !valid_utf8(v) {
            Err(RangeError::Parse)
        } else if !validator_holds(ctx) {
            Ok(None)
        } else {
            match parse::specs_of_text(decode_utf8(v)) {
                Err(e) => Err(e),
                Ok(specs) => Ok(
                    Some(
                        served(
                            evaluate::resolve_all(first_n(specs, cfg.max_parts), ctx.total_len),
                            cfg.enable_multipart,
                        ),
                    ),
                ),
            }
        },
    }
}

fn text_is(current: &Option<String>, wanted: &String) -> (r: bool)
    ensures
        r == is_text(*current, *wanted),
{
    match current {
        Some(c) => *c == *wanted,
        None => false,
    }
}

fn validator_passes(ctx: &RangeContext) -> (r: bool)
    ensures
        r == validator_holds(*ctx),
{
    match &ctx.if_range {
        None => true,
        Some(v) => {
            if let Some(tag) = &v.etag {
                if !text_is(&ctx.etag, tag) {
                    return false;
                }
            }
            if let Some(date) = &v.last_modified_http_date {
                if !text_is(&ctx.last_modified_http_date, date) {
                    return false;
                }
            }
            true
        },
    }
}

/// Decides which ranges of the representation a request is answered with.
pub fn plan_ranges(request_headers: &[Header], ctx: &RangeContext, cfg: &RangeConfig) -> (r: Result<
    Option<Vec<(u64, u64)>>,
    RangeError,
>)
    ensures
        match ranges_to_serve(request_headers@, *ctx, *cfg) {
            Err(e) => r matches Err(f) && f == e,
            Ok(None) => r matches Ok(None),
            Ok(Some(ranges)) => r matches Ok(Some(v)) && v@ == ranges,
        },
{
    let value = match header::header_value(request_headers, "range".as_bytes()) {
        Some(v) => v,
        None => {
            return Ok(None);
        },
    };
    let range_text = match text::utf8_text(value) {
        Some(t) => t,
        None => {
            return Err(RangeError::Parse);
        },
    };
    if !validator_passes(ctx) {
        return Ok(None);
    }
    let mut specs = match parse::parse_range_text(range_text) {
        Ok(s) => s,
        Err(e) => {
            return Err(e);
        },
    };
    if specs.len() > cfg.max_parts {
        let ghost all = specs@;
        specs.truncate(cfg.max_parts);
        assert(specs@ =~= all.take(cfg.max_parts as int));
    }
    match evaluate::evaluate_specs(specs.as_slice(), ctx.total_len) {
        Ok(mut ranges) => {
            if !cfg.enable_multipart && ranges.len() > 1 {
                let ghost all = ranges@;
                ranges.truncate(1);
                assert(ranges@ =~= all.take(1));
            }
            Ok(Some(ranges))
        },
        Err(_) => {
            let none: Vec<(u64, u64)> = Vec::new();
            assert(none@ =~= evaluate::resolve_all(specs@, ctx.total_len));
            Ok(Some(none))
        },
    }
}

/// What a [`RangeJob`] knows: the ranges to read, and what has been read of them so far.
#[verifier::ext_equal]
pub struct JobView {
    pub ranges: Seq<(u64, u64)>,
    pub total_len: u64,
    pub content_type: Option<Seq<u8>>,
    /// Set when the answer has several parts.
    pub boundary: Option<Seq<char>>,
    pub slices: Seq<Seq<u8>>,
}

impl JobView {
    /// The body bytes that the slices read so far give rise to.
    pub open spec fn body(self) -> Seq<u8> {
        match self.boundary {
            Some(b) => response::parts(
                b,
                self.content_type,
                self.ranges,
                self.total_len,
                self.slices,
            ),
            None => if self.slices.len() == 0 {
                Seq::empty()
            } else {
                self.slices[0]
            },
        }
    }

    /// The answer, once all ranges have been read.
    pub open spec fn response(self) -> response::ResponseView {
        match self.boundary {
            Some(b) => response::multipart_response(
                b,
                self.content_type,
                self.ranges,
                self.total_len,
                self.slices,
            ),
            None => response::single_response(
                self.ranges[0],
                self.total_len,
                self.content_type,
                self.slices[0],
            ),
        }
    }

    /// Whether the ranges are as planning leaves them.
    pub open spec fn wf(self) -> bool {
        &&& self.ranges.len() >= 1
        &&& self.boundary is None ==> self.ranges.len() == 1
        &&& self.slices.len() <= self.ranges.len()
        &&& forall|i: int|
            0 <= i < self.ranges.len() ==> (#[trigger] self.ranges[i]).0 <= self.ranges[i].1
                < self.total_len
    }
}

/// A range answer in the making. The caller reads the file slice that [`RangeJob::next_read`] asks
/// for and hands it to [`RangeJob::feed`] until nothing more is asked for.
pub struct RangeJob {
    ranges: Vec<(u64, u64)>,
    total_len: u64,
    content_type: Option<Vec<u8>>,
    boundary: Option<String>,
    body: Vec<u8>,
    done: usize,
    slices: Ghost<Seq<Seq<u8>>>,
}

/// The characters of an optional boundary.
pub open spec fn boundary_view(b: Option<String>) -> Option<Seq<char>> {
    match b {
        Some(s) => Some(s@),
        None => None,
    }
}

impl View for RangeJob {
    type V = JobView;

    closed spec fn view(&self) -> JobView {
        JobView {
            ranges: self.ranges@,
            total_len: self.total_len,
            content_type: response::content_type_view(self.content_type),
            boundary: boundary_view(self.boundary),
            slices: self.slices@,
        }
    }
}

impl RangeJob {
    #[verifier::type_invariant]
    spec fn inv(self) -> bool {
        &&& self@.wf()
        &&& self.body@ == self@.body()
        &&& self.done == self@.slices.len()
    }

    /// Starts the answer for the given ranges; `boundary` separates the parts if there are several.
    fn start(
        ranges: Vec<(u64, u64)>,
        total_len: u64,
        content_type: Option<Vec<u8>>,
        boundary: Option<String>,
    ) -> (job: RangeJob)
        requires
            ranges@.len() >= 1,
            boundary is None ==> ranges@.len() == 1,
            forall|i: int|
                0 <= i < ranges@.len() ==> (#[trigger] ranges@[i]).0 <= ranges@[i].1 < total_len,
        ensures
            job@ == (JobView {
                ranges: ranges@,
                total_len,
                content_type: response::content_type_view(content_type),
                boundary: boundary_view(boundary),
                slices: Seq::empty(),
            }),
    {
        RangeJob {
            ranges,
            total_len,
            content_type,
            boundary,
            body: Vec::new(),
            done: 0,
            slices: Ghost(Seq::empty()),
        }
    }

    /// The offset and length of the next file slice to read.
    pub fn next_read(&self) -> (r: Option<(u64, u64)>)
        ensures
            self@.wf(),
            if self@.slices.len() < self@.ranges.len() {
                let (first, last) = self@.ranges[self@.slices.len() as int];
                r matches Some((offset, length)) && offset == first && length == last - first + 1
            } else {
                r is None
            },
    {
        proof {
            use_type_invariant(self);
        }
        if self.done < self.ranges.len() {
            let (first, last) = self.ranges[self.done];
            assert(self@.ranges[self.done as int] == (first, last));
            Some((first, last - first + 1))
        } else {
            None
        }
    }

    /// Takes the slice that was asked for. A failed read ends the request.
    pub fn feed(self, read: Result<Vec<u8>, std::io::Error>) -> (r: Result<RangeJob, RangeError>)
        requires
            self@.slices.len() < self@.ranges.len(),
        ensures
            match read {
                Ok(slice) => r matches Ok(job) && job@ == (JobView {
                    slices: self@.slices.push(slice@),
                    ..self@
                }),
                Err(e) => r matches Err(f) && f == RangeError::Io(e),
            },
    {
        proof {
            use_type_invariant(&self);
        }
        let slice = match read {
            Ok(s) => s,
            Err(e) => {
                return Err(RangeError::from(e));
            },
        };
        let ghost before = self@;
        let ghost after = JobView { slices: before.slices.push(slice@), ..before };
        let RangeJob { ranges, total_len, content_type, boundary, body, done, slices } = self;
        let mut body = body;
        let ghost fed = slices@.push(slice@);
        match &boundary {
            Some(b) => {
                response::write_part(
                    &mut body,
                    b.as_str(),
                    &content_type,
                    ranges[done],
                    total_len,
                    slice.as_slice(),
                );
                assert(fed.drop_last() =~= slices@);
                assert(body@ == after.body());
            },
            None => {
                text::push_bytes(&mut body, slice.as_slice());
                assert(body@ =~= slice@);
                assert(body@ == after.body());
            },
        }
        assert(done < ranges.len());
        let job = RangeJob {
            ranges,
            total_len,
            content_type,
            boundary,
            body,
            done: done + 1,
            slices: Ghost(fed),
        };
        Ok(job)
    }

    /// The answer, after the last slice.
    pub fn finish(self) -> (r: RangeResponse)
        requires
            self@.slices.len() == self@.ranges.len(),
        ensures
            r@ == self@.response(),
    {
        proof {
            use_type_invariant(&self);
        }
        let RangeJob { ranges, total_len, content_type, boundary, body, done, slices } = self;
        match &boundary {
            Some(b) => response::build_multipart(b.as_str(), body),
            None => response::build_single(ranges[0], total_len, &content_type, body),
        }
    }
}

/// How a range request goes on.
pub enum RangePlan {
    /// The answer is complete.
    Complete(RangeResponse),
    /// The answer needs slices of the file.
    Read(RangeJob),
}

fn clone_bytes(b: &Option<Vec<u8>>) -> (r: Option<Vec<u8>>)
    ensures
        response::content_type_view(r) == response::content_type_view(*b),
{
    match b {
        Some(v) => Some(vstd::slice::slice_to_vec(v.as_slice())),
        None => None,
    }
}

/// Handles a request: an error for a malformed `Range` header, `None` if the full representation
/// is to be sent, otherwise the answer or the job that leads to it.
pub fn handle_range_request(
    request_headers: &[Header],
    ctx: &RangeContext,
    cfg: &RangeConfig,
) -> (r: Result<Option<RangePlan>, RangeError>)
    ensures
        match ranges_to_serve(request_headers@, *ctx, *cfg) {
            Err(e) => r matches Err(f) && f == e,
            Ok(None) => r matches Ok(None),
            Ok(Some(ranges)) => if ranges.len() == 0 {
                r matches Ok(Some(RangePlan::Complete(resp))) && resp@
                    == response::unsatisfiable_response(ctx.total_len)
            } else {
                r matches Ok(Some(RangePlan::Read(job))) && job@.wf() && job@.ranges == ranges
                    && job@.total_len == ctx.total_len && job@.content_type
                    == response::content_type_view(ctx.content_type) && job@.slices.len() == 0
                    && if ranges.len() == 1 {
                    job@.boundary is None
                } else {
                    exists|nanos: u128|
                        job@.boundary == Some(#[trigger] boundary::boundary_text(nanos as nat))
                }
            },
        },
{
    let ranges = match plan_ranges(request_headers, ctx, cfg) {
        Err(e) => {
            return Err(e);
        },
        Ok(None) => {
            return Ok(None);
        },
        Ok(Some(v)) => v,
    };
    if ranges.is_empty() {
        return Ok(Some(RangePlan::Complete(response::build_unsatisfiable(ctx.total_len))));
    }
    proof {
        laws::law_served_in_bounds(request_headers@, *ctx, *cfg);
    }
    let boundary = if ranges.len() == 1 {
        None
    } else {
        Some(boundary::gen_boundary())
    };
    let job = RangeJob::start(ranges, ctx.total_len, clone_bytes(&ctx.content_type), boundary);
    proof {
        use_type_invariant(&job);
    }
    Ok(Some(RangePlan::Read(job)))
}

} // verus!
