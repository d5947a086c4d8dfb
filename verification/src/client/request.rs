//! Requests and the header fields that they are sent with.
use vstd::prelude::*;
use vstd::utf8::*;

use crate::header;
use crate::header::{Header, HeaderView};
use crate::number;
use crate::text;

verus! {

/// A request of an experiment.
pub struct Req {
    pub path: Vec<u8>,
    pub urgency: u8,
    pub incremental: bool,
    pub tag: &'static str,
}

/// A request of an experiment, as values.
#[verifier::ext_equal]
pub struct ReqView {
    pub path: Seq<u8>,
    pub urgency: u8,
    pub incremental: bool,
    pub tag: Seq<char>,
}

impl View for Req {
    type V = ReqView;

    open spec fn view(&self) -> ReqView {
        ReqView {
            path: self.path@,
            urgency: self.urgency,
            incremental: self.incremental,
            tag: self.tag@,
        }
    }
}

impl Req {
    /// A request for a path.
    pub fn new(path: &[u8], urgency: u8, incremental: bool, tag: &'static str) -> (r: Req)
        ensures
            r@ == (ReqView { path: path@, urgency, incremental, tag: tag@ }),
            r.tag == tag,
    {
        Req { path: vstd::slice::slice_to_vec(path), urgency, incremental, tag }
    }
}

/// The value of the `priority` header field: `u=<urgency>`, and `,i` if incremental.
pub open spec fn priority_value(urgency: u8, incremental: bool) -> Seq<u8> {
    let urgency_part = encode_utf8("u="@) + number::decimal(urgency as nat);
    if incremental {
        urgency_part + encode_utf8(",i"@)
    } else {
        urgency_part
    }
}

/// The fields of a plain GET request.
pub open spec fn plain_get(authority: Seq<u8>, path: Seq<u8>) -> Seq<HeaderView> {
    seq![
        (encode_utf8(":method"@), encode_utf8("GET"@)),
        (encode_utf8(":scheme"@), encode_utf8("https"@)),
        (encode_utf8(":authority"@), authority),
        (encode_utf8(":path"@), path),
        (encode_utf8("user-agent"@), encode_utf8("h3-sponza-client"@)),
    ]
}

/// The fields of a GET request with a priority.
pub open spec fn prioritized_get(
    authority: Seq<u8>,
    path: Seq<u8>,
    urgency: u8,
    incremental: bool,
) -> Seq<HeaderView> {
    seq![
        (encode_utf8(":method"@), encode_utf8("GET"@)),
        (encode_utf8(":scheme"@), encode_utf8("https"@)),
        (encode_utf8(":authority"@), authority),
        (encode_utf8(":path"@), path),
        (encode_utf8("priority"@), priority_value(urgency, incremental)),
        (encode_utf8("user-agent"@), encode_utf8("h3-exp-client"@)),
    ]
}

fn common_fields(authority: &[u8], path: &[u8]) -> (r: Vec<Header>)
    ensures
        header::header_views(r@) == plain_get(authority@, path@).take(4),
{
    let mut out: Vec<Header> = Vec::new();
    out.push(Header::new(":method".as_bytes(), "GET".as_bytes()));
    out.push(Header::new(":scheme".as_bytes(), "https".as_bytes()));
    out.push(Header::new(":authority".as_bytes(), authority));
    out.push(Header::new(":path".as_bytes(), path));
    assert(header::header_views(out@) =~= plain_get(authority@, path@).take(4));
    out
}

/// The header of a plain GET request.
pub fn plain_request(authority: &[u8], path: &[u8]) -> (r: Vec<Header>)
    ensures
        header::header_views(r@) == plain_get(authority@, path@),
{
    let mut out = common_fields(authority, path);
    let ghost views = header::header_views(out@);
    out.push(Header::new("user-agent".as_bytes(), "h3-sponza-client".as_bytes()));
    assert(header::header_views(out@) =~= views.push(
        (encode_utf8("user-agent"@), encode_utf8("h3-sponza-client"@)),
    ));
    assert(header::header_views(out@) =~= plain_get(authority@, path@));
    out
}

fn write_priority(urgency: u8, incremental: bool) -> (r: Vec<u8>)
    ensures
        r@ == priority_value(urgency, incremental),
{
    let mut out: Vec<u8> = Vec::new();
    text::push_text(&mut out, "u=");
    text::push_bytes(&mut out, number::write_decimal(urgency as u64).as_slice());
    if incremental {
        text::push_text(&mut out, ",i");
    }
    assert(out@ =~= priority_value(urgency, incremental));
    out
}

/// The header of an experiment's request.
pub fn prioritized_request(authority: &[u8], req: &Req) -> (r: Vec<Header>)
    ensures
        header::header_views(r@) == prioritized_get(
            authority@,
            req.path@,
            req.urgency,
            req.incremental,
        ),
{
    let mut out = common_fields(authority, req.path.as_slice());
    let ghost views = header::header_views(out@);
    let priority = write_priority(req.urgency, req.incremental);
    out.push(Header::new("priority".as_bytes(), priority.as_slice()));
    out.push(Header::new("user-agent".as_bytes(), "h3-exp-client".as_bytes()));
    assert(header::header_views(out@) =~= views.push(
        (encode_utf8("priority"@), priority_value(req.urgency, req.incremental)),
    ).push((encode_utf8("user-agent"@), encode_utf8("h3-exp-client"@))));
    assert(header::header_views(out@) =~= prioritized_get(
        authority@,
        req.path@,
        req.urgency,
        req.incremental,
    ));
    out
}

/// The last value of the field with exactly this name.
pub open spec fn last_value(headers: Seq<HeaderView>, name: Seq<u8>) -> Option<Seq<u8>>
    decreases headers.len(),
{
    if headers.len() == 0 {
        None
    } else if headers.last().0 == name {
        Some(headers.last().1)
    } else {
        last_value(headers.drop_last(), name)
    }
}

/// The status that a response header gives.
pub open spec fn status_of(headers: Seq<HeaderView>) -> Option<Seq<u8>> {
    last_value(headers, encode_utf8(":status"@))
}

/// The content length known after a response header: each `content-length` field in valid UTF-8
/// replaces what was known, by nothing if it is no number.
pub open spec fn content_length_after(
    headers: Seq<HeaderView>,
    known: Option<u64>,
) -> Option<u64>
    decreases headers.len(),
{
    if headers.len() == 0 {
        known
    } else {
        let (name, value) = headers.last();
        if name == encode_utf8("content-length"@) && valid_utf8(value) {
            number::parse_u64(decode_utf8(value))
        } else {
            content_length_after(headers.drop_last(), known)
        }
    }
}

/// Finds the status in a response header.
pub fn response_status(headers: &[Header]) -> (r: Option<Vec<u8>>)
    ensures
        match status_of(header::header_views(headers@)) {
            Some(v) => r matches Some(x) && x@ == v,
            None => r is None,
        },
{
    let ghost views = header::header_views(headers@);
    let mut i: usize = headers.len();
    assert(views.take(i as int) =~= views);
    while i > 0
        invariant
            i <= headers@.len(),
            views == header::header_views(headers@),
            status_of(views) == status_of(views.take(i as int)),
        decreases i,
    {
        assert(views.take(i as int).drop_last() =~= views.take(i - 1));
        if text::bytes_eq(headers[i - 1].name(), ":status".as_bytes()) {
            return Some(vstd::slice::slice_to_vec(headers[i - 1].value()));
        }
        i = i - 1;
    }
    None
}

/// Updates a known content length from a response header.
pub fn response_content_length(headers: &[Header], known: Option<u64>) -> (r: Option<u64>)
    ensures
        r == content_length_after(header::header_views(headers@), known),
{
    let ghost views = header::header_views(headers@);
    let mut i: usize = headers.len();
    assert(views.take(i as int) =~= views);
    while i > 0
        invariant
            i <= headers@.len(),
            views == header::header_views(headers@),
            content_length_after(views, known) == content_length_after(
                views.take(i as int),
                known,
            ),
        decreases i,
    {
        assert(views.take(i as int).drop_last() =~= views.take(i - 1));
        if text::bytes_eq(headers[i - 1].name(), "content-length".as_bytes()) {
            match text::utf8_text(headers[i - 1].value()) {
                Some(t) => {
                    let chars = text::chars_of(t);
                    return number::read_u64(chars.as_slice());
                },
                None => {},
            }
        }
        i = i - 1;
    }
    known
}

} // verus!
