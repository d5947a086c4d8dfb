//! HTTP header fields.
use vstd::prelude::*;
use vstd::slice::slice_to_vec;

use crate::text;

verus! {

/// A header field: a name and a value, both raw bytes.
#[derive(Debug, Clone, PartialEq, Eq)]
pub struct Header {
    pub name: Vec<u8>,
    pub value: Vec<u8>,
}

/// The name and the value of a header field.
pub type HeaderView = (Seq<u8>, Seq<u8>);

impl View for Header {
    type V = HeaderView;

    open spec fn view(&self) -> HeaderView {
        (self.name@, self.value@)
    }
}

/// The fields of a header list, in order.
pub open spec fn header_views(headers: Seq<Header>) -> Seq<HeaderView> {
    headers.map_values(|h: Header| h@)
}

impl Header {
    pub fn new(name: &[u8], value: &[u8]) -> (h: Header)
        ensures
            h@ == (name@, value@),
    {
        Header { name: slice_to_vec(name), value: slice_to_vec(value) }
    }

    pub fn name(&self) -> (r: &[u8])
        ensures
            r@ == self@.0,
    {
        self.name.as_slice()
    }

    pub fn value(&self) -> (r: &[u8])
        ensures
            r@ == self@.1,
    {
        self.value.as_slice()
    }
}

/// The value of the first field whose name is `name` up to ASCII case.
pub open spec fn lookup(headers: Seq<HeaderView>, name: Seq<u8>) -> Option<Seq<u8>>
    decreases headers.len(),
{
    if headers.len() == 0 {
        None
    } else if text::same_bytes_ignoring_case(headers.first().0, name) {
        Some(headers.first().1)
    } else {
        lookup(headers.drop_first(), name)
    }
}

/// Finds a header field by name.
pub fn header_value<'a>(headers: &'a [Header], name_lc: &[u8]) -> (r: Option<&'a [u8]>)
    ensures
        match lookup(header_views(headers@), name_lc@) {
            Some(v) => r matches Some(x) && x@ == v,
            None => r is None,
        },
{
    let ghost views = header_views(headers@);
    assert(views.skip(0) =~= views);
    for i in 0..headers.len()
        invariant
            views == header_views(headers@),
            lookup(views, name_lc@) == lookup(views.skip(i as int), name_lc@),
    {
        assert(views.skip(i as int).drop_first() =~= views.skip(i + 1));
        if text::bytes_eq_ignoring_case(headers[i].name(), name_lc) {
            return Some(headers[i].value());
        }
    }
    None
}

/// A field whose name differs from the one looked for does not matter, wherever it stands.
pub proof fn law_lookup_ignores_other_fields(
    before: Seq<HeaderView>,
    other: HeaderView,
    after: Seq<HeaderView>,
    name: Seq<u8>,
)
    requires
        !text::same_bytes_ignoring_case(other.0, name),
    ensures
        lookup(before.push(other) + after, name) == lookup(before + after, name),
    decreases before.len(),
{
    if before.len() == 0 {
        assert((before.push(other) + after).drop_first() =~= after);
        assert(before + after =~= after);
    } else {
        let rest = before.drop_first();
        assert((before.push(other) + after).drop_first() =~= rest.push(other) + after);
        assert((before + after).drop_first() =~= rest + after);
        law_lookup_ignores_other_fields(rest, other, after, name);
    }
}

/// A header list is seen as its names and values, field by field.
pub proof fn law_header_views(headers: Seq<Header>)
    ensures
        header_views(headers).len() == headers.len(),
        forall|i: int|
            0 <= i < headers.len() ==> #[trigger] header_views(headers)[i] == (
                headers[i].name@,
                headers[i].value@,
            ),
{
}

/// The field that is found is the first whose name fits, and one is found if there is any.
pub proof fn law_lookup_finds_the_first(headers: Seq<HeaderView>, name: Seq<u8>)
    ensures
        match lookup(headers, name) {
            Some(value) => exists|i: int|
                #![trigger headers[i]]
                {
                    &&& 0 <= i < headers.len()
                    &&& headers[i].1 == value
                    &&& text::same_bytes_ignoring_case(headers[i].0, name)
                    &&& forall|j: int|
                        0 <= j < i ==> !text::same_bytes_ignoring_case(
                            (#[trigger] headers[j]).0,
                            name,
                        )
                },
            None => forall|i: int|
                0 <= i < headers.len() ==> !text::same_bytes_ignoring_case(
                    (#[trigger] headers[i]).0,
                    name,
                ),
        },
    decreases headers.len(),
{
    if headers.len() > 0 {
        let rest = headers.drop_first();
        if text::same_bytes_ignoring_case(headers[0].0, name) {
            assert(headers[0].1 == headers.first().1);
        } else {
            law_lookup_finds_the_first(rest, name);
            match lookup(headers, name) {
                Some(value) => {
                    let i = choose|i: int|
                        #![trigger rest[i]]
                        {
                            &&& 0 <= i < rest.len()
                            &&& rest[i].1 == value
                            &&& text::same_bytes_ignoring_case(rest[i].0, name)
                            &&& forall|j: int|
                                0 <= j < i ==> !text::same_bytes_ignoring_case(
                                    (#[trigger] rest[j]).0,
                                    name,
                                )
                        };
                    assert(headers[i + 1] == rest[i]);
                    assert forall|j: int| 0 <= j < i + 1 implies !text::same_bytes_ignoring_case(
                        (#[trigger] headers[j]).0,
                        name,
                    ) by {
                        if j > 0 {
                            assert(headers[j] == rest[j - 1]);
                        }
                    }
                },
                None => {
                    assert forall|i: int|
                        0 <= i < headers.len() implies !text::same_bytes_ignoring_case(
                        (#[trigger] headers[i]).0,
                        name,
                    ) by {
                        if i > 0 {
                            assert(headers[i] == rest[i - 1]);
                        }
                    }
                },
            }
        }
    }
}

} // verus!
