//! How a `Range` header is read, piece by piece.
use vstd::prelude::*;
use vstd::utf8::*;

use crate::header;
use crate::header::Header;
use crate::number;
use crate::range::parse;
use crate::range::types::{RangeError, RangeSpec};
use crate::text;

verus! {

/// The unit is the five letters of `bytes`, each small or capital, with white space around them.
pub proof fn law_unit_is_bytes(s: Seq<char>)
    ensures
        parse::is_bytes_unit(s) <==> {
            let t = text::trim(s);
            &&& t.len() == 5
            &&& t[0] == 'b' || t[0] == 'B'
            &&& t[1] == 'y' || t[1] == 'Y'
            &&& t[2] == 't' || t[2] == 'T'
            &&& t[3] == 'e' || t[3] == 'E'
            &&& t[4] == 's' || t[4] == 'S'
        },
{
    let t = text::trim(s);
    reveal_strlit("bytes");
    text::law_text_case(t, "bytes"@);
}

/// An element with a dash has what stands before the first dash as its start and what stands after
/// it as its end, each a number in white space. One of them may be missing, not both; a range must
/// not end before it starts.
pub proof fn law_element(part: Seq<char>, left: Seq<char>, right: Seq<char>)
    requires
        text::trim(part) == left.push('-') + right,
        !left.contains('-'),
    ensures
        ({
            let a = text::trim(left);
            let b = text::trim(right);
            let first = number::parse_u64(a);
            let last = number::parse_u64(b);
            match parse::spec_of_part(part) {
                Some(spec) => {
                    &&& spec.start == if a.len() == 0 {
                        None
                    } else {
                        first
                    }
                    &&& spec.end == if b.len() == 0 {
                        None
                    } else {
                        last
                    }
                    &&& a.len() > 0 ==> first is Some
                    &&& b.len() > 0 ==> last is Some
                    &&& a.len() > 0 || b.len() > 0
                    &&& first is Some && last is Some ==> first->0 <= last->0
                },
                None => {
                    ||| a.len() > 0 && first is None
                    ||| b.len() > 0 && last is None
                    ||| a.len() == 0 && b.len() == 0
                    ||| first is Some && last is Some && first->0 > last->0
                },
            }
        }),
{
    text::lemma_find_first(left, '-', right);
    number::law_numbers_start_with_a_digit('0');
    let a = text::trim(left);
    let b = text::trim(right);
    if a.len() == 0 {
        assert(a =~= Seq::<char>::empty());
    }
    if b.len() == 0 {
        assert(b =~= Seq::<char>::empty());
    }
}

/// An element without a dash is malformed.
pub proof fn law_element_without_dash(part: Seq<char>)
    requires
        !text::trim(part).contains('-'),
    ensures
        parse::spec_of_part(part) is None,
{
    text::lemma_find_none(text::trim(part), '-');
}

/// A set without a comma is one element.
pub proof fn law_set_of_one(part: Seq<char>)
    requires
        !part.contains(','),
    ensures
        parse::specs_of_set(part) == match parse::spec_of_part(part) {
            Some(spec) => Some(seq![spec]),
            None => None,
        },
{
    text::law_split_one_piece(part, ',');
    let parts = text::split(part, ',');
    assert(parts[0] == part);
    if let Some(spec) = parse::spec_of_part(part) {
        assert(parts.map_values(|p: Seq<char>| parse::spec_of_part(p)->0) =~= seq![spec]);
    }
}

/// A set with a comma is well-formed exactly if what stands before the comma and what stands after
/// it are; its ranges are those of the one followed by those of the other.
pub proof fn law_set_of_several(part: Seq<char>, rest: Seq<char>)
    requires
        !part.contains(','),
    ensures
        parse::specs_of_set(part.push(',') + rest) == match (
            parse::spec_of_part(part),
            parse::specs_of_set(rest),
        ) {
            (Some(spec), Some(specs)) => Some(seq![spec] + specs),
            _ => None,
        },
{
    text::law_split_first_piece(part, ',', rest);
    let tail = text::split(rest, ',');
    let all = text::split(part.push(',') + rest, ',');
    assert(all == seq![part] + tail);
    assert(all[0] == part);
    assert(forall|i: int| 0 <= i < tail.len() ==> all[i + 1] == tail[i]);
    if parse::specs_of_set(part.push(',') + rest) is Some {
        assert forall|i: int| 0 <= i < tail.len() implies parse::spec_of_part(
            #[trigger] tail[i],
        ) is Some by {
            assert(all[i + 1] == tail[i]);
        }
    }
    if parse::spec_of_part(part) is Some && parse::specs_of_set(rest) is Some {
        assert forall|i: int| 0 <= i < all.len() implies parse::spec_of_part(
            #[trigger] all[i],
        ) is Some by {
            if i > 0 {
                assert(all[i] == tail[i - 1]);
            }
        }
        assert(all.map_values(|p: Seq<char>| parse::spec_of_part(p)->0) =~= seq![
            parse::spec_of_part(part)->0,
        ] + tail.map_values(|p: Seq<char>| parse::spec_of_part(p)->0));
    }
}

/// A header is a unit, an equals sign and a set. Another unit is unsupported, whatever the set.
pub proof fn law_header(unit: Seq<char>, set: Seq<char>)
    requires
        !unit.contains('='),
    ensures
        parse::specs_of_text(unit.push('=') + set) == if !parse::is_bytes_unit(unit) {
            Err::<Seq<RangeSpec>, RangeError>(RangeError::UnsupportedUnit)
        } else {
            match parse::specs_of_set(set) {
                Some(specs) => Ok(specs),
                None => Err(RangeError::Parse),
            }
        },
{
    text::lemma_find_first(unit, '=', set);
}

/// A header without an equals sign is malformed.
pub proof fn law_header_without_equals_sign(t: Seq<char>)
    requires
        !t.contains('='),
    ensures
        parse::specs_of_text(t) == Err::<Seq<RangeSpec>, RangeError>(RangeError::Parse),
{
    text::lemma_find_none(t, '=');
}

/// The bytes of a header are read as UTF-8, and are malformed if they are not.
pub proof fn law_header_bytes(t: Seq<char>, v: Seq<u8>)
    ensures
        parse::specs_of_value(encode_utf8(t)) == parse::specs_of_text(t),
        !valid_utf8(v) ==> parse::specs_of_value(v) == Err::<Seq<RangeSpec>, RangeError>(
            RangeError::Parse,
        ),
{
    encode_utf8_valid_utf8(t);
    encode_utf8_decode_utf8(t);
}

/// The header that counts is the first field whose name is the five letters of `range`, each small
/// or capital.
pub proof fn law_which_field_counts(headers: Seq<Header>)
    ensures
        match parse::range_value(headers) {
            Some(value) => exists|i: int|
                #![trigger headers[i]]
                {
                    &&& 0 <= i < headers.len()
                    &&& headers[i].value@ == value
                    &&& headers[i].name@.len() == 5
                    &&& headers[i].name@[0] == 114 || headers[i].name@[0] == 82
                    &&& headers[i].name@[1] == 97 || headers[i].name@[1] == 65
                    &&& headers[i].name@[2] == 110 || headers[i].name@[2] == 78
                    &&& headers[i].name@[3] == 103 || headers[i].name@[3] == 71
                    &&& headers[i].name@[4] == 101 || headers[i].name@[4] == 69
                    &&& forall|j: int| 0 <= j < i ==> !named_range((#[trigger] headers[j]).name@)
                },
            None => forall|i: int|
                0 <= i < headers.len() ==> !named_range((#[trigger] headers[i]).name@),
        },
        forall|name: Seq<u8>|
            #[trigger] named_range(name) <==> {
                &&& name.len() == 5
                &&& name[0] == 114 || name[0] == 82
                &&& name[1] == 97 || name[1] == 65
                &&& name[2] == 110 || name[2] == 78
                &&& name[3] == 103 || name[3] == 71
                &&& name[4] == 101 || name[4] == 69
            },
{
    let wanted = encode_utf8("range"@);
    reveal_strlit("range");
    is_ascii_chars_encode_utf8("range"@);
    assert(wanted =~= seq![114u8, 97u8, 110u8, 103u8, 101u8]);
    let views = header::header_views(headers);
    header::law_header_views(headers);
    header::law_lookup_finds_the_first(views, wanted);
    assert forall|name: Seq<u8>| #[trigger] named_range(name) <==> text::same_bytes_ignoring_case(
        name,
        wanted,
    ) by {
        text::law_bytes_case(name, wanted);
    }
    match parse::range_value(headers) {
        Some(value) => {
            let i = choose|i: int|
                #![trigger views[i]]
                {
                    &&& 0 <= i < views.len()
                    &&& views[i].1 == value
                    &&& text::same_bytes_ignoring_case(views[i].0, wanted)
                    &&& forall|j: int|
                        0 <= j < i ==> !text::same_bytes_ignoring_case(
                            (#[trigger] views[j]).0,
                            wanted,
                        )
                };
            assert(views[i] == (headers[i].name@, headers[i].value@));
            assert(named_range(headers[i].name@));
            assert forall|j: int| 0 <= j < i implies !named_range((#[trigger] headers[j]).name@) by {
                assert(views[j].0 == headers[j].name@);
            }
        },
        None => {
            assert forall|i: int| 0 <= i < headers.len() implies !named_range(
                (#[trigger] headers[i]).name@,
            ) by {
                assert(views[i].0 == headers[i].name@);
            }
        },
    }
}

/// Whether a field name is `range` up to ASCII case.
pub open spec fn named_range(name: Seq<u8>) -> bool {
    &&& name.len() == 5
    &&& name[0] == 114 || name[0] == 82
    &&& name[1] == 97 || name[1] == 65
    &&& name[2] == 110 || name[2] == 78
    &&& name[3] == 103 || name[3] == 71
    &&& name[4] == 101 || name[4] == 69
}

} // verus!
