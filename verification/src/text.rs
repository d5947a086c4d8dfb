//! Text helpers: decoding, trimming, splitting and ASCII case folding.
use vstd::prelude::*;
use vstd::slice::slice_subrange;
use vstd::utf8::*;

verus! {

/// The characters with the Unicode `White_Space` property.
pub open spec fn is_white_space(c: char) -> bool {
    ||| '\u{9}' <= c <= '\u{d}'
    ||| c == ' '
    ||| c == '\u{85}'
    ||| c == '\u{a0}'
    ||| c == '\u{1680}'
    ||| '\u{2000}' <= c <= '\u{200a}'
    ||| c == '\u{2028}'
    ||| c == '\u{2029}'
    ||| c == '\u{202f}'
    ||| c == '\u{205f}'
    ||| c == '\u{3000}'
}

/// `s` without its leading white space.
pub open spec fn trim_start(s: Seq<char>) -> Seq<char>
    decreases s.len(),
{
    if s.len() > 0 && is_white_space(s.first()) {
        trim_start(s.drop_first())
    } else {
        s
    }
}

/// `s` without its trailing white space.
pub open spec fn trim_end(s: Seq<char>) -> Seq<char>
    decreases s.len(),
{
    if s.len() > 0 && is_white_space(s.last()) {
        trim_end(s.drop_last())
    } else {
        s
    }
}

/// `s` without the white space at both ends.
pub open spec fn trim(s: Seq<char>) -> Seq<char> {
    trim_end(trim_start(s))
}

/// The position of the first `c` in `s`, or the length of `s` if there is none.
pub open spec fn find(s: Seq<char>, c: char) -> nat
    decreases s.len(),
{
    if s.len() == 0 || s.first() == c {
        0
    } else {
        1 + find(s.drop_first(), c)
    }
}

/// What stands before and after the first `c` in `s`.
pub open spec fn split_once(s: Seq<char>, c: char) -> Option<(Seq<char>, Seq<char>)> {
    let i = find(s, c) as int;
    if i < s.len() {
        Some((s.take(i), s.skip(i + 1)))
    } else {
        None
    }
}

/// The pieces of `s` between occurrences of `c`; always at least one.
pub open spec fn split(s: Seq<char>, c: char) -> Seq<Seq<char>>
    decreases s.len(),
{
    match split_once(s, c) {
        Some((head, tail)) => seq![head] + split(tail, c),
        None => seq![s],
    }
}

/// `c` with an ASCII capital replaced by its small letter.
pub open spec fn ascii_lower(c: char) -> char {
    if 'A' <= c <= 'Z' {
        (c as u32 + 32) as char
    } else {
        c
    }
}

/// `b` with an ASCII capital replaced by its small letter.
pub open spec fn ascii_lower_byte(b: u8) -> u8 {
    if 65 <= b <= 90 {
        (b + 32) as u8
    } else {
        b
    }
}

/// Equality of texts up to the case of ASCII letters.
pub open spec fn same_text_ignoring_case(a: Seq<char>, b: Seq<char>) -> bool {
    &&& a.len() == b.len()
    &&& forall|i: int| 0 <= i < a.len() ==> ascii_lower(#[trigger] a[i]) == ascii_lower(b[i])
}

/// Equality of byte strings up to the case of ASCII letters.
pub open spec fn same_bytes_ignoring_case(a: Seq<u8>, b: Seq<u8>) -> bool {
    &&& a.len() == b.len()
    &&& forall|i: int|
        0 <= i < a.len() ==> ascii_lower_byte(#[trigger] a[i]) == ascii_lower_byte(b[i])
}

/// Reads `bytes` as UTF-8 with `std::str::from_utf8`, which gives a string exactly when the bytes
/// are valid UTF-8; the string is then the one that those bytes encode.
#[verifier::external_body]
pub(crate) fn utf8_text(bytes: &[u8]) -> (r: Option<&str>)
    ensures
        r is Some <==> valid_utf8(bytes@),
        r matches Some(s) ==> s@ == decode_utf8(bytes@),
{
    std::str::from_utf8(bytes).ok()
}

/// The characters of a string.
pub fn chars_of(s: &str) -> (r: Vec<char>)
    ensures
        r@ == s@,
{
    let mut out: Vec<char> = Vec::new();
    for c in it: s.chars()
        invariant
            it.seq() == s@,
            out@ == s@.take(it.index() as int),
    {
        out.push(c);
        assert(s@.take(it.index() as int).push(c) =~= s@.take(it.index() + 1));
    }
    assert(s@.take(s@.len() as int) =~= s@);
    out
}

fn white_space(c: char) -> (r: bool)
    ensures
        r == is_white_space(c),
{
    ('\u{9}' <= c && c <= '\u{d}') || c == ' ' || c == '\u{85}' || c == '\u{a0}' || c == '\u{1680}'
        || ('\u{2000}' <= c && c <= '\u{200a}') || c == '\u{2028}' || c == '\u{2029}' || c
        == '\u{202f}' || c == '\u{205f}' || c == '\u{3000}'
}

/// Removes the white space at both ends.
pub fn trimmed(s: &[char]) -> (r: &[char])
    ensures
        r@ == trim(s@),
{
    let mut lo: usize = 0;
    assert(s@.skip(0) =~= s@);
    while lo < s.len() && white_space(s[lo])
        invariant
            lo <= s@.len(),
            trim_start(s@) == trim_start(s@.skip(lo as int)),
        decreases s@.len() - lo,
    {
        assert(s@.skip(lo as int).drop_first() =~= s@.skip(lo + 1));
        lo = lo + 1;
    }
    let mut hi: usize = s.len();
    assert(trim_start(s@) == s@.skip(lo as int));
    assert(s@.subrange(lo as int, hi as int) =~= s@.skip(lo as int));
    while lo < hi && white_space(s[hi - 1])
        invariant
            lo <= hi <= s@.len(),
            trim(s@) == trim_end(s@.subrange(lo as int, hi as int)),
        decreases hi,
    {
        assert(s@.subrange(lo as int, hi as int).drop_last() =~= s@.subrange(
            lo as int,
            hi - 1,
        ));
        hi = hi - 1;
    }
    slice_subrange(s, lo, hi)
}

/// The position of the first `c`, or the length of `s` if there is none.
pub fn position(s: &[char], c: char) -> (r: usize)
    ensures
        r == find(s@, c),
        r <= s@.len(),
        r < s@.len() ==> s@[r as int] == c,
        forall|j: int| 0 <= j < r ==> s@[j] != c,
{
    let mut i: usize = 0;
    assert(s@.skip(0) =~= s@);
    while i < s.len() && s[i] != c
        invariant
            i <= s@.len(),
            find(s@, c) == i + find(s@.skip(i as int), c),
            forall|j: int| 0 <= j < i ==> s@[j] != c,
        decreases s@.len() - i,
    {
        assert(s@.skip(i as int).drop_first() =~= s@.skip(i + 1));
        i = i + 1;
    }
    i
}

/// Splits at the first `c`.
pub fn cut(s: &[char], c: char) -> (r: Option<(&[char], &[char])>)
    ensures
        match split_once(s@, c) {
            Some((a, b)) => r matches Some((x, y)) && x@ == a && y@ == b,
            None => r is None,
        },
{
    let i = position(s, c);
    if i < s.len() {
        let head = slice_subrange(s, 0, i);
        let tail = slice_subrange(s, i + 1, s.len());
        assert(s@.take(i as int) =~= s@.subrange(0, i as int));
        assert(s@.skip(i + 1) =~= s@.subrange(i + 1, s@.len() as int));
        Some((head, tail))
    } else {
        None
    }
}

fn lower_char(c: char) -> (r: char)
    ensures
        r == ascii_lower(c),
{
    if 'A' <= c && c <= 'Z' {
        ((c as u8) + 32) as char
    } else {
        c
    }
}

/// Compares two texts up to the case of ASCII letters.
pub fn text_eq_ignoring_case(a: &[char], b: &[char]) -> (r: bool)
    ensures
        r == same_text_ignoring_case(a@, b@),
{
    if a.len() != b.len() {
        return false;
    }
    for i in 0..a.len()
        invariant
            a@.len() == b@.len(),
            forall|j: int| 0 <= j < i ==> ascii_lower(#[trigger] a@[j]) == ascii_lower(b@[j]),
    {
        if lower_char(a[i]) != lower_char(b[i]) {
            assert(ascii_lower(a@[i as int]) != ascii_lower(b@[i as int]));
            return false;
        }
    }
    true
}

fn lower_byte(b: u8) -> (r: u8)
    ensures
        r == ascii_lower_byte(b),
{
    if 65 <= b && b <= 90 {
        b + 32
    } else {
        b
    }
}

/// Compares two byte strings up to the case of ASCII letters.
pub fn bytes_eq_ignoring_case(a: &[u8], b: &[u8]) -> (r: bool)
    ensures
        r == same_bytes_ignoring_case(a@, b@),
{
    if a.len() != b.len() {
        return false;
    }
    for i in 0..a.len()
        invariant
            a@.len() == b@.len(),
            forall|j: int|
                0 <= j < i ==> ascii_lower_byte(#[trigger] a@[j]) == ascii_lower_byte(b@[j]),
    {
        if lower_byte(a[i]) != lower_byte(b[i]) {
            assert(ascii_lower_byte(a@[i as int]) != ascii_lower_byte(b@[i as int]));
            return false;
        }
    }
    true
}

/// Compares two byte strings.
pub fn bytes_eq(a: &[u8], b: &[u8]) -> (r: bool)
    ensures
        r == (a@ == b@),
{
    if a.len() != b.len() {
        return false;
    }
    for i in 0..a.len()
        invariant
            a@.len() == b@.len(),
            forall|j: int| 0 <= j < i ==> a@[j] == b@[j],
    {
        if a[i] != b[i] {
            return false;
        }
    }
    assert(a@ =~= b@);
    true
}

/// Trimming twice is trimming once.
pub proof fn law_trim_idempotent(s: Seq<char>)
    ensures
        trim(trim(s)) == trim(s),
{
    lemma_trim_start_shape(s);
    lemma_trim_end_shape(trim_start(s));
}

proof fn lemma_trim_start_shape(s: Seq<char>)
    ensures
        trim_start(s).len() > 0 ==> !is_white_space(trim_start(s).first()),
    decreases s.len(),
{
    if s.len() > 0 && is_white_space(s.first()) {
        lemma_trim_start_shape(s.drop_first());
    }
}

proof fn lemma_trim_end_shape(s: Seq<char>)
    ensures
        trim_end(s).len() > 0 ==> !is_white_space(trim_end(s).last()) && trim_end(s).first()
            == s.first() && s.len() > 0,
    decreases s.len(),
{
    if s.len() > 0 && is_white_space(s.last()) {
        lemma_trim_end_shape(s.drop_last());
    }
}

/// The characters with the codes that ASCII bytes have.
pub open spec fn ascii_chars(bytes: Seq<u8>) -> Seq<char> {
    Seq::new(bytes.len(), |i: int| bytes[i] as char)
}

/// ASCII bytes are valid UTF-8, one character each.
pub proof fn law_ascii_text(bytes: Seq<u8>)
    requires
        forall|i: int| 0 <= i < bytes.len() ==> #[trigger] bytes[i] < 128,
    ensures
        valid_utf8(bytes),
        decode_utf8(bytes) == ascii_chars(bytes),
{
    let chars = ascii_chars(bytes);
    assert(is_ascii_chars(chars));
    is_ascii_chars_encode_utf8(chars);
    assert forall|i: int| 0 <= i < bytes.len() implies chars[i] as u8 == #[trigger] bytes[i] by {}
    assert(encode_utf8(chars) =~= bytes);
    encode_utf8_valid_utf8(chars);
    encode_utf8_decode_utf8(chars);
}

/// Appends `more` to `out`.
pub fn push_bytes(out: &mut Vec<u8>, more: &[u8])
    ensures
        final(out)@ == old(out)@ + more@,
{
    out.extend_from_slice(more);
    assert(out@ =~= old(out)@ + more@);
}

/// Appends the UTF-8 encoding of `more` to `out`.
pub fn push_text(out: &mut Vec<u8>, more: &str)
    ensures
        final(out)@ == old(out)@ + encode_utf8(more@),
{
    push_bytes(out, more.as_bytes());
}

/// The first `c` of `head`, `c`, `tail` is the one in the middle if `head` has none.
pub proof fn lemma_find_first(head: Seq<char>, c: char, tail: Seq<char>)
    requires
        !head.contains(c),
    ensures
        find(head.push(c) + tail, c) == head.len(),
        split_once(head.push(c) + tail, c) == Some((head, tail)),
    decreases head.len(),
{
    let s = head.push(c) + tail;
    if head.len() == 0 {
        assert(s.first() == c);
    } else {
        assert(s.first() == head[0]);
        assert(head.contains(head[0]));
        let rest = head.drop_first();
        assert(s.drop_first() =~= rest.push(c) + tail);
        assert forall|i: int| 0 <= i < rest.len() implies rest[i] != c by {
            assert(head.contains(head[i + 1]));
        }
        lemma_find_first(rest, c, tail);
    }
    assert(s.take(head.len() as int) =~= head);
    assert(s.skip(head.len() as int + 1) =~= tail);
}

/// A text without `c` has none to be found.
pub proof fn lemma_find_none(s: Seq<char>, c: char)
    requires
        !s.contains(c),
    ensures
        find(s, c) == s.len(),
        split_once(s, c) is None,
    decreases s.len(),
{
    if s.len() > 0 {
        assert(s.contains(s[0]));
        let rest = s.drop_first();
        assert forall|i: int| 0 <= i < rest.len() implies rest[i] != c by {
            assert(s.contains(s[i + 1]));
        }
        lemma_find_none(rest, c);
    }
}

/// A text without white space at its ends is not changed by trimming.
pub proof fn lemma_trim_nothing(s: Seq<char>)
    requires
        s.len() > 0 ==> !is_white_space(s.first()) && !is_white_space(s.last()),
    ensures
        trim(s) == s,
{
}

/// Exactly the 25 white space characters of Unicode count as white space.
pub proof fn law_white_space(c: char)
    ensures
        is_white_space(c) <==> {
            let code = c as u32;
            ||| 9 <= code <= 13
            ||| 8192 <= code <= 8202
            ||| code == 32 || code == 133 || code == 160 || code == 5760
            ||| code == 8232 || code == 8233 || code == 8239 || code == 8287 || code == 12288
        },
{
}

proof fn lemma_trim_start_cut(s: Seq<char>) -> (i: int)
    ensures
        0 <= i <= s.len(),
        trim_start(s) == s.skip(i),
        forall|k: int| 0 <= k < i ==> is_white_space(#[trigger] s[k]),
        i < s.len() ==> !is_white_space(s[i]),
    decreases s.len(),
{
    if s.len() > 0 && is_white_space(s.first()) {
        let rest = s.drop_first();
        let i = lemma_trim_start_cut(rest);
        assert(rest.skip(i) =~= s.skip(i + 1));
        assert forall|k: int| 0 <= k < i + 1 implies is_white_space(#[trigger] s[k]) by {
            if k > 0 {
                assert(rest[k - 1] == s[k]);
            }
        }
        i + 1
    } else {
        assert(s.skip(0) =~= s);
        0
    }
}

proof fn lemma_trim_end_cut(s: Seq<char>) -> (j: int)
    ensures
        0 <= j <= s.len(),
        trim_end(s) == s.take(j),
        forall|k: int| j <= k < s.len() ==> is_white_space(#[trigger] s[k]),
        j > 0 ==> !is_white_space(s[j - 1]),
    decreases s.len(),
{
    if s.len() > 0 && is_white_space(s.last()) {
        let rest = s.drop_last();
        let j = lemma_trim_end_cut(rest);
        assert(rest.take(j) =~= s.take(j));
        assert forall|k: int| j <= k < s.len() implies is_white_space(#[trigger] s[k]) by {
            if k < rest.len() {
                assert(rest[k] == s[k]);
            }
        }
        j
    } else {
        assert(s.take(s.len() as int) =~= s);
        s.len() as int
    }
}

/// Trimming keeps one stretch of the text: everything before and after it is white space, and the
/// stretch itself neither starts nor ends with white space.
pub proof fn law_trim_cuts_white_space(s: Seq<char>)
    ensures
        exists|i: int, j: int|
            #![trigger s.subrange(i, j)]
            {
                &&& 0 <= i <= j <= s.len()
                &&& trim(s) == s.subrange(i, j)
                &&& forall|k: int| 0 <= k < i || j <= k < s.len() ==> is_white_space(#[trigger] s[k])
                &&& i < j ==> !is_white_space(s[i]) && !is_white_space(s[j - 1])
            },
{
    let i = lemma_trim_start_cut(s);
    let rest = s.skip(i);
    let n = lemma_trim_end_cut(rest);
    let j = i + n;
    assert(rest.take(n) =~= s.subrange(i, j));
    assert forall|k: int| 0 <= k < i || j <= k < s.len() implies is_white_space(
        #[trigger] s[k],
    ) by {
        if k >= j {
            assert(rest[k - i] == s[k]);
        }
    }
    if i < j {
        assert(rest[n - 1] == s[j - 1]);
    }
}

/// What is found is the first `c`, and it is found if there is one.
pub proof fn law_find_is_first(s: Seq<char>, c: char)
    ensures
        find(s, c) <= s.len(),
        find(s, c) < s.len() ==> s[find(s, c) as int] == c,
        forall|j: int| 0 <= j < find(s, c) ==> s[j] != c,
        find(s, c) < s.len() <==> s.contains(c),
    decreases s.len(),
{
    if s.len() > 0 && s.first() != c {
        let rest = s.drop_first();
        law_find_is_first(rest, c);
        assert forall|j: int| 0 <= j < find(s, c) implies s[j] != c by {
            if j > 0 {
                assert(rest[j - 1] == s[j]);
            }
        }
        if s.contains(c) {
            let k = s.index_of(c);
            assert(rest[k - 1] == c);
        }
    } else if s.len() > 0 {
        assert(s.contains(s[0]));
    }
}

/// A text is split at its first `c`: the two sides and the `c` between them make up the text, and
/// the left side has no `c`. Only a text without `c` is not split.
pub proof fn law_split_once(s: Seq<char>, c: char)
    ensures
        match split_once(s, c) {
            Some((head, tail)) => head.push(c) + tail == s && !head.contains(c),
            None => !s.contains(c),
        },
{
    law_find_is_first(s, c);
    let i = find(s, c) as int;
    if i < s.len() {
        assert(s.take(i).push(c) + s.skip(i + 1) =~= s);
    }
}

/// A text without `c` is one piece.
pub proof fn law_split_one_piece(s: Seq<char>, c: char)
    requires
        !s.contains(c),
    ensures
        split(s, c) == seq![s],
{
    lemma_find_none(s, c);
}

/// What stands before the first `c` is the first piece, and the rest is split in the same way.
pub proof fn law_split_first_piece(head: Seq<char>, c: char, tail: Seq<char>)
    requires
        !head.contains(c),
    ensures
        split(head.push(c) + tail, c) == seq![head] + split(tail, c),
{
    lemma_find_first(head, c, tail);
}

/// Two texts are the same up to ASCII case exactly if at every position the characters are equal,
/// or one is a capital from A to Z and the other its small letter.
pub proof fn law_text_case(a: Seq<char>, b: Seq<char>)
    ensures
        same_text_ignoring_case(a, b) <==> {
            &&& a.len() == b.len()
            &&& forall|i: int|
                0 <= i < a.len() ==> {
                    let x = #[trigger] a[i] as u32;
                    let y = b[i] as u32;
                    ||| x == y
                    ||| 65 <= x <= 90 && y == x + 32
                    ||| 65 <= y <= 90 && x == y + 32
                }
        },
{
    assert forall|c: char, d: char| #[trigger] ascii_lower(c) == #[trigger] ascii_lower(d) <==> {
        let x = c as u32;
        let y = d as u32;
        ||| x == y
        ||| 65 <= x <= 90 && y == x + 32
        ||| 65 <= y <= 90 && x == y + 32
    } by {}
    if same_text_ignoring_case(a, b) {
        assert forall|i: int| 0 <= i < a.len() implies {
            let x = #[trigger] a[i] as u32;
            let y = b[i] as u32;
            ||| x == y
            ||| 65 <= x <= 90 && y == x + 32
            ||| 65 <= y <= 90 && x == y + 32
        } by {
            assert(ascii_lower(a[i]) == ascii_lower(b[i]));
        }
    }
}

/// Two byte strings are the same up to ASCII case exactly if at every position the bytes are
/// equal, or one is a capital from A to Z and the other its small letter.
pub proof fn law_bytes_case(a: Seq<u8>, b: Seq<u8>)
    ensures
        same_bytes_ignoring_case(a, b) <==> {
            &&& a.len() == b.len()
            &&& forall|i: int|
                0 <= i < a.len() ==> {
                    let x = #[trigger] a[i];
                    let y = b[i];
                    ||| x == y
                    ||| 65 <= x <= 90 && y == x + 32
                    ||| 65 <= y <= 90 && x == y + 32
                }
        },
{
    if same_bytes_ignoring_case(a, b) {
        assert forall|i: int| 0 <= i < a.len() implies {
            let x = #[trigger] a[i];
            let y = b[i];
            ||| x == y
            ||| 65 <= x <= 90 && y == x + 32
            ||| 65 <= y <= 90 && x == y + 32
        } by {
            assert(ascii_lower_byte(a[i]) == ascii_lower_byte(b[i]));
        }
    }
}

} // verus!
