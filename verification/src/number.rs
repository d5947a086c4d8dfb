//! Reading and writing unsigned numbers in text.
use vstd::prelude::*;
use vstd::utf8::*;

verus! {

pub open spec fn is_digit(c: char) -> bool {
    '0' <= c <= '9'
}

pub open spec fn all_digits(s: Seq<char>) -> bool {
    forall|i: int| 0 <= i < s.len() ==> is_digit(#[trigger] s[i])
}

/// The number that a sequence of decimal digits stands for.
pub open spec fn decimal_value(s: Seq<char>) -> nat
    decreases s.len(),
{
    if s.len() == 0 {
        0
    } else {
        decimal_value(s.drop_last()) * 10 + (s.last() as nat - '0' as nat) as nat
    }
}

/// `s` without one leading plus sign.
pub open spec fn unsigned_part(s: Seq<char>) -> Seq<char> {
    if s.len() > 0 && s.first() == '+' {
        s.drop_first()
    } else {
        s
    }
}

/// The number written by `s`: an optional plus sign, then one or more decimal digits whose value
/// fits in 64 bits.
pub open spec fn parse_u64(s: Seq<char>) -> Option<u64> {
    let digits = unsigned_part(s);
    if digits.len() > 0 && all_digits(digits) && decimal_value(digits) <= u64::MAX {
        Some(decimal_value(digits) as u64)
    } else {
        None
    }
}

/// The shortest decimal representation of `n`, in ASCII.
pub open spec fn decimal(n: nat) -> Seq<u8>
    decreases n,
{
    if n < 10 {
        seq![(48 + n) as u8]
    } else {
        decimal(n / 10).push((48 + n % 10) as u8)
    }
}

/// The digit for `d < 16` in lower-case hexadecimal.
pub open spec fn hex_digit(d: nat) -> char {
    if d < 10 {
        (48 + d) as char
    } else {
        (87 + d) as char
    }
}

/// The shortest lower-case hexadecimal representation of `n`.
pub open spec fn hex(n: nat) -> Seq<char>
    decreases n,
{
    if n < 16 {
        seq![hex_digit(n)]
    } else {
        hex(n / 16).push(hex_digit(n % 16))
    }
}

proof fn lemma_value_of_prefix(s: Seq<char>, k: int)
    requires
        0 <= k <= s.len(),
    ensures
        decimal_value(s.take(k)) <= decimal_value(s),
    decreases s.len(),
{
    if k == s.len() {
        assert(s.take(k) =~= s);
    } else {
        assert(s.drop_last().take(k) =~= s.take(k));
        lemma_value_of_prefix(s.drop_last(), k);
    }
}

/// Reads an unsigned 64-bit number.
pub fn read_u64(s: &[char]) -> (r: Option<u64>)
    ensures
        r == parse_u64(s@),
{
    let start: usize = if s.len() > 0 && s[0] == '+' {
        1
    } else {
        0
    };
    let ghost digits = unsigned_part(s@);
    assert(digits =~= s@.skip(start as int));
    if start == s.len() {
        return None;
    }
    let mut value: u64 = 0;
    let mut i: usize = start;
    while i < s.len()
        invariant
            start <= i <= s@.len(),
            start < s@.len(),
            digits == unsigned_part(s@),
            digits == s@.skip(start as int),
            value == decimal_value(digits.take(i - start)),
            forall|j: int| 0 <= j < i - start ==> is_digit(#[trigger] digits[j]),
        decreases s@.len() - i,
    {
        let c = s[i];
        assert(c == digits[i - start]);
        if !('0' <= c && c <= '9') {
            assert(!is_digit(digits[i - start]));
            return None;
        }
        let d: u64 = (c as u8 - 48) as u64;
        proof {
            assert(digits.take(i + 1 - start).drop_last() =~= digits.take(i - start));
            lemma_value_of_prefix(digits, i + 1 - start);
        }
        match value.checked_mul(10) {
            Some(tens) => match tens.checked_add(d) {
                Some(sum) => {
                    value = sum;
                },
                None => {
                    return None;
                },
            },
            None => {
                return None;
            },
        }
        i = i + 1;
    }
    assert(digits.take(i - start) =~= digits);
    Some(value)
}

/// Writes `n` in decimal.
pub fn write_decimal(n: u64) -> (r: Vec<u8>)
    ensures
        r@ == decimal(n as nat),
    decreases n,
{
    if n < 10 {
        let mut out: Vec<u8> = Vec::new();
        out.push(48 + n as u8);
        assert(out@ =~= decimal(n as nat));
        out
    } else {
        let mut out = write_decimal(n / 10);
        out.push(48 + (n % 10) as u8);
        out
    }
}

/// Appends one character to a string with `String::push`.
pub assume_specification[ String::push ](s: &mut String, c: char)
    ensures
        final(s)@ == old(s)@.push(c),
;

fn write_hex_digit(d: u8) -> (r: char)
    requires
        d < 16,
    ensures
        r == hex_digit(d as nat),
{
    if d < 10 {
        (48 + d) as char
    } else {
        (87 + d) as char
    }
}

/// Writes `n` in lower-case hexadecimal.
pub fn write_hex(n: u128) -> (r: String)
    ensures
        r@ == hex(n as nat),
    decreases n,
{
    if n < 16 {
        let mut out = String::new();
        out.push(write_hex_digit(n as u8));
        assert(out@ =~= hex(n as nat));
        out
    } else {
        let mut out = write_hex(n / 16);
        out.push(write_hex_digit((n % 16) as u8));
        out
    }
}

/// The decimal representation consists of digits and stands for the number.
pub proof fn lemma_decimal_shape(n: nat)
    ensures
        decimal(n).len() > 0,
        forall|i: int| 0 <= i < decimal(n).len() ==> 48 <= #[trigger] decimal(n)[i] <= 57,
        decimal_value(crate::text::ascii_chars(decimal(n))) == n,
    decreases n,
{
    let chars = crate::text::ascii_chars(decimal(n));
    if n < 10 {
        assert(chars.drop_last() =~= Seq::<char>::empty());
        assert(decimal_value(chars.drop_last()) == 0);
    } else {
        lemma_decimal_shape(n / 10);
        assert(chars.drop_last() =~= crate::text::ascii_chars(decimal(n / 10)));
        assert(chars.last() == ((48 + n % 10) as u8) as char);
    }
}

/// What is written in decimal reads back as the same number.
pub proof fn law_decimal_reads_back(n: u64)
    ensures
        valid_utf8(decimal(n as nat)),
        parse_u64(decode_utf8(decimal(n as nat))) == Some(n),
{
    lemma_decimal_shape(n as nat);
    crate::text::law_ascii_text(decimal(n as nat));
    let chars = crate::text::ascii_chars(decimal(n as nat));
    assert forall|i: int| 0 <= i < chars.len() implies is_digit(#[trigger] chars[i]) by {
        let b = decimal(n as nat)[i];
        assert(48 <= b <= 57);
    }
    assert(chars.first() != '+');
    assert(unsigned_part(chars) == chars);
}

/// Different numbers are written differently in hexadecimal.
pub proof fn law_hex_is_unambiguous(a: nat, b: nat)
    requires
        hex(a) == hex(b),
    ensures
        a == b,
    decreases a,
{
    assert(hex(a).last() == hex_digit(a % 16));
    assert(hex(b).last() == hex_digit(b % 16));
    if a >= 16 && b >= 16 {
        assert(hex(a).drop_last() =~= hex(a / 16));
        assert(hex(b).drop_last() =~= hex(b / 16));
        law_hex_is_unambiguous(a / 16, b / 16);
    } else if a >= 16 {
        lemma_hex_not_empty(a / 16);
        assert(hex(a).len() >= 2);
    } else if b >= 16 {
        lemma_hex_not_empty(b / 16);
        assert(hex(b).len() >= 2);
    }
}

proof fn lemma_hex_not_empty(n: nat)
    ensures
        hex(n).len() >= 1,
    decreases n,
{
    if n >= 16 {
        lemma_hex_not_empty(n / 16);
    }
}

/// No number is read from nothing or from a sign alone, a digit is read as itself, and no other
/// single character is a number.
pub proof fn law_numbers_start_with_a_digit(c: char)
    ensures
        parse_u64(Seq::empty()) is None,
        parse_u64(seq![c]) == if 48 <= c as u32 <= 57 {
            Some((c as u32 - 48) as u64)
        } else {
            None
        },
        parse_u64(seq!['+', c]) == if 48 <= c as u32 <= 57 {
            Some((c as u32 - 48) as u64)
        } else {
            None
        },
{
    let one = seq![c];
    let signed = seq!['+', c];
    assert(signed.drop_first() =~= one);
    assert(one.drop_first() =~= Seq::<char>::empty());
    assert(one.drop_last() =~= Seq::<char>::empty());
    assert(decimal_value(one.drop_last()) == 0);
    if !is_digit(c) {
        assert(!is_digit(one[0]));
    }
}

/// One more digit multiplies a number by ten and adds the digit; where that does not fit in 64
/// bits, or where the character is no digit, nothing is read. What is no number stays none.
pub proof fn law_numbers_grow_by_digits(s: Seq<char>, c: char)
    requires
        s.len() > 0,
        s != seq!['+'],
    ensures
        parse_u64(s.push(c)) == match parse_u64(s) {
            Some(n) => if 48 <= c as u32 <= 57 && 10 * n + (c as u32 - 48) <= u64::MAX {
                Some((10 * n + (c as u32 - 48)) as u64)
            } else {
                None
            },
            None => None,
        },
{
    let t = s.push(c);
    let a = unsigned_part(s);
    let b = unsigned_part(t);
    assert(b =~= a.push(c));
    if s.len() == 1 {
        assert(s =~= seq![s[0]]);
        assert(s[0] != '+');
    }
    assert(a.len() > 0);
    assert(b.drop_last() =~= a);
    if all_digits(b) {
        assert forall|i: int| 0 <= i < a.len() implies is_digit(#[trigger] a[i]) by {
            assert(b[i] == a[i]);
        }
        assert(is_digit(b[b.len() - 1]));
    }
    if all_digits(a) && is_digit(c) {
        assert forall|i: int| 0 <= i < b.len() implies is_digit(#[trigger] b[i]) by {
            if i < a.len() {
                assert(b[i] == a[i]);
            }
        }
    }
}

/// Numbers are written with digits only and without leading zeros.
pub proof fn law_decimal_is_canonical(n: nat)
    ensures
        decimal(n).len() > 0,
        forall|i: int| 0 <= i < decimal(n).len() ==> 48 <= #[trigger] decimal(n)[i] <= 57,
        n > 0 ==> decimal(n)[0] != 48,
        n == 0 ==> decimal(n) == seq![48u8],
    decreases n,
{
    lemma_decimal_shape(n);
    if n >= 10 {
        law_decimal_is_canonical(n / 10);
        assert(decimal(n)[0] == decimal(n / 10)[0]);
    }
}

/// Different numbers are written differently in decimal.
pub proof fn law_decimal_is_unambiguous(a: nat, b: nat)
    requires
        decimal(a) == decimal(b),
    ensures
        a == b,
{
    lemma_decimal_shape(a);
    lemma_decimal_shape(b);
}

/// Hexadecimal digits are the sixteen from 0 to f, and a further digit stands for sixteen times
/// the number plus that digit.
pub proof fn law_hex_digits(n: nat, d: nat)
    requires
        d < 16,
    ensures
        hex(d) == seq!["0123456789abcdef"@[d as int]],
        n > 0 ==> hex(16 * n + d) == hex(n).push("0123456789abcdef"@[d as int]),
{
    reveal_strlit("0123456789abcdef");
    assert((16 * n + d) / 16 == n);
    assert((16 * n + d) % 16 == d);
    assert(hex_digit(d) == "0123456789abcdef"@[d as int]);
}

} // verus!
