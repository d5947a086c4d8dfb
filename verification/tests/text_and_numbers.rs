use quiche_apps::number::{read_u64, write_decimal, write_hex};
use quiche_apps::text::{
    bytes_eq, bytes_eq_ignoring_case, chars_of, cut, position, push_text, text_eq_ignoring_case,
    trimmed,
};

fn trim_text(s: &str) -> String {
    trimmed(&chars_of(s)).iter().collect()
}

fn read(s: &str) -> Option<u64> {
    read_u64(&chars_of(s))
}

#[test]
fn white_space_is_what_unicode_says() {
    for code in 0..=0x10ffffu32 {
        if let Some(c) = char::from_u32(code) {
            let left = trimmed(&[c, 'x']).len() == 1;
            assert_eq!(left, c.is_whitespace(), "{:x}", code);
        }
    }
}

#[test]
fn trimming_agrees_with_the_standard_library() {
    for s in ["", " ", "a", " a ", "\t\n a b \r", "\u{3000}a\u{2003}", "\u{200b}a"] {
        assert_eq!(trim_text(s), s.trim());
        assert_eq!(trim_text(s.trim()), s.trim());
    }
}

#[test]
fn cutting_at_the_first_mark() {
    let s = chars_of("a=b=c");
    assert_eq!(position(&s, '='), 1);
    assert_eq!(position(&s, 'x'), 5);
    assert_eq!(cut(&s, '='), Some((&['a'][..], &['b', '=', 'c'][..])));
    assert_eq!(cut(&s, 'x'), None);
}

#[test]
fn case_is_ignored_for_ascii_only() {
    assert!(text_eq_ignoring_case(&chars_of("ByTeS"), &chars_of("bytes")));
    assert!(!text_eq_ignoring_case(&chars_of("\u{c9}"), &chars_of("\u{e9}")));
    assert!(!text_eq_ignoring_case(&chars_of("@"), &chars_of("`")));
    assert!(!text_eq_ignoring_case(&chars_of("byte"), &chars_of("bytes")));
    assert!(bytes_eq_ignoring_case(b"Content-LENGTH", b"content-length"));
    assert!(!bytes_eq_ignoring_case(b"[", b"{"));
    assert!(!bytes_eq(b"A", b"a"));
    assert!(bytes_eq(b"", b""));
}

#[test]
fn text_is_appended_as_utf8() {
    let mut out = b"a".to_vec();
    push_text(&mut out, "\u{e9}b");
    assert_eq!(out, "a\u{e9}b".as_bytes());
}

#[test]
fn numbers_agree_with_the_standard_library() {
    for s in [
        "", "0", "7", "+7", "-7", "++7", "+", "007", "12a", " 1", "18446744073709551615",
        "18446744073709551616", "99999999999999999999999", "\u{661}",
    ] {
        assert_eq!(read(s), s.parse::<u64>().ok(), "{:?}", s);
    }
}

#[test]
fn decimals_read_back() {
    for n in [0u64, 9, 10, 19, 100, 12345, u64::MAX] {
        let written = write_decimal(n);
        assert_eq!(written, n.to_string().as_bytes());
        assert_eq!(read(std::str::from_utf8(&written).unwrap()), Some(n));
    }
}

#[test]
fn hexadecimals_are_shortest_and_lower_case() {
    for n in [0u128, 9, 10, 15, 16, 255, 0xdead_beef, u128::MAX] {
        assert_eq!(write_hex(n), format!("{:x}", n));
    }
}
