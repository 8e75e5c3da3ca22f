use balance_overlay::text::{
    char_vec, contains, decimal_text, grouped_text, is_white_space, padded_text, same_text,
    str_to_wide, trim, two_digit_text, utf16_text,
};

#[test]
fn numbers_are_written_in_decimal() {
    for n in [0u64, 9, 10, 99, 100, 12345, u64::MAX] {
        assert_eq!(decimal_text(n), n.to_string());
    }
    assert_eq!(padded_text(7, 3), "  7");
    assert_eq!(padded_text(12345, 3), "12345");
    assert_eq!(padded_text(7, 0), "7");
    assert_eq!(two_digit_text(5), "05");
    assert_eq!(two_digit_text(99), "99");
    assert_eq!(grouped_text(1002003), "1 002 003");
    assert_eq!(grouped_text(999), "999");
}

#[test]
fn white_space_is_what_the_standard_library_says() {
    for code in 0..=0x10FFFFu32 {
        if let Some(c) = char::from_u32(code) {
            assert_eq!(is_white_space(c), c.is_whitespace(), "{code:x}");
        }
    }
}

#[test]
fn trimming_takes_white_space_off_both_ends() {
    for s in ["", " ", "a", " a b ", "\t\u{a0}x\u{3000}\n", "sk-abc", "  \u{2003} "] {
        assert_eq!(trim(s), s.trim());
    }
}

#[test]
fn searching_finds_what_is_there() {
    for (hay, needle) in [
        ("", ""), ("abc", ""), ("", "a"), ("abc", "abc"), ("abc", "abcd"), ("aab", "ab"),
        ("abab", "ba"), ("xyz", "zy"), ("h\u{e9}llo", "\u{e9}l"),
    ] {
        assert_eq!(contains(hay, needle), hay.contains(needle));
    }
    assert!(same_text("a\u{20AC}", "a\u{20AC}"));
    assert!(!same_text("a", "A"));
    assert_eq!(char_vec("a\u{20AC}"), vec!['a', '\u{20AC}']);
}

#[test]
fn utf16_is_what_the_standard_library_says() {
    for s in ["", "Consolas", "\u{20BD} 5", "\u{1F600}x\u{10FFFF}", "\u{FFFF}\u{10000}"] {
        let want: Vec<u16> = s.encode_utf16().collect();
        assert_eq!(utf16_text(s), want);
        let mut wide = want.clone();
        wide.push(0);
        assert_eq!(str_to_wide(s), wide);
    }
}
