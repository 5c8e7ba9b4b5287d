use vastline::text::{
    chars_of, contains, decimal, eq_ignore_ascii_case, is_whitespace, parse_u64, trim,
};

#[test]
fn trims_unicode_white_space() {
    assert_eq!(trim("  a b \n"), "a b");
    assert_eq!(trim("\u{3000}x\u{a0}"), "x");
    assert_eq!(trim(""), "");
    assert_eq!(trim(" \t "), "");
    for s in ["x", " y ", "\u{2028}z\u{85}", "a\u{200b}"] {
        assert_eq!(trim(s), s.trim());
    }
}

#[test]
fn white_space_matches_std() {
    for c in ['\t', '\n', '\r', ' ', '\u{85}', '\u{a0}', '\u{1680}', '\u{2000}', '\u{200a}',
        '\u{2028}', '\u{2029}', '\u{202f}', '\u{205f}', '\u{3000}', 'a', '\u{200b}', '\u{feff}', '0']
    {
        assert_eq!(is_whitespace(c), c.is_whitespace(), "{c:?}");
    }
}

#[test]
fn substring_search() {
    assert!(contains("/home/me/bin/vastline --x", "/home/me/bin/vastline"));
    assert!(contains("abc", ""));
    assert!(!contains("ab", "abc"));
    assert!(!contains("abd", "bc"));
}

#[test]
fn ascii_case_insensitive_equality() {
    assert!(eq_ignore_ascii_case("RUNNING", "running"));
    assert!(eq_ignore_ascii_case("Running", "rUNNING"));
    assert!(!eq_ignore_ascii_case("runnin", "running"));
    assert!(!eq_ignore_ascii_case("ÉTÉ", "été"));
}

#[test]
fn decimal_text() {
    assert_eq!(decimal(0), "0");
    assert_eq!(decimal(7), "7");
    assert_eq!(decimal(1234567890), "1234567890");
    assert_eq!(decimal(u64::MAX), u64::MAX.to_string());
}

#[test]
fn parses_like_std() {
    for s in ["10", "+10", "0", "007", "18446744073709551615", "18446744073709551616", "", "+",
        "-1", " 1", "1 ", "1a", "-0"]
    {
        assert_eq!(parse_u64(s), s.parse::<u64>().ok(), "{s:?}");
    }
}

#[test]
fn characters_in_order() {
    assert_eq!(chars_of("aé€"), vec!['a', 'é', '€']);
}

#[test]
fn decimal_text_parses_back() {
    for n in [0u64, 9, 10, 99, 100, 12345, u64::MAX - 1, u64::MAX] {
        assert_eq!(parse_u64(&decimal(n)), Some(n));
    }
}
