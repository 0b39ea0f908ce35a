use i12377_api::text::{
    chars_of, i64_to_string, parse_i64, parse_u16, parse_u32, parse_u64, same_text,
    string_from_chars, trimmed, u64_to_string,
};

#[test]
fn decimal_formatting_matches_display() {
    for n in [0i64, 7, -7, 10, 81, -9, 1000, i64::MAX, i64::MIN] {
        assert_eq!(i64_to_string(n), n.to_string());
    }
    for n in [0u64, 9, 10, 65535, u64::MAX] {
        assert_eq!(u64_to_string(n), n.to_string());
    }
}

#[test]
fn unsigned_parsing_follows_from_str() {
    assert_eq!(parse_u16("8080"), Some(8080));
    assert_eq!(parse_u16("+8080"), Some(8080));
    assert_eq!(parse_u16("65535"), Some(65535));
    assert_eq!(parse_u16("65536"), None);
    assert_eq!(parse_u16(""), None);
    assert_eq!(parse_u16("+"), None);
    assert_eq!(parse_u16("-1"), None);
    assert_eq!(parse_u16(" 80"), None);
    assert_eq!(parse_u16("0080"), Some(80));
    assert_eq!(parse_u32("4294967295"), Some(u32::MAX));
    assert_eq!(parse_u32("4294967296"), None);
    assert_eq!(parse_u64("18446744073709551615"), Some(u64::MAX));
    assert_eq!(parse_u64("18446744073709551616"), None);
    assert_eq!(parse_u64("99999999999999999999999"), None);
}

#[test]
fn signed_parsing_follows_from_str() {
    for s in ["0", "-0", "+5", "-5", "1000", "3104", "-9223372036854775808", "9223372036854775807"] {
        assert_eq!(parse_i64(s), s.parse::<i64>().ok(), "{s}");
    }
    for s in ["", "-", "+", "--1", "1e3", "9223372036854775808", "-9223372036854775809", "12a"] {
        assert_eq!(parse_i64(s), None, "{s}");
    }
}

#[test]
fn trimming_follows_str_trim() {
    for s in ["", "  ", " a ", "\tH026\n", "\u{3000}code\u{a0}", "a b", "\u{2003}x"] {
        assert_eq!(trimmed(s), s.trim());
    }
}

#[test]
fn char_conversions_round_trip() {
    let v = chars_of("a×？b");
    assert_eq!(v, vec!['a', '×', '？', 'b']);
    assert_eq!(string_from_chars(&v), "a×？b");
    assert!(same_text("abc", "abc"));
    assert!(!same_text("abc", "abd"));
    assert!(!same_text("abc", "ab"));
}
