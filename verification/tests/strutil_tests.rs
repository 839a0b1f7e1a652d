use world_core::strutil::{cut, pad_left, pad_right, parse_u64, str_contains, str_eq, u64_to_string};

#[test]
fn decimal_printing_has_no_sign_or_leading_zeros() {
    assert_eq!(u64_to_string(0), "0");
    assert_eq!(u64_to_string(7), "7");
    assert_eq!(u64_to_string(1024), "1024");
    assert_eq!(u64_to_string(u64::MAX), "18446744073709551615");
}

#[test]
fn decimal_parsing_inverts_printing() {
    assert_eq!(parse_u64("0"), Some(0));
    assert_eq!(parse_u64("42"), Some(42));
    assert_eq!(parse_u64("007"), Some(7));
    assert_eq!(parse_u64("18446744073709551615"), Some(u64::MAX));
    assert_eq!(parse_u64("18446744073709551616"), None);
    assert_eq!(parse_u64(""), None);
    assert_eq!(parse_u64("12a"), None);
    assert_eq!(parse_u64("-3"), None);
}

#[test]
fn string_helpers_behave() {
    assert!(str_eq("same", "same"));
    assert!(!str_eq("same", "sam"));
    assert_eq!(cut("abcdef", 3), "abc");
    assert_eq!(cut("ab", 3), "ab");
    assert_eq!(pad_left("7", 3), "  7");
    assert_eq!(pad_left("1234", 3), "1234");
    assert_eq!(pad_right("x".to_string(), 4), "x   ");
    assert!(str_contains("time: [color=#787878]", "[color"));
    assert!(!str_contains("plain", "[color"));
    assert!(str_contains("aaab", "aab"));
}
