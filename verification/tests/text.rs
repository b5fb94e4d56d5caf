use mc_client::text::{
    str_eq_ignore_ascii_case, str_lex_less, to_hex_lower, u64_to_decimal, replace_str,
};

#[test]
fn decimal_notation() {
    assert_eq!(u64_to_decimal(0), "0");
    assert_eq!(u64_to_decimal(7), "7");
    assert_eq!(u64_to_decimal(1024), "1024");
    assert_eq!(u64_to_decimal(u64::MAX), u64::MAX.to_string());
}

#[test]
fn hex_notation() {
    assert_eq!(to_hex_lower(&[]), "");
    assert_eq!(to_hex_lower(&[0x00, 0x0f, 0xbe, 0xef]), "000fbeef");
}

#[test]
fn ascii_case_insensitive_equality() {
    assert!(str_eq_ignore_ascii_case("AbC", "aBc"));
    assert!(!str_eq_ignore_ascii_case("abc", "abcd"));
    assert!(!str_eq_ignore_ascii_case("É", "é"));
}

#[test]
fn lexicographic_order() {
    assert!(str_lex_less("2021-01-01", "2022-01-01"));
    assert!(!str_lex_less("b", "a"));
    assert!(str_lex_less("a", "ab"));
    assert!(!str_lex_less("a", "a"));
}

#[test]
fn replacement_is_left_to_right_without_overlap() {
    assert_eq!(replace_str("natives-${arch}", "${arch}", "64"), "natives-64");
    assert_eq!(replace_str("aaa", "aa", "b"), "ba");
    assert_eq!(replace_str("none", "${arch}", "64"), "none");
}
