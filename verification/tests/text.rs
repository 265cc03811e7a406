//! Tests of the shared text utilities.

use yay_sys_tray::text::{
    chars_of, sort_strings, str_lex_le, string_of, trim_chars, u32_str, u32_str_pad2, usize_str,
};

#[test]
fn decimal_rendering() {
    assert_eq!(u32_str(0), "0");
    assert_eq!(u32_str(7), "7");
    assert_eq!(u32_str(42), "42");
    assert_eq!(u32_str(100), "100");
    assert_eq!(u32_str(4294967295), "4294967295");
    assert_eq!(usize_str(12345), "12345");
}

#[test]
fn two_digit_padding() {
    assert_eq!(u32_str_pad2(0), "00");
    assert_eq!(u32_str_pad2(9), "09");
    assert_eq!(u32_str_pad2(10), "10");
    assert_eq!(u32_str_pad2(59), "59");
}

#[test]
fn trimming() {
    let v = chars_of("  hello world \t\r\n");
    assert_eq!(string_of(&trim_chars(&v)), "hello world");
    let v = chars_of("   ");
    assert_eq!(string_of(&trim_chars(&v)), "");
}

#[test]
fn lexicographic_order() {
    assert!(str_lex_le("alpha", "beta"));
    assert!(!str_lex_le("beta", "alpha"));
    assert!(str_lex_le("same", "same"));
    assert!(str_lex_le("ab", "abc"));
    assert!(!str_lex_le("abc", "ab"));
    assert!(str_lex_le("", "a"));
}

#[test]
fn sorting_strings() {
    let v = vec!["pear".to_string(), "apple".to_string(), "orange".to_string(), "apple".to_string()];
    let sorted = sort_strings(&v);
    assert_eq!(
        sorted,
        vec!["apple".to_string(), "apple".to_string(), "orange".to_string(), "pear".to_string()]
    );
}
