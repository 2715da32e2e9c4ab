//! Tests for the shared text utilities: decimal parsing and rendering,
//! searching, tokenisation, line splitting and trimming.

use lsport::text::{
    after_last_colon, lines_of, parse_u16, parse_u32, split_whitespace_of, str_contains, str_eq,
    trim_of, u64_to_string,
};

#[test]
fn test_u64_to_string_renders_decimal() {
    assert_eq!(u64_to_string(0), "0");
    assert_eq!(u64_to_string(7), "7");
    assert_eq!(u64_to_string(1024), "1024");
    assert_eq!(u64_to_string(u64::MAX), "18446744073709551615");
}

#[test]
fn test_parse_u16_grammar() {
    assert_eq!(parse_u16("22"), Some(22));
    assert_eq!(parse_u16("+22"), Some(22)); // a leading plus is accepted
    assert_eq!(parse_u16("0022"), Some(22));
    assert_eq!(parse_u16("65535"), Some(65535));
    assert_eq!(parse_u16("65536"), None);
    assert_eq!(parse_u16(""), None);
    assert_eq!(parse_u16("+"), None);
    assert_eq!(parse_u16("2x"), None);
    assert_eq!(parse_u16("-1"), None);
}

#[test]
fn test_parse_u32_overflow() {
    assert_eq!(parse_u32("4294967295"), Some(u32::MAX));
    assert_eq!(parse_u32("4294967296"), None);
    assert_eq!(parse_u32("99999999999999999999"), None);
}

#[test]
fn test_str_contains_and_eq() {
    assert!(str_contains("hello world", "o w"));
    assert!(str_contains("hello", ""));
    assert!(!str_contains("hello", "world"));
    assert!(str_eq("abc", "abc"));
    assert!(!str_eq("abc", "abd"));
}

#[test]
fn test_split_whitespace_matches_std() {
    let toks = split_whitespace_of("  a\tbb   ccc \n");
    let expected: Vec<&str> = "  a\tbb   ccc \n".split_whitespace().collect();
    assert_eq!(toks.len(), expected.len());
    for (t, e) in toks.iter().zip(expected.iter()) {
        assert_eq!(t, e);
    }
}

#[test]
fn test_lines_matches_std() {
    let text = "one\r\ntwo\n\nfour";
    let lines = lines_of(text);
    let expected: Vec<&str> = text.lines().collect();
    assert_eq!(lines.len(), expected.len());
    for (l, e) in lines.iter().zip(expected.iter()) {
        assert_eq!(l, e);
    }
}

#[test]
fn test_trim_matches_std() {
    assert_eq!(trim_of("  Linux\n"), "Linux");
    assert_eq!(trim_of("\t \r\n"), "");
    assert_eq!(trim_of("no-trim"), "no-trim");
}

#[test]
fn test_after_last_colon() {
    assert_eq!(after_last_colon("*:5353"), "5353");
    assert_eq!(after_last_colon("a:b:c"), "c");
    assert_eq!(after_last_colon("nocolon"), "nocolon");
}
