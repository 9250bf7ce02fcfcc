use domain_info::response::HttpResponse;
use domain_info::strutil::{
    ends_with_char, find_in, parse_u16, split_str, starts_with, str_eq, str_eq_nocase,
};

#[test]
fn split_basic() {
    assert_eq!(split_str("a,b,c", ','), vec!["a", "b", "c"]);
}

#[test]
fn split_keeps_empty_pieces() {
    assert_eq!(split_str(",a,,b,", ','), vec!["", "a", "", "b", ""]);
}

#[test]
fn split_without_separator_is_whole() {
    assert_eq!(split_str("abc", ','), vec!["abc"]);
    assert_eq!(split_str("", ','), vec![""]);
}

#[test]
fn find_first_occurrence() {
    assert_eq!(find_in("a=b=c", '='), Some(1));
    assert_eq!(find_in("abc", '='), None);
}

#[test]
fn parse_u16_accepts_digits_and_plus() {
    assert_eq!(parse_u16("0"), Some(0));
    assert_eq!(parse_u16("65535"), Some(65535));
    assert_eq!(parse_u16("+42"), Some(42));
}

#[test]
fn parse_u16_rejects_malformed_and_overflow() {
    assert_eq!(parse_u16(""), None);
    assert_eq!(parse_u16("+"), None);
    assert_eq!(parse_u16("12a"), None);
    assert_eq!(parse_u16("-1"), None);
    assert_eq!(parse_u16("65536"), None);
    assert_eq!(parse_u16("999999999999"), None);
}

#[test]
fn prefix_and_suffix_tests() {
    assert!(starts_with("http://x", "http://"));
    assert!(!starts_with("https://x", "http://"));
    assert!(starts_with("abc", ""));
    assert!(ends_with_char("k1t", 't'));
    assert!(!ends_with_char("k2", 't'));
    assert!(!ends_with_char("", 't'));
}

#[test]
fn equality_helpers() {
    assert!(str_eq("abc", "abc"));
    assert!(!str_eq("abc", "abd"));
    assert!(str_eq_nocase("X-0-Version", "x-0-version"));
    assert!(!str_eq_nocase("x-0-t", "x-0-v"));
}

#[test]
fn header_lookup_takes_first_match() {
    let r = HttpResponse {
        status: 200,
        headers: vec![
            ("a".to_string(), "1".to_string()),
            ("b".to_string(), "2".to_string()),
            ("B".to_string(), "3".to_string()),
        ],
    };
    assert_eq!(r.header("b"), Some(&"2".to_string()));
    assert_eq!(r.header("A"), Some(&"1".to_string()));
    assert_eq!(r.header("c"), None);
}
