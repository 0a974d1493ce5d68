use rlr::text::{decimal_string, join_strs, split_str, trim_str};

#[test]
fn trims_unicode_white_space() {
    assert_eq!(trim_str(" \t a b \r\n"), "a b");
    assert_eq!(trim_str("\u{2003}x\u{85}"), "x");
    assert_eq!(trim_str("   "), "");
}

#[test]
fn splits_and_joins() {
    assert_eq!(split_str("a,,b", ','), vec!["a".to_string(), String::new(), "b".to_string()]);
    assert_eq!(split_str("", ','), vec![String::new()]);
    let parts = vec!["x".to_string(), "y".to_string()];
    assert_eq!(join_strs(&parts, "; "), "x; y");
    assert_eq!(join_strs(&Vec::new(), ","), "");
}

#[test]
fn decimal_digits() {
    assert_eq!(decimal_string(0), "0");
    assert_eq!(decimal_string(10), "10");
    assert_eq!(decimal_string(1234567), "1234567");
}
