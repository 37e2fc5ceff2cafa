use steam_cmd::digits::{decimal_string, parse_usize};
use steam_cmd::text::{split_spaces, trim_ws};

#[test]
fn decimal_rendering_exact_values() {
    assert_eq!(decimal_string(0), "0");
    assert_eq!(decimal_string(7), "7");
    assert_eq!(decimal_string(10), "10");
    assert_eq!(decimal_string(294100), "294100");
    assert_eq!(decimal_string(1631756268), "1631756268");
    assert_eq!(decimal_string(usize::MAX), usize::MAX.to_string());
}

#[test]
fn parse_accepts_plain_digit_strings() {
    assert_eq!(parse_usize("0"), Some(0));
    assert_eq!(parse_usize("0042"), Some(42));
    assert_eq!(parse_usize("1631756268"), Some(1631756268));
    assert_eq!(parse_usize(&usize::MAX.to_string()), Some(usize::MAX));
}

#[test]
fn parse_rejects_empty_signs_and_overflow() {
    assert_eq!(parse_usize(""), None);
    assert_eq!(parse_usize("+5"), None);
    assert_eq!(parse_usize("-5"), None);
    assert_eq!(parse_usize("12a"), None);
    assert_eq!(parse_usize(" 12"), None);
    assert_eq!(parse_usize("99999999999999999999999999999999"), None);
}

#[test]
fn parse_and_render_round_trip() {
    for n in [0usize, 1, 9, 10, 99, 100, 4096, 1631756268] {
        assert_eq!(parse_usize(&decimal_string(n)), Some(n));
    }
}

#[test]
fn trim_removes_edge_whitespace_only() {
    assert_eq!(trim_ws("\t item \r\n"), "item");
    assert_eq!(trim_ws("item"), "item");
    assert_eq!(trim_ws("a b"), "a b");
    assert_eq!(trim_ws("  "), "");
}

#[test]
fn split_keeps_empty_tokens() {
    assert_eq!(split_spaces("a b"), vec!["a", "b"]);
    assert_eq!(split_spaces("a  b"), vec!["a", "", "b"]);
    assert_eq!(split_spaces(""), vec![""]);
    assert_eq!(split_spaces(" a "), vec!["", "a", ""]);
}
