use sbasic::numerals::{i32_to_chars, parse_i32_chars, parse_u32_chars};

fn chars(s: &str) -> Vec<char> {
    s.chars().collect()
}

#[test]
fn signed_literals_parse_exactly_within_range() {
    assert_eq!(parse_i32_chars(&chars("42")), Some(42));
    assert_eq!(parse_i32_chars(&chars("+5")), Some(5));
    assert_eq!(parse_i32_chars(&chars("-5")), Some(-5));
    assert_eq!(parse_i32_chars(&chars("007")), Some(7));
    assert_eq!(parse_i32_chars(&chars("0")), Some(0));
    assert_eq!(parse_i32_chars(&chars("2147483647")), Some(i32::MAX));
    assert_eq!(parse_i32_chars(&chars("-2147483648")), Some(i32::MIN));
    assert_eq!(parse_i32_chars(&chars("2147483648")), None);
    assert_eq!(parse_i32_chars(&chars("-2147483649")), None);
    assert_eq!(parse_i32_chars(&chars("")), None);
    assert_eq!(parse_i32_chars(&chars("+")), None);
    assert_eq!(parse_i32_chars(&chars("-")), None);
    assert_eq!(parse_i32_chars(&chars("1a")), None);
    assert_eq!(parse_i32_chars(&chars("1 2")), None);
    assert_eq!(parse_i32_chars(&chars("--1")), None);
}

#[test]
fn unsigned_literals_parse_exactly_within_range() {
    assert_eq!(parse_u32_chars(&chars("0")), Some(0));
    assert_eq!(parse_u32_chars(&chars("10")), Some(10));
    assert_eq!(parse_u32_chars(&chars("4294967295")), Some(u32::MAX));
    assert_eq!(parse_u32_chars(&chars("4294967296")), None);
    assert_eq!(parse_u32_chars(&chars("+1")), None);
    assert_eq!(parse_u32_chars(&chars("-1")), None);
    assert_eq!(parse_u32_chars(&chars("")), None);
}

#[test]
fn decimal_printing_is_canonical() {
    assert_eq!(i32_to_chars(0), chars("0"));
    assert_eq!(i32_to_chars(7), chars("7"));
    assert_eq!(i32_to_chars(-7), chars("-7"));
    assert_eq!(i32_to_chars(120406), chars("120406"));
    assert_eq!(i32_to_chars(i32::MAX), chars("2147483647"));
    assert_eq!(i32_to_chars(i32::MIN), chars("-2147483648"));
}

#[test]
fn printing_then_parsing_is_identity() {
    for n in [0, 1, -1, 99, -100, 123456789, i32::MAX, i32::MIN] {
        assert_eq!(parse_i32_chars(&i32_to_chars(n)), Some(n));
    }
}
