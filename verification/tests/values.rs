use core::cmp::Ordering;
use sbasic::value_type::{EvalError, ValueType};

fn num(n: i32) -> ValueType {
    ValueType::Number(n)
}

fn text(s: &str) -> ValueType {
    ValueType::Text(String::from(s))
}

#[test]
fn addition_wraps_like_fixed_width_signed_arithmetic() {
    assert!(matches!(num(2).add(&num(3)), Ok(ValueType::Number(5))));
    assert!(matches!(num(i32::MAX).add(&num(1)), Ok(ValueType::Number(i32::MIN))));
    assert!(matches!(num(i32::MIN).sub(&num(1)), Ok(ValueType::Number(i32::MAX))));
    assert!(matches!(num(65536).mul(&num(65536)), Ok(ValueType::Number(0))));
    assert!(matches!(num(i32::MIN).div(&num(-1)), Ok(ValueType::Number(i32::MIN))));
}

#[test]
fn division_truncates_toward_zero() {
    assert!(matches!(num(7).div(&num(2)), Ok(ValueType::Number(3))));
    assert!(matches!(num(-7).div(&num(2)), Ok(ValueType::Number(-3))));
    assert!(matches!(num(7).div(&num(-2)), Ok(ValueType::Number(-3))));
    assert!(matches!(num(-7).div(&num(-2)), Ok(ValueType::Number(3))));
}

#[test]
fn dividing_by_a_zero_valued_number_fails() {
    assert!(matches!(num(5).div(&num(0)), Err(EvalError::DivisionByZero)));
    assert!(matches!(num(5).div(&text("0")), Err(EvalError::DivisionByZero)));
    assert!(matches!(num(0).div(&num(0)), Err(EvalError::DivisionByZero)));
}

#[test]
fn text_concatenation_is_the_only_text_with_text_arithmetic() {
    match text("ab").add(&text("cd")) {
        Ok(ValueType::Text(t)) => assert_eq!(t, "abcd"),
        other => panic!("expected concatenation, got {:?}", other),
    }
    assert!(matches!(text("4").sub(&text("2")), Err(EvalError::TypeError { .. })));
    assert!(matches!(text("4").mul(&text("2")), Err(EvalError::TypeError { .. })));
    assert!(matches!(text("4").div(&text("2")), Err(EvalError::TypeError { .. })));
}

#[test]
fn mixed_text_and_number_coerces_the_text_side() {
    assert!(matches!(text("3").add(&num(4)), Ok(ValueType::Number(7))));
    assert!(matches!(num(4).add(&text("3")), Ok(ValueType::Number(7))));
    assert!(matches!(num(10).sub(&text("3")), Ok(ValueType::Number(7))));
    assert!(matches!(text("10").sub(&num(3)), Ok(ValueType::Number(7))));
    assert!(matches!(num(10).div(&text("2")), Ok(ValueType::Number(5))));
    assert!(matches!(text("-6").mul(&num(2)), Ok(ValueType::Number(-12))));
    assert!(matches!(text("abc").add(&num(3)), Err(EvalError::TypeError { .. })));
    assert!(matches!(num(3).sub(&text("abc")), Err(EvalError::TypeError { .. })));
}

#[test]
fn booleans_take_part_in_no_arithmetic() {
    assert!(matches!(ValueType::Bool(true).add(&num(1)), Err(EvalError::TypeError { .. })));
    assert!(matches!(num(1).mul(&ValueType::Bool(false)), Err(EvalError::TypeError { .. })));
}

#[test]
fn cross_type_numeric_equality_is_symmetric() {
    assert!(matches!(text("3").eq(&num(3)), Ok(true)));
    assert!(matches!(num(3).eq(&text("3")), Ok(true)));
    assert!(matches!(text("4").eq(&num(3)), Ok(false)));
    assert!(matches!(num(3).eq(&text("4")), Ok(false)));
    assert!(matches!(text("abc").eq(&num(3)), Err(EvalError::TypeError { .. })));
    assert!(matches!(num(3).eq(&text("abc")), Err(EvalError::TypeError { .. })));
}

#[test]
fn same_kind_equality_compares_directly() {
    assert!(matches!(text("a").eq(&text("a")), Ok(true)));
    assert!(matches!(text("a").eq(&text("b")), Ok(false)));
    assert!(matches!(num(5).eq(&num(5)), Ok(true)));
    assert!(matches!(ValueType::Bool(true).eq(&ValueType::Bool(true)), Ok(true)));
    assert!(matches!(ValueType::Bool(true).eq(&ValueType::Bool(false)), Ok(false)));
}

#[test]
fn boolean_beside_non_boolean_is_neither_equal_nor_unequal() {
    assert!(matches!(ValueType::Bool(true).eq(&num(1)), Ok(false)));
    assert!(matches!(ValueType::Bool(true).ne(&num(1)), Ok(false)));
    assert!(matches!(num(1).eq(&ValueType::Bool(true)), Ok(false)));
}

#[test]
fn inequality_mirrors_equality_on_comparable_values() {
    assert!(matches!(num(3).ne(&num(4)), Ok(true)));
    assert!(matches!(text("3").ne(&num(3)), Ok(false)));
    assert!(matches!(num(3).ne(&text("abc")), Err(EvalError::TypeError { .. })));
}

#[test]
fn ordering_holds_between_numbers_only() {
    assert!(matches!(num(5).gt(&num(3)), Ok(true)));
    assert!(matches!(num(5).gt(&text("3")), Ok(true)));
    assert!(matches!(text("3").lt(&num(5)), Ok(true)));
    assert!(matches!(num(5).ge(&num(5)), Ok(true)));
    assert!(matches!(num(5).le(&num(4)), Ok(false)));
    assert!(matches!(text("a").gt(&text("b")), Ok(false)));
    assert!(matches!(text("b").gt(&text("a")), Ok(false)));
    assert!(matches!(ValueType::Bool(true).lt(&num(5)), Ok(false)));
    assert!(matches!(num(5).gt(&text("abc")), Err(EvalError::TypeError { .. })));
}

#[test]
fn partial_order_built_from_the_comparisons() {
    assert!(matches!(num(5).partial_cmp(&num(3)), Ok(Some(Ordering::Greater))));
    assert!(matches!(num(3).partial_cmp(&num(5)), Ok(Some(Ordering::Less))));
    assert!(matches!(num(5).partial_cmp(&text("5")), Ok(Some(Ordering::Equal))));
    assert!(matches!(text("a").partial_cmp(&text("b")), Ok(None)));
    assert!(matches!(num(5).partial_cmp(&text("abc")), Err(EvalError::TypeError { .. })));
}

#[test]
fn logical_not_requires_a_boolean() {
    assert!(matches!(ValueType::Bool(true).not(), Ok(ValueType::Bool(false))));
    assert!(matches!(ValueType::Bool(false).not(), Ok(ValueType::Bool(true))));
    assert!(matches!(num(1).not(), Err(EvalError::UnaryTypeError { .. })));
    assert!(matches!(text("t").not(), Err(EvalError::UnaryTypeError { .. })));
}

#[test]
fn negation_requires_a_number_and_wraps() {
    assert!(matches!(num(5).neg(), Ok(ValueType::Number(-5))));
    assert!(matches!(num(i32::MIN).neg(), Ok(ValueType::Number(i32::MIN))));
    assert!(matches!(ValueType::Bool(true).neg(), Err(EvalError::UnaryTypeError { .. })));
    assert!(matches!(text("5").neg(), Err(EvalError::UnaryTypeError { .. })));
}

#[test]
fn textual_forms_for_printing() {
    assert_eq!(num(14).to_text(), "14");
    assert_eq!(num(-102).to_text(), "-102");
    assert_eq!(num(0).to_text(), "0");
    assert_eq!(num(i32::MIN).to_text(), "-2147483648");
    assert_eq!(text("verbatim").to_text(), "verbatim");
    assert_eq!(ValueType::Bool(true).to_text(), "true");
    assert_eq!(ValueType::Bool(false).to_text(), "false");
}
