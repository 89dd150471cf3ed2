use conway::decimal::decimal_text;
use conway::{Operator, ParseError, Rule, RuntimeFault, Value};

#[test]
fn negation_of_integers() {
    assert_eq!(-Value::Int(41), Value::Int(-41));
    assert_eq!(-Value::Int(-41), Value::Int(41));
    assert_eq!(-Value::Int(0), Value::Int(0));
    assert_eq!(-Value::Int(i32::MAX), Value::Int(i32::MIN + 1));
}

#[test]
fn negation_of_booleans() {
    assert_eq!(!Value::Boolean(true), Value::Boolean(false));
    assert_eq!(!Value::Boolean(false), Value::Boolean(true));
}

#[test]
fn addition_of_integers() {
    assert_eq!(Value::Int(2) + Value::Int(3), Value::Int(5));
    assert_eq!(Value::Int(-2) + Value::Int(2), Value::Int(0));
    assert_eq!(Value::Int(i32::MAX) + Value::Int(i32::MIN), Value::Int(-1));
}

#[test]
fn clone_is_equal() {
    for value in [
        Value::Str("text".to_string()),
        Value::Int(-3),
        Value::Boolean(true),
        Value::Nothing,
        Value::Nil,
    ] {
        assert_eq!(value.clone(), value);
    }
}

#[test]
fn nil_and_nothing_differ() {
    assert_ne!(Value::Nil, Value::Nothing);
}

#[test]
fn text_of_values() {
    assert_eq!(Value::Int(0).to_text(), "0");
    assert_eq!(Value::Int(7).to_text(), "7");
    assert_eq!(Value::Int(1285).to_text(), "1285");
    assert_eq!(Value::Int(-41).to_text(), "-41");
    assert_eq!(Value::Int(i32::MAX).to_text(), "2147483647");
    assert_eq!(Value::Int(i32::MIN).to_text(), "-2147483648");
    assert_eq!(Value::Boolean(true).to_text(), "true");
    assert_eq!(Value::Boolean(false).to_text(), "false");
    assert_eq!(Value::Str("as it is".to_string()).to_text(), "as it is");
    assert_eq!(Value::Str(String::new()).to_text(), "");
    assert_eq!(Value::Nil.to_text(), "Nil");
    assert_eq!(Value::Nothing.to_text(), "Nothing");
}

#[test]
fn decimal_text_of_numbers() {
    assert_eq!(decimal_text(0), "0");
    assert_eq!(decimal_text(9), "9");
    assert_eq!(decimal_text(10), "10");
    assert_eq!(decimal_text(1234567890), "1234567890");
    assert_eq!(decimal_text(u64::MAX), "18446744073709551615");
}

#[test]
fn text_of_a_parse_error() {
    let error = ParseError { rule: Rule::Expr, position: 12 };
    assert_eq!(error.to_text(), "expected Expr at position 12");
    let error = ParseError { rule: Rule::Str, position: 0 };
    assert_eq!(error.to_text(), "expected Str at position 0");
}

#[test]
fn operators_and_faults_compare() {
    assert_eq!(Operator::Minus, Operator::Minus);
    assert_ne!(Operator::Minus, Operator::Plus);
    assert_ne!(RuntimeFault::Overflow, RuntimeFault::OperandMismatch);
}
