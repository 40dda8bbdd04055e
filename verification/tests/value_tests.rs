//! Rendering each value variant as display text, through the real parser.

use goldfinch::parse::parse_secret;
use goldfinch::value::{value_to_string, SecretValue};

/// Parses a one-key object whose value is the given JSON text, and hands the
/// parsed value back.
fn val(json_text: &str) -> SecretValue {
    let payload = format!("{{\"k\": {}}}", json_text);
    let rec = parse_secret("t".to_string(), &payload).expect("payload should parse");
    assert_eq!(rec.entries.len(), 1);
    rec.entries.into_iter().next().unwrap().1
}

#[test]
fn commands_test_value_to_string_with_string() {
    let value = val("\"test_value\"");
    assert_eq!(value_to_string(&value), "test_value");
}

#[test]
fn commands_test_value_to_string_with_number() {
    let value = val("42");
    assert_eq!(value_to_string(&value), "42");

    let float_value = val("3.14");
    assert_eq!(value_to_string(&float_value), "3.14");
}

#[test]
fn commands_test_value_to_string_with_boolean() {
    let true_value = val("true");
    assert_eq!(value_to_string(&true_value), "true");

    let false_value = val("false");
    assert_eq!(value_to_string(&false_value), "false");
}

#[test]
fn commands_test_value_to_string_with_null() {
    let value = val("null");
    assert_eq!(value_to_string(&value), "null");
}

#[test]
fn commands_test_value_to_string_with_array() {
    let value = val("[\"a\", \"b\", \"c\"]");
    assert_eq!(value_to_string(&value), "[\"a\",\"b\",\"c\"]");
}

#[test]
fn commands_test_value_to_string_with_object() {
    let value = val("{\"key\": \"value\"}");
    assert_eq!(value_to_string(&value), "{\"key\":\"value\"}");
}

#[test]
fn main_test_value_to_string_with_string() {
    let value = val("\"test_value\"");
    assert_eq!(value_to_string(&value), "test_value");
}

#[test]
fn main_test_value_to_string_with_number() {
    let value = val("42");
    assert_eq!(value_to_string(&value), "42");

    let float_value = val("3.14");
    assert_eq!(value_to_string(&float_value), "3.14");
}

#[test]
fn main_test_value_to_string_with_boolean() {
    let true_value = val("true");
    assert_eq!(value_to_string(&true_value), "true");

    let false_value = val("false");
    assert_eq!(value_to_string(&false_value), "false");
}

#[test]
fn main_test_value_to_string_with_null() {
    let value = val("null");
    assert_eq!(value_to_string(&value), "null");
}

#[test]
fn main_test_value_to_string_with_array() {
    let value = val("[\"a\", \"b\", \"c\"]");
    assert_eq!(value_to_string(&value), "[\"a\",\"b\",\"c\"]");
}

#[test]
fn main_test_value_to_string_with_object() {
    let value = val("{\"key\": \"value\"}");
    assert_eq!(value_to_string(&value), "{\"key\":\"value\"}");
}

#[test]
fn test_value_variants_constructed_directly() {
    assert_eq!(value_to_string(&SecretValue::Text("plain".to_string())), "plain");
    assert_eq!(value_to_string(&SecretValue::Num("7".to_string())), "7");
    assert_eq!(value_to_string(&SecretValue::Bool(true)), "true");
    assert_eq!(value_to_string(&SecretValue::Bool(false)), "false");
    assert_eq!(value_to_string(&SecretValue::Null), "null");
    assert_eq!(value_to_string(&SecretValue::Arr("[1,2]".to_string())), "[1,2]");
    assert_eq!(value_to_string(&SecretValue::Obj("{}".to_string())), "{}");
}
