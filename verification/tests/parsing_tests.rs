//! Parsing one payload text into a record: the valid, invalid, non-object
//! and nested-object cases.

use goldfinch::errors::FetchError;
use goldfinch::parse::parse_secret;
use goldfinch::record::SecretRecord;
use goldfinch::value::value_to_string;

fn has_key(rec: &SecretRecord, key: &str) -> bool {
    rec.entries.iter().any(|e| e.0 == key)
}

#[test]
fn aws_test_fetch_secret_parsing_valid_json() {
    let json_string = r#"{"key1": "value1", "key2": "value2"}"#;
    match parse_secret("test-secret".to_string(), json_string) {
        Ok(rec) => {
            assert_eq!(rec.entries.len(), 2);
            assert!(has_key(&rec, "key1"));
            assert!(has_key(&rec, "key2"));
        }
        Err(_) => panic!("Should be an object"),
    }
}

#[test]
fn aws_test_fetch_secret_parsing_invalid_json() {
    let invalid_json = "not valid json";
    let result = parse_secret("test-secret".to_string(), invalid_json);
    assert!(result.is_err());
    assert!(matches!(result, Err(FetchError::PayloadNotParseable)));
}

#[test]
fn aws_test_fetch_secret_parsing_non_object() {
    // Array instead of object
    let json_string = r#"["item1", "item2"]"#;
    match parse_secret("test-secret".to_string(), json_string) {
        Ok(_) => panic!("Should not be an object"),
        Err(e) => assert!(matches!(e, FetchError::PayloadNotAnObject)),
    }
}

#[test]
fn test_fetch_secret_parsing_nested_object() {
    let json_string = r#"{"outer": {"inner": "value"}}"#;
    match parse_secret("test-secret".to_string(), json_string) {
        Ok(rec) => {
            assert_eq!(rec.entries.len(), 1);
            assert!(has_key(&rec, "outer"));
            assert_eq!(value_to_string(&rec.entries[0].1), "{\"inner\":\"value\"}");
        }
        Err(_) => panic!("Should be an object"),
    }
}

#[test]
fn main_test_fetch_secret_parsing_valid_json() {
    let json_string = r#"{"key1": "value1", "key2": "value2"}"#;
    match parse_secret("test-secret".to_string(), json_string) {
        Ok(rec) => {
            assert_eq!(rec.entries.len(), 2);
            assert!(has_key(&rec, "key1"));
            assert!(has_key(&rec, "key2"));
        }
        Err(_) => panic!("Should be an object"),
    }
}

#[test]
fn main_test_fetch_secret_parsing_invalid_json() {
    let invalid_json = "not valid json";
    let result = parse_secret("test-secret".to_string(), invalid_json);
    assert!(result.is_err());
}

#[test]
fn main_test_fetch_secret_parsing_non_object() {
    let json_string = r#"["item1", "item2"]"#;
    match parse_secret("test-secret".to_string(), json_string) {
        Ok(_) => panic!("Should not be an object"),
        Err(_) => {}
    }
}
