//! The engine end to end: the documented scenarios, the ordering and
//! determinism of search output, all-or-nothing aggregation, the error
//! variants and their messages, and the small text helpers.

use goldfinch::aggregate::{assemble_store, FetchResponse};
use goldfinch::contains_substring;
use goldfinch::errors::FetchError;
use goldfinch::parse::parse_secret;
use goldfinch::record::{SecretRecord, SecretStore};
use goldfinch::render::render_line;
use goldfinch::search::{search_keys, LabelMode};
use goldfinch::text::usize_to_string;
use goldfinch::value::value_to_string;

fn rec(name: &str, payload: &str) -> SecretRecord {
    parse_secret(name.to_string(), payload).expect("payload should parse")
}

fn store_of(items: &[(&str, &str)]) -> SecretStore {
    let mut store = SecretStore::new();
    for (name, payload) in items {
        store.insert(rec(name, payload));
    }
    store
}

#[test]
fn test_scenario_single_key_match() {
    let store = store_of(&[("app-config", r#"{"api_key": "abc123", "db_password": "secret123"}"#)]);
    let matches = search_keys(&store, "db", LabelMode::Qualified).unwrap();
    assert_eq!(matches.len(), 1);
    assert_eq!(matches[0].key, "app-config/db_password");
    assert_eq!(matches[0].value, "secret123");
}

#[test]
fn test_scenario_two_secret_level_matches() {
    let store = store_of(&[
        ("my-app-config", r#"{"api_key": "abc123", "db_password": "secret123"}"#),
        ("my-app-urls", r#"{"prod_db_url": "u1", "staging_db_url": "u2"}"#),
    ]);
    let matches = search_keys(&store, "app", LabelMode::Qualified).unwrap();
    // both identifiers contain "app"; no key does
    assert_eq!(matches.len(), 2);
    assert_eq!(matches[0].key, "[Secret] my-app-config");
    assert_eq!(matches[0].value, "2 keys");
    assert_eq!(matches[1].key, "[Secret] my-app-urls");
    assert_eq!(matches[1].value, "2 keys");
}

#[test]
fn test_scenario_no_matches() {
    let store = store_of(&[("single", r#"{"port": 5432}"#)]);
    let err = search_keys(&store, "xyz", LabelMode::Qualified).unwrap_err();
    assert_eq!(err.pattern, "xyz");
    assert_eq!(err.message(), "No secrets or keys found matching pattern 'xyz'");
}

#[test]
fn test_scenario_fetch_failure_discards_successes() {
    let results = vec![
        ("s1".to_string(), FetchResponse::Payload(r#"{"a": 1}"#.to_string())),
        ("s2".to_string(), FetchResponse::Failed("network error".to_string())),
    ];
    let err = assemble_store(results).unwrap_err();
    assert_eq!(err.identifier, "s2");
    assert!(matches!(err.error, FetchError::FetchFailed(_)));
    assert_eq!(err.message(), "Failed to fetch secret 's2': network error");
}

#[test]
fn test_scenario_array_rendered_as_one_string() {
    let secret = rec("t", r#"{"tags": ["prod","important"]}"#);
    assert_eq!(value_to_string(&secret.entries[0].1), r#"["prod","important"]"#);
}

#[test]
fn test_search_output_ordering() {
    // inserted out of identifier order; every identifier and key matches the
    // empty pattern
    let store = store_of(&[
        ("beta", r#"{"zz": 1, "aa": 2}"#),
        ("alpha", r#"{"k": 3}"#),
        ("gamma", r#"{"m": 4}"#),
    ]);
    let matches = search_keys(&store, "", LabelMode::Qualified).unwrap();
    let keys: Vec<&str> = matches.iter().map(|kv| kv.key.as_str()).collect();
    assert_eq!(
        keys,
        vec![
            "[Secret] alpha",
            "alpha/k",
            "[Secret] beta",
            "beta/aa",
            "beta/zz",
            "[Secret] gamma",
            "gamma/m",
        ]
    );
}

#[test]
fn test_search_is_deterministic() {
    let store = store_of(&[
        ("one", r#"{"x": 1, "y": "two"}"#),
        ("two", r#"{"y": null}"#),
    ]);
    let first = search_keys(&store, "o", LabelMode::Qualified).unwrap();
    let second = search_keys(&store, "o", LabelMode::Qualified).unwrap();
    assert_eq!(first.len(), second.len());
    for (a, b) in first.iter().zip(second.iter()) {
        assert_eq!(a.key, b.key);
        assert_eq!(a.value, b.value);
    }
}

#[test]
fn test_search_bare_label_mode() {
    let store = store_of(&[("cfg", r#"{"db_password": "s"}"#)]);
    let matches = search_keys(&store, "db", LabelMode::Bare).unwrap();
    assert_eq!(matches.len(), 1);
    assert_eq!(matches[0].key, "db_password");
}

#[test]
fn test_aggregate_success_sorted_store() {
    let results = vec![
        ("zeta".to_string(), FetchResponse::Payload(r#"{"z": 1}"#.to_string())),
        ("alpha".to_string(), FetchResponse::Payload(r#"{"a": 2}"#.to_string())),
    ];
    let store = assemble_store(results).unwrap();
    assert_eq!(store.len(), 2);
    assert_eq!(store.records[0].name, "alpha");
    assert_eq!(store.records[1].name, "zeta");
}

#[test]
fn test_aggregate_duplicate_identifier_overwrites() {
    let results = vec![
        ("same".to_string(), FetchResponse::Payload(r#"{"old": 1}"#.to_string())),
        ("same".to_string(), FetchResponse::Payload(r#"{"new": 2}"#.to_string())),
    ];
    let store = assemble_store(results).unwrap();
    assert_eq!(store.len(), 1);
    assert_eq!(store.records[0].entries.len(), 1);
    assert_eq!(store.records[0].entries[0].0, "new");
}

#[test]
fn test_aggregate_not_textual() {
    let results = vec![("s1".to_string(), FetchResponse::NoText)];
    let err = assemble_store(results).unwrap_err();
    assert_eq!(err.identifier, "s1");
    assert!(matches!(err.error, FetchError::PayloadNotTextual));
    assert_eq!(
        err.message(),
        "Failed to fetch secret 's1': Secret does not contain a string value"
    );
}

#[test]
fn test_aggregate_not_parseable() {
    let results = vec![("s1".to_string(), FetchResponse::Payload("{oops".to_string()))];
    let err = assemble_store(results).unwrap_err();
    assert!(matches!(err.error, FetchError::PayloadNotParseable));
    assert_eq!(
        err.error.message(),
        "Secret value is not valid JSON"
    );
}

#[test]
fn test_aggregate_not_an_object() {
    let results = vec![("s1".to_string(), FetchResponse::Payload("[1, 2]".to_string()))];
    let err = assemble_store(results).unwrap_err();
    assert!(matches!(err.error, FetchError::PayloadNotAnObject));
    assert_eq!(
        err.error.message(),
        "Secret value is not a JSON object with key-value pairs"
    );
}

#[test]
fn test_aggregate_first_failure_wins() {
    let results = vec![
        ("a".to_string(), FetchResponse::Payload(r#"{"k": 1}"#.to_string())),
        ("b".to_string(), FetchResponse::Failed("first".to_string())),
        ("c".to_string(), FetchResponse::Failed("second".to_string())),
    ];
    let err = assemble_store(results).unwrap_err();
    assert_eq!(err.identifier, "b");
}

#[test]
fn test_aggregate_empty_input() {
    let store = assemble_store(Vec::new()).unwrap();
    assert_eq!(store.len(), 0);
}

#[test]
fn test_contains_substring_cases() {
    assert!(contains_substring("staging_db_url", "db_url"));
    assert!(contains_substring("anything", ""));
    assert!(contains_substring("", ""));
    assert!(!contains_substring("", "a"));
    assert!(!contains_substring("api_key", "API"));
    assert!(!contains_substring("short", "much longer pattern"));
    assert!(contains_substring("abc", "abc"));
    assert!(!contains_substring("abab", "abba"));
}

#[test]
fn test_usize_rendering() {
    assert_eq!(usize_to_string(0), "0");
    assert_eq!(usize_to_string(9), "9");
    assert_eq!(usize_to_string(10), "10");
    assert_eq!(usize_to_string(12345), "12345");
}

#[test]
fn test_render_line() {
    let store = store_of(&[("cfg", r#"{"port": 5432}"#)]);
    let matches = search_keys(&store, "port", LabelMode::Qualified).unwrap();
    assert_eq!(render_line(&matches[0]), "cfg/port: 5432");
}

#[test]
fn test_string_values_never_reescaped() {
    // the payload holds the JSON-escaped form; the rendered text is the
    // exact original string, and serializing it again reproduces the payload
    // fragment
    let secret = rec("t", r#"{"k": "a\"b\\c"}"#);
    let rendered = value_to_string(&secret.entries[0].1);
    assert_eq!(rendered, "a\"b\\c");
    let reserialized = serde_json::to_string(&rendered).unwrap();
    assert_eq!(reserialized, r#""a\"b\\c""#);
}

#[test]
fn test_canonical_array_rendering_normalizes_whitespace() {
    // the parsed composite renders canonically, not as the input text
    let secret = rec("t", r#"{"k": [1,  2 ,3]}"#);
    assert_eq!(value_to_string(&secret.entries[0].1), "[1,2,3]");
}

#[test]
fn test_record_keys_sorted_on_parse() {
    let secret = rec("t", r#"{"zebra": 1, "apple": 2, "mango": 3}"#);
    let keys: Vec<&str> = secret.entries.iter().map(|e| e.0.as_str()).collect();
    assert_eq!(keys, vec!["apple", "mango", "zebra"]);
}

#[test]
fn test_empty_pattern_matches_everything() {
    let store = store_of(&[("a", r#"{"k": 1}"#), ("b", "{}")]);
    let matches = search_keys(&store, "", LabelMode::Qualified).unwrap();
    // secret-level for both, key-level for the one key
    assert_eq!(matches.len(), 3);
    assert_eq!(matches[1].key, "a/k");
    assert_eq!(matches[2].key, "[Secret] b");
    assert_eq!(matches[2].value, "0 keys");
}
