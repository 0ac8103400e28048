use std::collections::HashMap;

use da_coordinator::{parse_hashmap, parse_pairs, KvParseError};

#[test]
fn test_parse_hashmap_ok() {
    let input = "key1=VALUE1,key2=value2";
    let output = parse_hashmap(input).unwrap();

    let mut expected = HashMap::new();
    expected.insert("key1".to_string(), "VALUE1".to_string());
    expected.insert("key2".to_string(), "value2".to_string());

    assert_eq!(output, expected);
}

#[test]
fn test_parse_hashmap_empty_value() {
    let input = "key1=,key2=value2";
    let output = parse_hashmap(input).unwrap();

    let mut expected = HashMap::new();
    expected.insert("key1".to_string(), "".to_string());
    expected.insert("key2".to_string(), "value2".to_string());

    assert_eq!(output, expected);
}

#[test]
fn test_parse_hashmap_empty_string() {
    let input = "";
    let output = parse_hashmap(input).unwrap();

    let expected = HashMap::new();

    assert_eq!(output, expected);
}

#[test]
fn test_parse_hashmap_missing_value() {
    let input = "key1,key2=value2";
    let output = parse_hashmap(input);

    assert!(output.is_err());
}

#[test]
fn test_parse_hashmap_missing_key() {
    let input = "=value1,key2=value2";
    let output = parse_hashmap(input);

    assert!(output.is_err());
}

#[test]
fn test_parse_hashmap_no_equals_sign() {
    let input = "key1value1,key2=value2";
    let output = parse_hashmap(input);

    assert!(output.is_err());
}

#[test]
fn test_parse_hashmap_whitespace_key() {
    // A key of only whitespace is rejected, though it is non-empty.
    let output = parse_hashmap(" =value1");
    assert_eq!(output, Err(KvParseError::MalformedPair));
}

#[test]
fn test_parse_hashmap_missing_key_error_kind() {
    let output = parse_hashmap("=value1,key2=value2");
    assert_eq!(output, Err(KvParseError::MissingKey));
}

#[test]
fn test_parse_hashmap_no_equals_error_kind() {
    let output = parse_hashmap("key1value1,key2=value2");
    assert_eq!(output, Err(KvParseError::MalformedPair));
}

#[test]
fn test_parse_hashmap_skips_empty_items() {
    let output = parse_hashmap(",key1=v1,,key2=v2,").unwrap();

    let mut expected = HashMap::new();
    expected.insert("key1".to_string(), "v1".to_string());
    expected.insert("key2".to_string(), "v2".to_string());

    assert_eq!(output, expected);
}

#[test]
fn test_parse_hashmap_later_duplicate_wins() {
    let output = parse_hashmap("key=first,key=second").unwrap();

    let mut expected = HashMap::new();
    expected.insert("key".to_string(), "second".to_string());

    assert_eq!(output, expected);
}

#[test]
fn test_parse_pairs_keeps_order_and_splits_on_first_equals() {
    let output = parse_pairs("b=2,a=x=y").unwrap();
    assert_eq!(
        output,
        vec![
            ("b".to_string(), "2".to_string()),
            ("a".to_string(), "x=y".to_string()),
        ]
    );
}

#[test]
fn test_parse_pairs_key_keeps_surrounding_whitespace() {
    // The key must not be all whitespace, but whitespace around it is kept.
    let output = parse_pairs(" key =v").unwrap();
    assert_eq!(output, vec![(" key ".to_string(), "v".to_string())]);
}
