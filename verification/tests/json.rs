//! JSON values and their text.

use codexl::json::{
    bool_field, json_array, json_number, json_object, json_text, new_entries, new_items, push_item,
    put, Json,
};
use codexl::json_text::{json_from_value, parse_json, print_json, value_from_json};

fn parsed(text: &str) -> Json {
    parse_json(text).expect("valid JSON")
}

#[test]
fn fields_are_found_by_name() {
    let value = parsed(r#"{"a": "x", "b": true, "n": 7, "list": [1, "two"], "o": {}}"#);
    assert_eq!(value.get_str("a"), Some("x"));
    assert_eq!(value.get_str("b"), None);
    assert_eq!(value.get("b").and_then(|v| v.as_bool()), Some(true));
    assert_eq!(value.get("n").and_then(|v| v.as_u64()), Some(7));
    assert_eq!(value.get_array("list").map(|items| items.len()), Some(2));
    assert!(value.get_array("a").is_none());
    assert!(value.get("o").expect("object").is_object());
    assert!(value.get("missing").is_none());
    assert!(parsed("[1]").get("a").is_none());
    assert!(!parsed("[1]").is_object());
}

#[test]
fn the_later_of_two_entries_with_one_name_counts() {
    let value = parsed(r#"{"a": 1, "a": 2}"#);
    assert_eq!(value.get("a").and_then(|v| v.as_u64()), Some(2));
    let mut entries = new_entries();
    put(&mut entries, "a", json_number(1));
    put(&mut entries, "a", json_number(2));
    let built = json_object(entries);
    assert_eq!(built.get("a").and_then(|v| v.as_u64()), Some(2));
    assert_eq!(print_json(built).expect("text").text, "{\n  \"a\": 2\n}\n");
}

#[test]
fn whole_numbers_that_are_not_negative_are_read_as_u64() {
    assert_eq!(parsed("18446744073709551615").as_u64(), Some(u64::MAX));
    assert_eq!(parsed("0").as_u64(), Some(0));
    assert_eq!(parsed("-1").as_u64(), None);
    assert_eq!(parsed("1.0").as_u64(), None);
    assert_eq!(parsed("\"1\"").as_u64(), None);
}

#[test]
fn a_truth_value_that_is_missing_is_false() {
    let value = parsed(r#"{"yes": true, "no": false, "text": "true"}"#);
    assert!(bool_field(&value, "yes"));
    assert!(!bool_field(&value, "no"));
    assert!(!bool_field(&value, "text"));
    assert!(!bool_field(&value, "missing"));
}

#[test]
fn text_that_is_no_json_is_refused_with_the_message_of_the_parser() {
    let expected = serde_json::from_str::<serde_json::Value>("{").unwrap_err().to_string();
    assert_eq!(parse_json("{").unwrap_err(), expected);
    assert!(parse_json("").is_err());
    assert!(parse_json("{} x").is_err());
}

#[test]
fn printed_text_is_indented_and_ends_a_line() {
    let mut items = new_items();
    push_item(&mut items, json_text("x\"y"));
    push_item(&mut items, Json::Null);
    let mut entries = new_entries();
    put(&mut entries, "list", json_array(items));
    put(&mut entries, "flag", Json::Bool(false));
    let printed = print_json(json_object(entries)).expect("text");
    assert_eq!(
        printed.text,
        "{\n  \"flag\": false,\n  \"list\": [\n    \"x\\\"y\",\n    null\n  ]\n}\n"
    );
}

#[test]
fn printed_text_reads_back() {
    let text = r#"{"a": [1, -2, "three", {"b": null}], "c": {"d": [true, []]}}"#;
    let printed = print_json(parsed(text)).expect("text");
    assert_eq!(parsed(&printed.text), printed.value);
}

#[test]
fn values_go_both_ways() {
    let text = r#"{"a":[1,2.5,"x"],"b":{"c":null,"d":false}}"#;
    let value: serde_json::Value = serde_json::from_str(text).expect("value");
    let again = value_from_json(json_from_value(value.clone()));
    assert_eq!(again, value);
}
