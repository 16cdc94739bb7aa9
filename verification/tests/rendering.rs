use name_merger::to_json_pretty;
use name_merger::NameMap;

#[test]
fn renders_empty_mapping() {
    let m = NameMap::new();
    assert_eq!(to_json_pretty(&m), "{}");
}

#[test]
fn renders_one_pair() {
    let mut m = NameMap::new();
    m.insert(String::from("Alan"), 7);
    assert_eq!(to_json_pretty(&m), "{\n  \"Alan\": 7\n}");
}

#[test]
fn renders_pairs_in_insertion_order() {
    let mut m = NameMap::new();
    m.insert(String::from("z"), 999);
    m.insert(String::from("a"), 10);
    assert_eq!(to_json_pretty(&m), "{\n  \"z\": 999,\n  \"a\": 10\n}");
}

#[test]
fn renders_escaped_keys() {
    let mut m = NameMap::new();
    m.insert(String::from("a\"b\\c\nd\u{1}"), 1);
    assert_eq!(to_json_pretty(&m), "{\n  \"a\\\"b\\\\c\\nd\\u0001\": 1\n}");
}

#[test]
fn matches_reference_pretty_printer() {
    let mut m = NameMap::new();
    m.insert(String::from("Alan"), 7);
    m.insert(String::from("Sam \"quoted\"\n"), 999);
    let mut reference = serde_json::Map::new();
    reference.insert(String::from("Alan"), serde_json::Value::from(7u32));
    reference.insert(String::from("Sam \"quoted\"\n"), serde_json::Value::from(999u32));
    let expected = serde_json::to_string_pretty(&serde_json::Value::Object(reference)).unwrap();
    assert_eq!(to_json_pretty(&m), expected);
}

#[test]
fn round_trips_through_a_json_parser() {
    let mut m = NameMap::new();
    m.insert(String::from("Alan"), 7);
    m.insert(String::from("alan"), 999);
    m.insert(String::from("Sam\t\\"), 1);
    m.insert(String::from("Alan"), 12);
    let text = to_json_pretty(&m);
    let parsed: serde_json::Value = serde_json::from_str(&text).unwrap();
    let object = parsed.as_object().unwrap();
    assert_eq!(object.len(), 3);
    assert_eq!(object.get("Alan").and_then(|v| v.as_u64()), Some(12));
    assert_eq!(object.get("alan").and_then(|v| v.as_u64()), Some(999));
    assert_eq!(object.get("Sam\t\\").and_then(|v| v.as_u64()), Some(1));
}
