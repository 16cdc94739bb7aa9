use name_merger::parse_names;
use name_merger::parse_input;

fn names_of(text: &str) -> Vec<String> {
    parse_names(text).expect("text should parse")
}

#[test]
fn parses_flat_array_of_named_objects() {
    assert_eq!(names_of(r#"[{"name":"Alan"},{"name":"Sam"}]"#), vec!["Alan", "Sam"]);
}

#[test]
fn parses_empty_array() {
    assert_eq!(names_of("[]"), Vec::<String>::new());
    assert_eq!(names_of("  [ ]  "), Vec::<String>::new());
}

#[test]
fn parses_with_whitespace() {
    let text = " [\n  { \"name\" : \"Alan\" } ,\n  { \"name\" : \"Sam\" }\n] ";
    assert_eq!(names_of(text), vec!["Alan", "Sam"]);
}

#[test]
fn ignores_extra_members() {
    let text = r#"[{"age": 31, "name": "Alan", "tags": [1, -2.5e3, {"deep": null}], "ok": true, "no": false}]"#;
    assert_eq!(names_of(text), vec!["Alan"]);
}

#[test]
fn decodes_string_escapes() {
    let text = r#"[{"name":"A\"B\\C\/D\n\tA"}]"#;
    assert_eq!(names_of(text), vec!["A\"B\\C/D\n\tA"]);
}

#[test]
fn decodes_surrogate_pairs() {
    let text = r#"[{"name":"😀"}]"#;
    assert_eq!(names_of(text), vec!["\u{1F600}"]);
}

#[test]
fn preserves_exact_case_of_names() {
    assert_eq!(names_of(r#"[{"name":"Foo"},{"name":"foo"}]"#), vec!["Foo", "foo"]);
}

#[test]
fn rejects_bare_number() {
    assert!(parse_names("5").is_err());
}

#[test]
fn rejects_object_missing_name() {
    assert!(parse_names(r#"[{}]"#).is_err());
    assert!(parse_names(r#"[{"age": 3}]"#).is_err());
}

#[test]
fn rejects_non_string_name() {
    assert!(parse_names(r#"[{"name": 5}]"#).is_err());
    assert!(parse_names(r#"[{"name": ["x"]}]"#).is_err());
}

#[test]
fn rejects_duplicate_name_member() {
    assert!(parse_names(r#"[{"name":"a","name":"b"}]"#).is_err());
}

#[test]
fn rejects_malformed_json() {
    assert!(parse_names("").is_err());
    assert!(parse_names("[").is_err());
    assert!(parse_names(r#"[{"name":"a"},]"#).is_err());
    assert!(parse_names(r#"[{"name":"a"}] x"#).is_err());
    assert!(parse_names(r#"[{"name":"a}]"#).is_err());
    assert!(parse_names(r#"[{"name":"\uD800"}]"#).is_err());
    assert!(parse_names(r#"[{"name":"a", "n": 01}]"#).is_err());
    assert!(parse_names("[{\"name\":\"a\tb\"}]").is_err());
    assert!(parse_names(r#"{"name":"a"}"#).is_err());
}

#[test]
fn agrees_with_reference_parser_on_acceptance() {
    let cases = [
        r#"[{"name":"Alan"},{"name":"Sam"}]"#,
        r#"[{"name":"a","age":1.5e-2}]"#,
        r#"[]"#,
        r#"[{"name":"a"},]"#,
        r#"[{"name":"a"#,
        r#"5"#,
        r#"[{"name":"\uD800"}]"#,
    ];
    for text in cases {
        let ours = parse_names(text).is_ok();
        let reference = serde_json::from_str::<serde_json::Value>(text).is_ok_and(|v| {
            v.as_array().is_some_and(|items| {
                items.iter().all(|item| {
                    item.as_object().is_some_and(|o| o.get("name").is_some_and(|n| n.is_string()))
                })
            })
        });
        assert_eq!(ours, reference, "disagreement on {text}");
    }
}

#[test]
fn parse_input_wraps_entries_in_order() {
    let input = parse_input(r#"[{"name":"z"},{"name":"a"}]"#).expect("should parse");
    let names: Vec<&str> = input.get().iter().map(|e| e.name.as_str()).collect();
    assert_eq!(names, vec!["z", "a"]);
    assert!(parse_input("nope").is_err());
}
