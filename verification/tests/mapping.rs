use name_merger::clamp_weight;
use name_merger::draw_weight;
use name_merger::fresh_rng;
use name_merger::include_entries;
use name_merger::merge_document;
use name_merger::parse_input;
use name_merger::NameMap;

#[test]
fn clamp_passes_low_values_through() {
    assert_eq!(clamp_weight(1), 1);
    assert_eq!(clamp_weight(500), 500);
    assert_eq!(clamp_weight(999), 999);
}

#[test]
fn clamp_collapses_high_draws_onto_max() {
    assert_eq!(clamp_weight(1000), 999);
    assert_eq!(clamp_weight(1050), 999);
    assert_eq!(clamp_weight(1099), 999);
}

#[test]
fn drawn_weights_stay_in_range() {
    let mut rng = fresh_rng();
    for _ in 0..10_000 {
        let w = draw_weight(&mut rng);
        assert!((1..=999).contains(&w));
    }
}

#[test]
fn insert_and_get() {
    let mut m = NameMap::new();
    assert_eq!(m.len(), 0);
    m.insert(String::from("Alan"), 7);
    assert_eq!(m.len(), 1);
    assert_eq!(m.get("Alan"), Some(7));
    assert_eq!(m.get("alan"), None);
    assert_eq!(m.get("Sam"), None);
}

#[test]
fn later_insert_of_same_key_wins() {
    let mut m = NameMap::new();
    m.insert(String::from("Foo"), 10);
    m.insert(String::from("Foo"), 20);
    assert_eq!(m.len(), 1);
    assert_eq!(m.get("Foo"), Some(20));
}

#[test]
fn case_distinct_keys_persist_separately() {
    let mut m = NameMap::new();
    m.insert(String::from("Foo"), 10);
    m.insert(String::from("foo"), 20);
    assert_eq!(m.len(), 2);
    assert_eq!(m.get("Foo"), Some(10));
    assert_eq!(m.get("foo"), Some(20));
}

#[test]
fn include_entries_upserts_every_name() {
    let input = parse_input(r#"[{"name":"Alan"},{"name":"Sam"},{"name":"Alan"}]"#).unwrap();
    let mut rng = fresh_rng();
    let mut m = NameMap::new();
    include_entries(&input, &mut rng, &mut m);
    assert_eq!(m.len(), 2);
    assert!((1..=999).contains(&m.get("Alan").unwrap()));
    assert!((1..=999).contains(&m.get("Sam").unwrap()));
}

#[test]
fn later_file_wins_for_exact_key() {
    let mut rng = fresh_rng();
    let mut m = NameMap::new();
    merge_document(r#"[{"name":"Foo"}]"#, &mut rng, &mut m).unwrap();
    merge_document(r#"[{"name":"Foo"}]"#, &mut rng, &mut m).unwrap();
    assert_eq!(m.len(), 1);
    assert!((1..=999).contains(&m.get("Foo").unwrap()));
}

#[test]
fn cross_file_case_variants_stay_distinct() {
    let mut rng = fresh_rng();
    let mut m = NameMap::new();
    merge_document(r#"[{"name":"Foo"}]"#, &mut rng, &mut m).unwrap();
    merge_document(r#"[{"name":"foo"}]"#, &mut rng, &mut m).unwrap();
    assert_eq!(m.len(), 2);
    assert!(m.get("Foo").is_some());
    assert!(m.get("foo").is_some());
}

#[test]
fn merge_document_fails_without_touching_the_mapping() {
    let mut rng = fresh_rng();
    let mut m = NameMap::new();
    merge_document(r#"[{"name":"Alan"}]"#, &mut rng, &mut m).unwrap();
    let before = m.get("Alan");
    assert!(merge_document("not json", &mut rng, &mut m).is_err());
    assert_eq!(m.len(), 1);
    assert_eq!(m.get("Alan"), before);
}
