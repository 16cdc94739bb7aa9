use core::cmp::Ordering;
use name_merger::Entry;
use name_merger::Input;

#[test]
fn sorting() {
    let entries: Vec<Entry> = [
        "Alan",
        "Alarick",
        "alan",
        "roderick",
        "Sam",
        "Albedo",
    ]
    .map(Entry::from)
    .into();

    let sorted = Input::from(entries).sorted();

    assert_eq!(
        sorted.get(),
        &Vec::from([
            "Alan",
            "alan",
            "Alarick",
            "Albedo",
            "roderick",
            "Sam",
        ].map(Entry::from))
    );
}

#[test]
fn case_insensitive_equality() {
    assert_eq!(Entry::from("Alan"), Entry::from("alan"));
    assert_eq!(Entry::from("ALAN"), Entry::from("alan"));
    assert_eq!(Entry::from(String::from("Sam")), Entry::from("sAM"));
    assert!(Entry::from("Alan") != Entry::from("Alarick"));
    assert!(Entry::from("Alan") != Entry::from("Alan "));
}

#[test]
fn case_insensitive_ordering() {
    assert_eq!(Entry::from("alan").cmp(&Entry::from("ALAN")), Ordering::Equal);
    assert_eq!(Entry::from("Alan").cmp(&Entry::from("alarick")), Ordering::Less);
    assert_eq!(Entry::from("roderick").cmp(&Entry::from("Sam")), Ordering::Less);
    assert_eq!(Entry::from("Sam").cmp(&Entry::from("Albedo")), Ordering::Greater);
    assert_eq!(
        Entry::from("Alan").partial_cmp(&Entry::from("ALBEDO")),
        Some(Ordering::Less)
    );
}

#[test]
fn sorting_is_stable_for_equal_names() {
    let entries: Vec<Entry> = ["b", "A", "a", "B"].map(Entry::from).into();
    let sorted = Input::from(entries).sorted();
    let names: Vec<&str> = sorted.get().iter().map(|e| e.name.as_str()).collect();
    assert_eq!(names, vec!["A", "a", "b", "B"]);
}

#[test]
fn get_preserves_document_order() {
    let entries: Vec<Entry> = ["z", "a", "m"].map(Entry::from).into();
    let input = Input::from(entries);
    let names: Vec<&str> = input.get().iter().map(|e| e.name.as_str()).collect();
    assert_eq!(names, vec!["z", "a", "m"]);
}
