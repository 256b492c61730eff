use rtml::Attributes;

#[test]
fn new_attributes_are_empty() {
    let all = Attributes::new();
    assert_eq!(all.len(), 0);
    assert_eq!(all.get("class"), None);
    assert_eq!(all.get(""), None);
}

#[test]
fn insert_appends_new_names_in_order() {
    let mut all = Attributes::new();
    all.insert("id".to_string(), "x".to_string());
    all.insert("class".to_string(), "y".to_string());
    all.insert("style".to_string(), "z".to_string());
    assert_eq!(all.len(), 3);
    assert_eq!(all.entry(0), ("id", "x"));
    assert_eq!(all.entry(1), ("class", "y"));
    assert_eq!(all.entry(2), ("style", "z"));
    assert_eq!(all.get("id"), Some("x"));
    assert_eq!(all.get("class"), Some("y"));
    assert_eq!(all.get("style"), Some("z"));
    assert_eq!(all.get("href"), None);
}

#[test]
fn insert_of_a_known_name_replaces_in_place() {
    let mut all = Attributes::new();
    all.insert("id".to_string(), "x".to_string());
    all.insert("class".to_string(), "y".to_string());
    all.insert("id".to_string(), "again".to_string());
    assert_eq!(all.len(), 2);
    assert_eq!(all.entry(0), ("id", "again"));
    assert_eq!(all.entry(1), ("class", "y"));
    assert_eq!(all.get("id"), Some("again"));
}

#[test]
fn names_are_compared_exactly() {
    let mut all = Attributes::new();
    all.insert("Id".to_string(), "upper".to_string());
    all.insert("id".to_string(), "lower".to_string());
    all.insert("id ".to_string(), "spaced".to_string());
    all.insert("".to_string(), "nameless".to_string());
    assert_eq!(all.len(), 4);
    assert_eq!(all.get("Id"), Some("upper"));
    assert_eq!(all.get("id"), Some("lower"));
    assert_eq!(all.get("id "), Some("spaced"));
    assert_eq!(all.get(""), Some("nameless"));
    assert_eq!(all.get("i"), None);
}

#[test]
fn extend_writes_the_other_on_top() {
    let mut base = Attributes::new();
    base.insert("a".to_string(), "1".to_string());
    base.insert("b".to_string(), "2".to_string());
    let mut other = Attributes::new();
    other.insert("c".to_string(), "3".to_string());
    other.insert("a".to_string(), "one".to_string());
    base.extend(&other);
    assert_eq!(base.len(), 3);
    assert_eq!(base.entry(0), ("a", "one"));
    assert_eq!(base.entry(1), ("b", "2"));
    assert_eq!(base.entry(2), ("c", "3"));
    assert_eq!(other.len(), 2);
    assert_eq!(other.entry(0), ("c", "3"));
    assert_eq!(other.entry(1), ("a", "one"));
}

#[test]
fn extend_with_nothing_changes_nothing() {
    let mut base = Attributes::new();
    base.insert("a".to_string(), "1".to_string());
    base.extend(&Attributes::new());
    assert_eq!(base.len(), 1);
    assert_eq!(base.entry(0), ("a", "1"));
    let mut empty = Attributes::new();
    empty.extend(&base);
    assert_eq!(empty.len(), 1);
    assert_eq!(empty.entry(0), ("a", "1"));
}
