use csv_render::row::{Field, Row};

fn text(value: &str) -> Field {
    Field::Text(value.to_string())
}

#[test]
fn new_row_has_no_fields() {
    let row = Row::new();
    assert_eq!(row.get("foo"), None);
    assert!(!row.contains_key("foo"));
}

#[test]
fn insert_stores_a_text_under_its_key() {
    let mut row = Row::new();
    row.insert("foo", text("1"));
    assert_eq!(row.get("foo"), Some(text("1")));
    assert!(row.contains_key("foo"));
    assert_eq!(row.get("bar"), None);
}

#[test]
fn insert_stores_a_number_under_its_key() {
    let mut row = Row::new();
    row.insert("i", Field::Number(7));
    assert_eq!(row.get("i"), Some(Field::Number(7)));
}

#[test]
fn insert_replaces_the_field_of_the_same_key() {
    let mut row = Row::new();
    row.insert("foo", text("1"));
    row.insert("bar", text("x"));
    row.insert("foo", text("2"));
    assert_eq!(row.get("foo"), Some(text("2")));
    assert_eq!(row.get("bar"), Some(text("x")));
}

#[test]
fn clone_holds_the_same_fields_and_is_independent() {
    let mut row = Row::new();
    row.insert("foo", text("1"));
    let mut copy = row.clone();
    assert_eq!(copy, row);
    copy.insert("foo", text("2"));
    assert_eq!(row.get("foo"), Some(text("1")));
    assert_eq!(copy.get("foo"), Some(text("2")));
}
