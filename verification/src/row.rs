//! Rows: the fields of one record, keyed by column name.
//!
//! A row is kept as the JSON object that the template engine reads. To the
//! proofs it is a map from names to fields.

use vstd::prelude::*;

verus! {

/// `serde_json::Map`, the keyed collection that holds a row's fields.
#[verifier::external_type_specification]
#[verifier::external_body]
#[verifier::reject_recursive_types(K)]
#[verifier::reject_recursive_types(V)]
pub struct ExJsonMap<K, V>(serde_json::Map<K, V>);

/// `serde_json::Value`, the type of the values in a `serde_json::Map`.
#[verifier::external_type_specification]
#[verifier::external_body]
pub struct ExJsonValue(serde_json::Value);

/// What can be stored under a name in a row.
#[derive(Debug, PartialEq, Eq)]
pub enum Field {
    /// A cell of the table, or any other text.
    Text(String),
    /// A whole number, such as the position of a row in its table.
    Number(u64),
}

/// A `Field` as the contracts see it.
pub enum FieldView {
    Text(Seq<char>),
    Number(u64),
}

impl View for Field {
    type V = FieldView;

    open spec fn view(&self) -> FieldView {
        match self {
            Field::Text(text) => FieldView::Text(text@),
            Field::Number(number) => FieldView::Number(*number),
        }
    }
}

/// A row as the contracts see it: what is stored under each name.
pub type Fields = Map<Seq<char>, FieldView>;

/// The fields of a JSON object that was filled through this module: each
/// key, with the text or the number stored under it.
pub uninterp spec fn object_fields(object: serde_json::Map<String, serde_json::Value>) -> Fields;

/// Calls `serde_json::Map::new`, which makes an object without fields.
#[verifier::external_body]
fn object_new() -> (object: serde_json::Map<String, serde_json::Value>)
    ensures
        object_fields(object) == Fields::empty(),
{
    serde_json::Map::new()
}

/// Calls `serde_json::Map::insert`, with a JSON string for a text and a JSON
/// number for a number. The object then holds `value` under `key`, in place
/// of what `key` had before, and every other field as it was.
#[verifier::external_body]
fn object_insert(
    object: &mut serde_json::Map<String, serde_json::Value>,
    key: &str,
    value: Field,
)
    ensures
        object_fields(*final(object)) == object_fields(*old(object)).insert(key@, value@),
{
    let json = match value {
        Field::Text(text) => serde_json::Value::String(text),
        Field::Number(number) => serde_json::Value::from(number),
    };
    object.insert(key.to_owned(), json);
}

/// Calls `serde_json::Map::get`, and copies the JSON string or number that it
/// finds into a `Field`. The result is what the object holds under `key`, or
/// `None` where it holds nothing there.
#[verifier::external_body]
fn object_get(object: &serde_json::Map<String, serde_json::Value>, key: &str) -> (found: Option<
    Field,
>)
    ensures
        found.is_some() == object_fields(*object).contains_key(key@),
        found matches Some(field) ==> field@ == object_fields(*object)[key@],
{
    match object.get(key) {
        Some(serde_json::Value::String(text)) => Some(Field::Text(text.clone())),
        Some(serde_json::Value::Number(number)) => number.as_u64().map(Field::Number),
        _ => None,
    }
}

/// Calls `serde_json::Map::clone`. The copy holds the same fields.
#[verifier::external_body]
fn object_clone(object: &serde_json::Map<String, serde_json::Value>) -> (copy: serde_json::Map<
    String,
    serde_json::Value,
>)
    ensures
        object_fields(copy) == object_fields(*object),
{
    object.clone()
}

/// One record of a table, mapped onto the table's header: each column's
/// name with the record's cell in that column. A template context is a row
/// too, with the derived fields added.
#[derive(Debug, PartialEq)]
pub struct Row {
    fields: serde_json::Map<String, serde_json::Value>,
}

impl View for Row {
    type V = Fields;

    closed spec fn view(&self) -> Fields {
        object_fields(self.fields)
    }
}

impl Clone for Row {
    fn clone(&self) -> (copy: Row)
        ensures
            copy@ == self@,
    {
        Row { fields: object_clone(&self.fields) }
    }
}

impl Row {
    /// A row without fields.
    pub fn new() -> (row: Row)
        ensures
            row@ == Fields::empty(),
    {
        Row { fields: object_new() }
    }

    /// Stores `value` under `key`. A field that `key` had before is replaced.
    pub fn insert(&mut self, key: &str, value: Field)
        ensures
            final(self)@ == old(self)@.insert(key@, value@),
    {
        object_insert(&mut self.fields, key, value);
    }

    /// The field stored under `key`, if there is one.
    pub fn get(&self, key: &str) -> (found: Option<Field>)
        ensures
            found.is_some() == self@.contains_key(key@),
            found matches Some(field) ==> field@ == self@[key@],
    {
        object_get(&self.fields, key)
    }

    /// Whether a field is stored under `key`.
    pub fn contains_key(&self, key: &str) -> (present: bool)
        ensures
            present == self@.contains_key(key@),
    {
        self.get(key).is_some()
    }

    /// The JSON object that the template engine reads this row from.
    pub(crate) fn as_object(&self) -> (object: &serde_json::Map<String, serde_json::Value>)
        ensures
            object_fields(*object) == self@,
    {
        &self.fields
    }
}

} // verus!
