//! Template contexts: a row with the fields derived from where it came from.

use vstd::prelude::*;
use crate::row::{Field, FieldView, Fields, Row};

verus! {

/// The name of the field that holds the stem of the source file's name.
pub const FILENAME_FIELD: &'static str = "filename";

/// The name of the field that holds the position of the row in its table,
/// counted from 1.
pub const INDEX_FIELD: &'static str = "i";

/// `fields` with `field` under `name`, unless `fields` has that name already.
pub open spec fn with_default(fields: Fields, name: Seq<char>, field: FieldView) -> Fields {
    if fields.contains_key(name) {
        fields
    } else {
        fields.insert(name, field)
    }
}

/// The context that a row gives for the rendering of its file name: the
/// row's own fields, and the two derived fields where the table has no
/// column of that name.
pub open spec fn augmented(fields: Fields, stem: Seq<char>, index: usize) -> Fields {
    with_default(
        with_default(fields, FILENAME_FIELD@, FieldView::Text(stem)),
        INDEX_FIELD@,
        FieldView::Number(index as u64),
    )
}

/// A copy of `row` with the stem of the source file's name and the position
/// of the row added. A column of the table that has one of the two names
/// is kept: what the table holds is never overwritten.
pub fn augment(row: &Row, stem: &str, index: usize) -> (context: Row)
    ensures
        context@ == augmented(row@, stem@, index),
{
    let mut context = row.clone();
    if !context.contains_key(FILENAME_FIELD) {
        context.insert(FILENAME_FIELD, Field::Text(stem.to_owned()));
    }
    if !context.contains_key(INDEX_FIELD) {
        context.insert(INDEX_FIELD, Field::Number(index as u64));
    }
    context
}

/// Every field of a row is in its context, unchanged: a column named
/// `filename` or `i` keeps what the table holds.
pub proof fn lemma_augment_keeps_fields(
    fields: Fields,
    stem: Seq<char>,
    index: usize,
    name: Seq<char>,
)
    requires
        fields.contains_key(name),
    ensures
        augmented(fields, stem, index).contains_key(name),
        augmented(fields, stem, index)[name] == fields[name],
{
}

/// A context holds the two derived fields where the row has no field of
/// their names.
pub proof fn lemma_augment_adds_derived(fields: Fields, stem: Seq<char>, index: usize)
    ensures
        augmented(fields, stem, index).dom() == fields.dom().insert(FILENAME_FIELD@).insert(
            INDEX_FIELD@,
        ),
        !fields.contains_key(FILENAME_FIELD@) ==> augmented(fields, stem, index)[FILENAME_FIELD@]
            == FieldView::Text(stem),
        !fields.contains_key(INDEX_FIELD@) ==> augmented(fields, stem, index)[INDEX_FIELD@]
            == FieldView::Number(index as u64),
{
    reveal_strlit("filename");
    reveal_strlit("i");
    assert(FILENAME_FIELD@ != INDEX_FIELD@) by {
        assert(FILENAME_FIELD@.len() == 8);
        assert(INDEX_FIELD@.len() == 1);
    }
    assert(augmented(fields, stem, index).dom() =~= fields.dom().insert(FILENAME_FIELD@).insert(
        INDEX_FIELD@,
    ));
}

/// The place of the last `mark` in `name`, or -1 where it has none.
pub open spec fn last_index_of(name: Seq<char>, mark: char) -> int
    decreases name.len(),
{
    if name.len() == 0 {
        -1
    } else if name.last() == mark {
        name.len() - 1
    } else {
        last_index_of(name.drop_last(), mark)
    }
}

/// The last `mark` of a name is a `mark` of it, and none follows it.
pub proof fn lemma_last_index_of(name: Seq<char>, mark: char)
    ensures
        -1 <= last_index_of(name, mark) < name.len(),
        last_index_of(name, mark) >= 0 ==> name[last_index_of(name, mark)] == mark,
        forall|at: int| last_index_of(name, mark) < at < name.len() ==> name[at] != mark,
    decreases name.len(),
{
    if name.len() > 0 && name.last() != mark {
        let front = name.drop_last();
        lemma_last_index_of(front, mark);
        assert forall|at: int| last_index_of(name, mark) < at < name.len() implies name[at]
            != mark by {
            if at < front.len() {
                assert(front[at] == name[at]);
            }
        }
    }
}

/// Where the file's own name begins in `name`: after the last `/`, or at
/// the start where `name` has none.
pub open spec fn leaf_start(name: Seq<char>) -> int {
    last_index_of(name, '/') + 1
}

/// Whether `name` has an extension: a dot in the file's own name that is
/// not its first character. The name `..` has none.
pub open spec fn has_extension(name: Seq<char>) -> bool {
    &&& last_index_of(name, '.') > leaf_start(name)
    &&& !(name.len() == leaf_start(name) + 2 && name[leaf_start(name)] == '.')
}

/// A file's name without its extension. The extension is what follows the
/// last dot of the file's own name, with that dot. A path in front of the
/// file's name stays as it is, and so does a name that ends in `/`.
pub open spec fn stem_of(name: Seq<char>) -> Seq<char> {
    if has_extension(name) {
        name.take(last_index_of(name, '.'))
    } else {
        name
    }
}

/// Strips the extension from the name of the source file: `example.csv`
/// gives `example`.
pub fn file_stem(name: &str) -> (stem: String)
    ensures
        stem@ == stem_of(name@),
{
    let length = name.unicode_len();
    let mut dot: Option<usize> = None;
    let mut slash: Option<usize> = None;
    let mut at: usize = 0;
    while at < length
        invariant
            at <= length,
            length == name@.len(),
            match dot {
                Some(place) => place == last_index_of(name@.take(at as int), '.'),
                None => last_index_of(name@.take(at as int), '.') == -1,
            },
            match slash {
                Some(place) => place == last_index_of(name@.take(at as int), '/'),
                None => last_index_of(name@.take(at as int), '/') == -1,
            },
        decreases length - at,
    {
        proof {
            assert(name@.take(at + 1).drop_last() =~= name@.take(at as int));
        }
        let mark = name.get_char(at);
        if mark == '.' {
            dot = Some(at);
        }
        if mark == '/' {
            slash = Some(at);
        }
        at += 1;
    }
    proof {
        assert(name@.take(length as int) =~= name@);
        lemma_last_index_of(name@, '.');
        lemma_last_index_of(name@, '/');
    }
    let start = match slash {
        Some(place) => place + 1,
        None => 0,
    };
    match dot {
        Some(place) => {
            if place <= start || (length - start == 2 && name.get_char(start) == '.') {
                name.to_owned()
            } else {
                name.substring_char(0, place).to_owned()
            }
        },
        None => name.to_owned(),
    }
}

} // verus!
