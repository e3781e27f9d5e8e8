//! Checks on ids and on the names of tables and columns before they are used.
use vstd::prelude::*;
use vstd::string::*;
use crate::text::{chars_of, same_text};

verus! {

/// Whether a character is alphabetic or numeric in Unicode's sense.
pub uninterp spec fn is_alphanumeric(c: char) -> bool;

/// `char::is_alphanumeric`: the answer depends on the character alone, and
/// is the one that the name above stands for.
pub assume_specification[ char::is_alphanumeric ](c: char) -> (b: bool)
    ensures
        b == is_alphanumeric(c),
;

/// Why an id or a name was turned down.
#[derive(Debug, Clone, PartialEq, Eq)]
pub enum ValidationError {
    /// The id is zero or negative.
    NonPositiveId { entity_type: String, id: i64 },
    /// The id is above half of the largest 64-bit integer.
    OversizedId { entity_type: String, id: i64 },
    /// The table name is empty.
    EmptyTableName,
    /// The table name holds something else than letters, digits and `_`.
    MalformedTableName { name: String },
    /// The table name is well formed, but no table of either store has it.
    UnknownTable { name: String },
    /// The column name is empty.
    EmptyColumnName,
    /// The column name holds something else than letters, digits and `_`.
    MalformedColumnName { name: String },
    /// No row of the table has the id.
    MissingRow { table_name: String, entity_type: String, id: i64 },
}

/// The largest id that is taken as reasonable.
pub open spec fn largest_id() -> int {
    i64::MAX / 2
}

/// Accepts an id that is positive and at most half of the largest 64-bit
/// integer.
pub fn validate_id(id: i64, entity_type: &str) -> (r: Result<(), ValidationError>)
    ensures
        r is Ok <==> 0 < id <= largest_id(),
        id <= 0 ==> r is Err && r->Err_0 is NonPositiveId && r->Err_0->NonPositiveId_id == id
            && r->Err_0->NonPositiveId_entity_type@ == entity_type@,
        id > largest_id() ==> r is Err && r->Err_0 is OversizedId && r->Err_0->OversizedId_id == id
            && r->Err_0->OversizedId_entity_type@ == entity_type@,
{
    if id <= 0 {
        return Err(ValidationError::NonPositiveId { entity_type: String::from_str(entity_type), id });
    }
    if id > i64::MAX / 2 {
        return Err(ValidationError::OversizedId { entity_type: String::from_str(entity_type), id });
    }
    Ok(())
}

/// True when every character is a letter, a digit or `_`.
pub open spec fn is_identifier_text(name: Seq<char>) -> bool {
    forall|i: int| 0 <= i < name.len() ==> is_alphanumeric(#[trigger] name[i]) || name[i] == '_'
}

/// The tables of the two stores.
pub open spec fn is_known_table(name: Seq<char>) -> bool {
    name == "books"@ || name == "authors"@ || name == "publishers"@ || name == "tags"@ || name == "series"@ || name == "languages"@ || name == "books_authors_link"@ || name == "books_publishers_link"@ || name == "books_tags_link"@ || name == "books_series_link"@ || name == "books_languages_link"@ || name == "identifiers"@ || name == "comments"@ || name == "data"@ || name == "shelf"@ || name == "book_shelf_link"@ || name == "user"@ || name == "kobo_reading_state"@ || name == "kobo_bookmark"@ || name == "kobo_statistics"@ || name == "kobo_synced_books"@ || name == "book_read_link"@
}

fn identifier_text(chars: &Vec<char>) -> (r: bool)
    ensures
        r == is_identifier_text(chars@),
{
    let mut i: usize = 0;
    while i < chars.len()
        invariant
            i <= chars@.len(),
            forall|j: int| 0 <= j < i ==> is_alphanumeric(#[trigger] chars@[j]) || chars@[j] == '_',
        decreases chars@.len() - i,
    {
        let c = chars[i];
        if !(c.is_alphanumeric() || c == '_') {
            return false;
        }
        i += 1;
    }
    true
}

/// The verdict on a table name, given whether all its characters are
/// letters, digits or `_`.
pub fn table_name_verdict(table_name: &str, well_formed: bool) -> (r: Result<
    (),
    ValidationError,
>)
    ensures
        r is Ok <==> table_name@.len() > 0 && well_formed && is_known_table(table_name@),
        table_name@.len() == 0 ==> r == Err::<(), ValidationError>(
            ValidationError::EmptyTableName,
        ),
        table_name@.len() > 0 && !well_formed ==> r is Err && r->Err_0 is MalformedTableName
            && r->Err_0->MalformedTableName_name@ == table_name@,
        table_name@.len() > 0 && well_formed && !is_known_table(table_name@) ==> r is Err
            && r->Err_0 is UnknownTable && r->Err_0->UnknownTable_name@ == table_name@,
{
    let chars = chars_of(table_name);
    if chars.len() == 0 {
        return Err(ValidationError::EmptyTableName);
    }
    if !well_formed {
        return Err(ValidationError::MalformedTableName { name: String::from_str(table_name) });
    }
    if !(same_text(&chars, "books") || same_text(&chars, "authors") || same_text(&chars, "publishers") || same_text(&chars, "tags") || same_text(&chars, "series") || same_text(&chars, "languages") || same_text(&chars, "books_authors_link") || same_text(&chars, "books_publishers_link") || same_text(&chars, "books_tags_link") || same_text(&chars, "books_series_link") || same_text(&chars, "books_languages_link") || same_text(&chars, "identifiers") || same_text(&chars, "comments") || same_text(&chars, "data") || same_text(&chars, "shelf") || same_text(&chars, "book_shelf_link") || same_text(&chars, "user") || same_text(&chars, "kobo_reading_state") || same_text(&chars, "kobo_bookmark") || same_text(&chars, "kobo_statistics") || same_text(&chars, "kobo_synced_books") || same_text(&chars, "book_read_link")) {
        return Err(ValidationError::UnknownTable { name: String::from_str(table_name) });
    }
    Ok(())
}

/// Accepts the name of a table of either store; nothing else may reach a
/// statement as a table name.
pub fn validate_table_name(table_name: &str) -> (r: Result<(), ValidationError>)
    ensures
        r is Ok <==> table_name@.len() > 0 && is_identifier_text(table_name@) && is_known_table(
            table_name@,
        ),
        table_name@.len() == 0 ==> r == Err::<(), ValidationError>(
            ValidationError::EmptyTableName,
        ),
        table_name@.len() > 0 && !is_identifier_text(table_name@) ==> r is Err
            && r->Err_0 is MalformedTableName && r->Err_0->MalformedTableName_name@
            == table_name@,
        table_name@.len() > 0 && is_identifier_text(table_name@) && !is_known_table(
            table_name@,
        ) ==> r is Err && r->Err_0 is UnknownTable && r->Err_0->UnknownTable_name@
            == table_name@,
{
    let chars = chars_of(table_name);
    let well_formed = identifier_text(&chars);
    table_name_verdict(table_name, well_formed)
}

/// The verdict on a column name, given whether all its characters are
/// letters, digits or `_`.
pub fn column_name_verdict(column_name: &str, well_formed: bool) -> (r: Result<
    (),
    ValidationError,
>)
    ensures
        r is Ok <==> column_name@.len() > 0 && well_formed,
        column_name@.len() == 0 ==> r == Err::<(), ValidationError>(
            ValidationError::EmptyColumnName,
        ),
        column_name@.len() > 0 && !well_formed ==> r is Err && r->Err_0 is MalformedColumnName
            && r->Err_0->MalformedColumnName_name@ == column_name@,
{
    if column_name.unicode_len() == 0 {
        return Err(ValidationError::EmptyColumnName);
    }
    if !well_formed {
        return Err(ValidationError::MalformedColumnName { name: String::from_str(column_name) });
    }
    Ok(())
}

/// Accepts a column name made of letters, digits and `_`.
pub fn validate_column_name(column_name: &str) -> (r: Result<(), ValidationError>)
    ensures
        r is Ok <==> column_name@.len() > 0 && is_identifier_text(column_name@),
        column_name@.len() == 0 ==> r == Err::<(), ValidationError>(
            ValidationError::EmptyColumnName,
        ),
        column_name@.len() > 0 && !is_identifier_text(column_name@) ==> r is Err
            && r->Err_0 is MalformedColumnName && r->Err_0->MalformedColumnName_name@
            == column_name@,
{
    let chars = chars_of(column_name);
    let well_formed = identifier_text(&chars);
    column_name_verdict(column_name, well_formed)
}


/// Checks that a row of a table exists before it is referred to: the table
/// name and the id are validated first, in this order, and then the id is
/// looked for among `ids`, the ids of the table's rows.
pub fn validate_foreign_key(ids: &Vec<i64>, table_name: &str, id: i64, entity_type: &str) -> (r:
    Result<(), ValidationError>)
    ensures
        r is Ok <==> table_name@.len() > 0 && is_identifier_text(table_name@) && is_known_table(
            table_name@,
        ) && 0 < id <= largest_id() && ids@.contains(id),
        r is Err && r->Err_0 is MissingRow <==> table_name@.len() > 0 && is_identifier_text(
            table_name@,
        ) && is_known_table(table_name@) && 0 < id <= largest_id() && !ids@.contains(id),
        r is Err && (r->Err_0 is NonPositiveId || r->Err_0 is OversizedId) <==> table_name@.len() > 0
            && is_identifier_text(table_name@) && is_known_table(table_name@) && !(0 < id
            <= largest_id()),
{
    match validate_table_name(table_name) {
        Ok(_) => {},
        Err(e) => {
            return Err(e);
        },
    }
    match validate_id(id, entity_type) {
        Ok(_) => {},
        Err(e) => {
            return Err(e);
        },
    }
    if !crate::rows::holds(ids, id) {
        return Err(
            ValidationError::MissingRow {
                table_name: String::from_str(table_name),
                entity_type: String::from_str(entity_type),
                id,
            },
        );
    }
    Ok(())
}

} // verus!
