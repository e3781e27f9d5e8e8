use shelfkeeper::validate::{
    validate_column_name, validate_id, validate_table_name, ValidationError,
};

#[test]
fn ids_must_be_positive_and_reasonable() {
    assert_eq!(validate_id(1, "book"), Ok(()));
    assert_eq!(validate_id(i64::MAX / 2, "book"), Ok(()));
    assert_eq!(
        validate_id(0, "book"),
        Err(ValidationError::NonPositiveId { entity_type: "book".to_string(), id: 0 })
    );
    assert_eq!(
        validate_id(-7, "shelf"),
        Err(ValidationError::NonPositiveId { entity_type: "shelf".to_string(), id: -7 })
    );
    assert_eq!(
        validate_id(i64::MAX / 2 + 1, "book"),
        Err(ValidationError::OversizedId { entity_type: "book".to_string(), id: i64::MAX / 2 + 1 })
    );
}

#[test]
fn table_names_come_from_the_known_list() {
    assert_eq!(validate_table_name("books"), Ok(()));
    assert_eq!(validate_table_name("kobo_reading_state"), Ok(()));
    assert_eq!(validate_table_name("book_read_link"), Ok(()));
    assert_eq!(validate_table_name(""), Err(ValidationError::EmptyTableName));
    assert_eq!(
        validate_table_name("books; DROP TABLE books"),
        Err(ValidationError::MalformedTableName { name: "books; DROP TABLE books".to_string() })
    );
    assert_eq!(
        validate_table_name("sqlite_master"),
        Err(ValidationError::UnknownTable { name: "sqlite_master".to_string() })
    );
    assert_eq!(
        validate_table_name("Books"),
        Err(ValidationError::UnknownTable { name: "Books".to_string() })
    );
}

#[test]
fn column_names_are_letters_digits_and_underscores() {
    assert_eq!(validate_column_name("author_sort"), Ok(()));
    assert_eq!(validate_column_name("col2"), Ok(()));
    assert_eq!(validate_column_name("\u{e9}t\u{e9}"), Ok(()));
    assert_eq!(validate_column_name(""), Err(ValidationError::EmptyColumnName));
    assert_eq!(
        validate_column_name("name; --"),
        Err(ValidationError::MalformedColumnName { name: "name; --".to_string() })
    );
    assert_eq!(
        validate_column_name("a b"),
        Err(ValidationError::MalformedColumnName { name: "a b".to_string() })
    );
}
