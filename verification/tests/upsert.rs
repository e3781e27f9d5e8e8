use shelfkeeper::catalog::{
    find_or_create, find_or_create_by_name, find_or_create_by_name_and_sort,
    find_or_create_language, BookLinkRow, Catalog, EntityRow,
};
use shelfkeeper::companion::StoreError;
use shelfkeeper::models::{BookMetadata, ExistingBookData, UpdateChanges, UpsertResult};
use shelfkeeper::outside::format_timestamp_micro;
use shelfkeeper::upsert::{
    add_book_to_db, book_format, comment_text, decimal, determine_changes,
    get_existing_book_data, same_content, upsert_book, DEFAULT_SERIES_INDEX,
};

const NOW: &str = "2024-05-01 10:00:00.000000";
const LATER: &str = "2024-06-01 12:00:00.000000";

fn gatsby() -> BookMetadata {
    BookMetadata {
        title: "The Great Gatsby".to_string(),
        author: "F. Scott Fitzgerald".to_string(),
        path: "/tmp/in/book.epub".to_string(),
        description: None,
        language: None,
        isbn: None,
        rights: None,
        subtitle: None,
        series: None,
        series_index: None,
        publisher: None,
        pubdate: None,
        file_size: 1234,
    }
}

fn created(r: Result<UpsertResult, StoreError>) -> (i64, String) {
    match r {
        Ok(UpsertResult::Created { book_id, book_path }) => (book_id, book_path),
        _ => panic!("expected a creation"),
    }
}

#[test]
fn importing_a_new_book_creates_it() {
    let mut catalog = Catalog::new();
    let (id, path) = created(upsert_book(&mut catalog, &gatsby(), false, false, "uuid-1", NOW));
    assert_eq!(id, 1);
    assert_eq!(path, "F. Scott Fitzgerald/The Great Gatsby (1)");
    assert_eq!(catalog.books.len(), 1);
    let book = &catalog.books[0];
    assert_eq!(book.id, 1);
    assert_eq!(book.title, "The Great Gatsby");
    assert_eq!(book.sort, "Great Gatsby, The");
    assert_eq!(book.author_sort, "Fitzgerald, F. Scott");
    assert_eq!(book.path, "F. Scott Fitzgerald/The Great Gatsby (1)");
    assert_eq!(book.uuid, "uuid-1");
    assert_eq!(book.timestamp.as_deref(), Some(NOW));
    assert_eq!(book.pubdate.as_deref(), Some(NOW));
    assert_eq!(book.last_modified.as_deref(), Some(NOW));
    assert_eq!(book.series_index, DEFAULT_SERIES_INDEX);
    assert_eq!(f64::from_bits(book.series_index), 1.0);
    assert!(!book.has_cover);
    assert_eq!(catalog.authors.len(), 1);
    assert_eq!(catalog.authors[0].name, "F. Scott Fitzgerald");
    assert_eq!(catalog.authors[0].sort.as_deref(), Some("Fitzgerald, F. Scott"));
    assert_eq!(catalog.books_authors_link.len(), 1);
    assert_eq!(catalog.books_authors_link[0].book, 1);
    assert_eq!(catalog.books_authors_link[0].item, catalog.authors[0].id);
    assert_eq!(catalog.data.len(), 1);
    assert_eq!(catalog.data[0].label, "EPUB");
    assert_eq!(catalog.data[0].text, "The Great Gatsby - F. Scott Fitzgerald");
    assert_eq!(catalog.data[0].size, 1234);
    assert!(catalog.comments.is_empty());
    assert!(catalog.identifiers.is_empty());
    assert!(catalog.publishers.is_empty());
    assert!(catalog.series.is_empty());
    assert!(catalog.languages.is_empty());
}

#[test]
fn a_full_record_fills_every_dependent_table() {
    let mut catalog = Catalog::new();
    let mut m = gatsby();
    m.path = "/in/gatsby.kepub.epub".to_string();
    m.description = Some("A novel.".to_string());
    m.subtitle = Some("A Jazz Age Story".to_string());
    m.rights = Some("Public domain".to_string());
    m.language = Some("eng".to_string());
    m.isbn = Some("9780743273565".to_string());
    m.publisher = Some("Scribner".to_string());
    m.series = Some("Classics".to_string());
    m.series_index = Some(2.5f64.to_bits());
    m.pubdate = Some(0);
    let (id, _) = created(upsert_book(&mut catalog, &m, false, false, "u", NOW));
    assert_eq!(catalog.books[0].pubdate.as_deref(), Some("1970-01-01 00:00:00.000000"));
    assert_eq!(catalog.books[0].timestamp.as_deref(), Some(NOW));
    assert_eq!(f64::from_bits(catalog.books[0].series_index), 2.5);
    assert_eq!(catalog.data[0].label, "KEPUB");
    assert_eq!(catalog.comments.len(), 1);
    assert_eq!(
        catalog.comments[0].text,
        "<h3>A Jazz Age Story</h3>\nA novel.\n<p>Rights: Public domain</p>"
    );
    assert_eq!(catalog.comments[0].book, id);
    assert_eq!(catalog.identifiers.len(), 1);
    assert_eq!(catalog.identifiers[0].label, "ISBN");
    assert_eq!(catalog.identifiers[0].text, "9780743273565");
    assert_eq!(catalog.languages[0].name, "eng");
    assert_eq!(catalog.books_languages_link.len(), 1);
    assert_eq!(catalog.publishers[0].name, "Scribner");
    assert_eq!(catalog.publishers[0].sort, None);
    assert_eq!(catalog.books_publishers_link.len(), 1);
    assert_eq!(catalog.series[0].name, "Classics");
    assert_eq!(catalog.series[0].sort.as_deref(), Some("Classics"));
    assert_eq!(catalog.books_series_link.len(), 1);
    assert_eq!(catalog.books_series_link[0].item, catalog.series[0].id);
}

#[test]
fn importing_the_same_file_again_is_a_no_op() {
    let mut catalog = Catalog::new();
    let (id, path) = created(upsert_book(&mut catalog, &gatsby(), false, false, "u", NOW));
    let before = format!("{:?}", catalog);
    match upsert_book(&mut catalog, &gatsby(), true, false, "other", LATER) {
        Ok(UpsertResult::NoChanges { book_id, book_path }) => {
            assert_eq!(book_id, id);
            assert_eq!(book_path, path);
        }
        _ => panic!("expected no changes"),
    }
    assert_eq!(format!("{:?}", catalog), before);
}

#[test]
fn unchanged_metadata_is_a_no_op_even_when_the_file_differs() {
    let mut catalog = Catalog::new();
    let mut m = gatsby();
    m.pubdate = Some(1_577_934_245_000_000);
    m.publisher = Some("Scribner".to_string());
    let (id, _) = created(upsert_book(&mut catalog, &m, false, false, "u", NOW));
    assert_eq!(catalog.books[0].pubdate.as_deref(), Some("2020-01-02 03:04:05.000000"));
    let before = format!("{:?}", catalog);
    let r = upsert_book(&mut catalog, &m, false, false, "u", LATER);
    assert!(matches!(r, Ok(UpsertResult::NoChanges { book_id, .. }) if book_id == id));
    assert_eq!(format!("{:?}", catalog), before);
}

#[test]
fn changed_fields_update_the_book_and_keep_id_and_path() {
    let mut catalog = Catalog::new();
    let mut m = gatsby();
    m.pubdate = Some(0);
    m.publisher = Some("Scribner".to_string());
    m.series = Some("Classics".to_string());
    let (id, path) = created(upsert_book(&mut catalog, &m, false, false, "u", NOW));
    let mut n = gatsby();
    n.pubdate = Some(0);
    n.publisher = Some("Penguin".to_string());
    n.series = None;
    n.series_index = Some(3.0f64.to_bits());
    match upsert_book(&mut catalog, &n, false, true, "v", LATER) {
        Ok(UpsertResult::Updated { book_id, book_path }) => {
            assert_eq!(book_id, id);
            assert_eq!(book_path, path);
        }
        _ => panic!("expected an update"),
    }
    assert_eq!(catalog.books.len(), 1);
    let book = &catalog.books[0];
    assert_eq!(book.path, path);
    assert_eq!(book.uuid, "u");
    assert_eq!(book.timestamp.as_deref(), Some(NOW));
    assert_eq!(book.last_modified.as_deref(), Some(LATER));
    assert_eq!(book.pubdate.as_deref(), Some("1970-01-01 00:00:00.000000"));
    assert_eq!(f64::from_bits(book.series_index), 3.0);
    let publishers: Vec<&str> = catalog.publishers.iter().map(|p| p.name.as_str()).collect();
    assert_eq!(publishers, vec!["Scribner", "Penguin"]);
    assert_eq!(catalog.books_publishers_link.len(), 1);
    assert_eq!(catalog.books_publishers_link[0].item, catalog.publishers[1].id);
    assert!(catalog.books_series_link.is_empty());
    assert_eq!(catalog.series.len(), 1);
}

#[test]
fn an_unchanged_column_is_not_written() {
    let mut catalog = Catalog::new();
    let mut m = gatsby();
    m.pubdate = Some(0);
    created(upsert_book(&mut catalog, &m, false, false, "u", NOW));
    catalog.books[0].series_index = 7.0f64.to_bits();
    let mut n = gatsby();
    n.pubdate = Some(1_000_000);
    let r = upsert_book(&mut catalog, &n, false, false, "u", LATER);
    assert!(matches!(r, Ok(UpsertResult::Updated { .. })));
    assert_eq!(catalog.books[0].pubdate.as_deref(), Some("1970-01-01 00:00:01.000000"));
    assert_eq!(f64::from_bits(catalog.books[0].series_index), 7.0);
    assert_eq!(catalog.books[0].last_modified.as_deref(), Some(LATER));
}

#[test]
fn a_second_book_gets_the_next_id_and_shares_the_author() {
    let mut catalog = Catalog::new();
    created(upsert_book(&mut catalog, &gatsby(), false, false, "u", NOW));
    let mut m = gatsby();
    m.title = "Tender Is the Night".to_string();
    let (id, path) = created(upsert_book(&mut catalog, &m, false, false, "v", NOW));
    assert_eq!(id, 2);
    assert_eq!(path, "F. Scott Fitzgerald/Tender Is the Night (2)");
    assert_eq!(catalog.authors.len(), 1);
    assert_eq!(catalog.books_authors_link.len(), 2);
    let link: BookLinkRow = catalog.books_authors_link[1];
    assert_eq!((link.book, link.item), (2, 1));
}

#[test]
fn an_unknown_extension_is_refused_and_nothing_is_written() {
    let mut catalog = Catalog::new();
    let mut m = gatsby();
    m.path = "/in/book.pdf".to_string();
    let r = upsert_book(&mut catalog, &m, false, false, "u", NOW);
    assert!(matches!(r, Err(StoreError::UnsupportedExtension)));
    assert!(catalog.books.is_empty());
    assert!(catalog.authors.is_empty());
}

#[test]
fn a_date_outside_the_calendar_is_refused() {
    let mut catalog = Catalog::new();
    let mut m = gatsby();
    m.pubdate = Some(i64::MAX);
    let r = upsert_book(&mut catalog, &m, false, false, "u", NOW);
    assert!(matches!(r, Err(StoreError::InvalidDate)));
    assert!(catalog.books.is_empty());
}

#[test]
fn formats_follow_the_end_of_the_name() {
    assert_eq!(book_format("a.epub").as_deref(), Some("EPUB"));
    assert_eq!(book_format("a.kepub.epub").as_deref(), Some("KEPUB"));
    assert_eq!(book_format("a.kepub").as_deref(), Some("KEPUB"));
    assert_eq!(book_format("a.EPUB"), None);
    assert_eq!(book_format("a.mobi"), None);
    assert_eq!(book_format(""), None);
    assert_eq!(book_format(".epub").as_deref(), Some("EPUB"));
}

#[test]
fn decimal_writes_numbers() {
    assert_eq!(decimal(0), "0");
    assert_eq!(decimal(7), "7");
    assert_eq!(decimal(10), "10");
    assert_eq!(decimal(1203), "1203");
    assert_eq!(decimal(u64::MAX), "18446744073709551615");
}

#[test]
fn comments_are_assembled_from_what_is_there() {
    let mut m = gatsby();
    assert_eq!(comment_text(&m), None);
    m.rights = Some("CC0".to_string());
    assert_eq!(comment_text(&m).as_deref(), Some("<p>Rights: CC0</p>"));
    m.description = Some("Text".to_string());
    assert_eq!(comment_text(&m).as_deref(), Some("Text\n<p>Rights: CC0</p>"));
    m.rights = None;
    m.subtitle = Some("Sub".to_string());
    assert_eq!(comment_text(&m).as_deref(), Some("<h3>Sub</h3>\nText"));
}

#[test]
fn timestamps_are_written_with_six_digits() {
    assert_eq!(format_timestamp_micro(0).as_deref(), Some("1970-01-01 00:00:00.000000"));
    assert_eq!(
        format_timestamp_micro(1_577_934_245_123_456).as_deref(),
        Some("2020-01-02 03:04:05.123456")
    );
    assert_eq!(format_timestamp_micro(-1).as_deref(), Some("1969-12-31 23:59:59.999999"));
    assert_eq!(format_timestamp_micro(i64::MAX), None);
}

#[test]
fn content_is_compared_by_digest() {
    let a = b"one file".to_vec();
    let b = b"another file".to_vec();
    assert!(same_content(&a, &Some(a.clone())));
    assert!(!same_content(&a, &Some(b)));
    assert!(!same_content(&a, &None));
    assert!(same_content(&Vec::new(), &Some(Vec::new())));
}

#[test]
fn existing_data_reads_dates_and_linked_names() {
    let mut catalog = Catalog::new();
    let mut m = gatsby();
    m.publisher = Some("Scribner".to_string());
    created(upsert_book(&mut catalog, &m, false, false, "u", NOW));
    catalog.books[0].pubdate = Some("2020-01-02 03:04:05.000000+00:00".to_string());
    let data = get_existing_book_data(&catalog, 1).ok().unwrap();
    assert_eq!(data.id, 1);
    assert_eq!(data.path, "F. Scott Fitzgerald/The Great Gatsby (1)");
    assert_eq!(data.pubdate, Some(1_577_934_245_000_000));
    assert_eq!(data.publisher.as_deref(), Some("Scribner"));
    assert_eq!(data.series, None);
    assert_eq!(data.series_index, DEFAULT_SERIES_INDEX);
    catalog.books[0].pubdate = Some("2020-01-02 05:04:05.000000+02:00".to_string());
    assert_eq!(
        get_existing_book_data(&catalog, 1).ok().unwrap().pubdate,
        Some(1_577_934_245_000_000)
    );
    catalog.books[0].pubdate = Some("2020-01-02 03:04:05.250000".to_string());
    assert_eq!(
        get_existing_book_data(&catalog, 1).ok().unwrap().pubdate,
        Some(1_577_934_245_250_000)
    );
    catalog.books[0].pubdate = Some("yesterday".to_string());
    assert_eq!(get_existing_book_data(&catalog, 1).ok().unwrap().pubdate, None);
    catalog.books[0].pubdate = None;
    assert_eq!(get_existing_book_data(&catalog, 1).ok().unwrap().pubdate, None);
    assert!(matches!(
        get_existing_book_data(&catalog, 2),
        Err(StoreError::BookNotFound { id: 2 })
    ));
}

#[test]
fn the_comparator_reports_each_field_on_its_own() {
    let existing = ExistingBookData {
        id: 1,
        path: "p".to_string(),
        pubdate: Some(5),
        series_index: DEFAULT_SERIES_INDEX,
        publisher: Some("A".to_string()),
        series: None,
    };
    let mut m = gatsby();
    m.pubdate = Some(5);
    m.publisher = Some("A".to_string());
    let same = determine_changes(&existing, &m, false);
    assert!(!same.has_any_changes());
    let index = determine_changes(&existing, &m, true);
    assert!(index.series_index_changed && !index.pubdate_changed);
    assert!(index.has_any_changes());
    m.pubdate = None;
    m.publisher = Some("a".to_string());
    m.series = Some("S".to_string());
    let all = determine_changes(&existing, &m, false);
    assert!(all.pubdate_changed && all.publisher_changed && all.series_changed);
    assert!(!all.series_index_changed);
    m.publisher = None;
    assert!(determine_changes(&existing, &m, false).publisher_changed);
    let none = UpdateChanges::default();
    assert!(!none.has_any_changes());
}

#[test]
fn results_answer_for_their_variant() {
    let c = UpsertResult::Created { book_id: 3, book_path: "a/b (3)".to_string() };
    let u = UpsertResult::Updated { book_id: 4, book_path: "a/c (4)".to_string() };
    let n = UpsertResult::NoChanges { book_id: 5, book_path: "a/d (5)".to_string() };
    assert_eq!((c.book_id(), c.book_path(), c.is_update(), c.skip_file_operations()), (3, "a/b (3)", false, false));
    assert_eq!((u.book_id(), u.book_path(), u.is_update(), u.skip_file_operations()), (4, "a/c (4)", true, false));
    assert_eq!((n.book_id(), n.book_path(), n.is_update(), n.skip_file_operations()), (5, "a/d (5)", true, true));
}

#[test]
fn entities_are_found_before_they_are_created() {
    let mut rows: Vec<EntityRow> = Vec::new();
    assert!(matches!(find_or_create_by_name(&mut rows, "Scribner"), Ok(1)));
    assert!(matches!(find_or_create_by_name_and_sort(&mut rows, "Penguin", "penguin"), Ok(2)));
    assert!(matches!(find_or_create(&mut rows, "Scribner", Some("other")), Ok(1)));
    assert_eq!(rows.len(), 2);
    assert_eq!(rows[0].sort, None);
    assert_eq!(rows[1].sort.as_deref(), Some("penguin"));
    rows.remove(0);
    assert!(matches!(find_or_create_by_name(&mut rows, "Scribner"), Ok(3)));
    rows.push(EntityRow { id: i64::MAX, name: "Last".to_string(), sort: None });
    assert!(matches!(find_or_create_by_name(&mut rows, "New"), Err(StoreError::IdsExhausted)));
    assert!(matches!(find_or_create_by_name(&mut rows, "Last"), Ok(i64::MAX)));
    assert_eq!(rows.len(), 3);
    let mut catalog = Catalog::new();
    assert!(matches!(find_or_create_language(&mut catalog, "eng"), Ok(1)));
    assert!(matches!(find_or_create_language(&mut catalog, "fra"), Ok(2)));
    assert!(matches!(find_or_create_language(&mut catalog, "eng"), Ok(1)));
    assert_eq!(catalog.languages.len(), 2);
}

#[test]
fn the_public_import_creates_then_recognises_the_file() {
    let mut catalog = Catalog::new();
    let file = b"epub bytes".to_vec();
    let (id, path) = created(add_book_to_db(&mut catalog, &gatsby(), &file, &None, false));
    assert_eq!(id, 1);
    assert_eq!(catalog.books[0].uuid.len(), 36);
    let r = add_book_to_db(&mut catalog, &gatsby(), &file, &Some(file.clone()), false);
    match r {
        Ok(UpsertResult::NoChanges { book_id, book_path }) => {
            assert_eq!(book_id, id);
            assert_eq!(book_path, path);
        }
        _ => panic!("expected no changes"),
    }
    assert_eq!(catalog.books.len(), 1);
}

#[test]
fn connections_enforce_foreign_keys_by_default() {
    let config = shelfkeeper::models::DatabaseConfig::default();
    assert!(config.enable_foreign_keys);
    assert_eq!(config.busy_timeout_ms, 5000);
}

#[test]
fn an_update_needs_room_only_for_what_it_creates() {
    let mut catalog = Catalog::new();
    let mut m = gatsby();
    m.pubdate = Some(0);
    m.publisher = Some("Scribner".to_string());
    created(upsert_book(&mut catalog, &m, false, false, "u", NOW));
    catalog.publishers[0].id = i64::MAX;
    catalog.books_publishers_link[0].item = i64::MAX;
    catalog.books[0].id = i64::MAX;
    catalog.books_publishers_link[0].book = i64::MAX;
    let mut dated = gatsby();
    dated.pubdate = Some(1_000_000);
    dated.publisher = Some("Scribner".to_string());
    let r = upsert_book(&mut catalog, &dated, false, false, "u", LATER);
    assert!(matches!(r, Ok(UpsertResult::Updated { book_id: i64::MAX, .. })));
    assert_eq!(catalog.books[0].pubdate.as_deref(), Some("1970-01-01 00:00:01.000000"));
    let mut moved = gatsby();
    moved.pubdate = Some(1_000_000);
    moved.publisher = Some("Penguin".to_string());
    let before = catalog.clone();
    let r = upsert_book(&mut catalog, &moved, false, false, "u", LATER);
    assert!(matches!(r, Err(StoreError::IdsExhausted)));
    assert_eq!(catalog, before);
    let mut other = gatsby();
    other.title = "Another".to_string();
    let r = upsert_book(&mut catalog, &other, false, false, "u", LATER);
    assert!(matches!(r, Err(StoreError::IdsExhausted)));
    assert_eq!(catalog, before);
}

#[test]
fn an_unwritable_date_matters_only_where_the_date_changed() {
    let mut catalog = Catalog::new();
    let mut m = gatsby();
    m.pubdate = Some(0);
    created(upsert_book(&mut catalog, &m, false, false, "u", NOW));
    let mut n = gatsby();
    n.pubdate = Some(i64::MAX);
    let before = catalog.clone();
    let r = upsert_book(&mut catalog, &n, false, false, "u", LATER);
    assert!(matches!(r, Err(StoreError::InvalidDate)));
    assert_eq!(catalog, before);
}
