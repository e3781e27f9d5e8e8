use shelfkeeper::catalog::{AttributeRow, BookLinkRow, BookRow, Catalog, DirtiedRow, EntityRow};
use shelfkeeper::companion::{
    ArchivedBookRow, BookmarkRow, Companion, ReadingStateRow, ShelfLinkRow, ShelfRow,
    StatisticsRow, SyncedBookRow,
};
use shelfkeeper::sweep::{
    clean_empty_shelves, cleanup_databases, drop_unlinked, sweep_catalog, sweep_companion,
    sweep_stores, CatalogSweepReport, CompanionSweepReport,
};

const NOW: &str = "2024-05-01 10:00:00.000000";

fn book(id: i64, path: &str) -> BookRow {
    BookRow {
        id,
        title: format!("Title {}", id),
        sort: format!("Title {}", id),
        author_sort: "Doe, John".to_string(),
        timestamp: Some(NOW.to_string()),
        pubdate: Some(NOW.to_string()),
        last_modified: Some(NOW.to_string()),
        path: path.to_string(),
        series_index: 1.0f64.to_bits(),
        uuid: format!("uuid-{}", id),
        has_cover: false,
    }
}

fn entity(id: i64, name: &str) -> EntityRow {
    EntityRow { id, name: name.to_string(), sort: None }
}

fn attribute(book: i64, text: &str) -> AttributeRow {
    AttributeRow { book, label: "EPUB".to_string(), text: text.to_string(), size: 1 }
}

fn shelf(id: i64, name: &str, kobo_sync: bool) -> ShelfRow {
    ShelfRow {
        id,
        name: name.to_string(),
        user_id: 1,
        uuid: format!("s-{}", id),
        is_public: false,
        kobo_sync,
        created: Some(NOW.to_string()),
        last_modified: Some(NOW.to_string()),
    }
}

fn link(id: i64, book_id: i64, shelf: i64, order: i64) -> ShelfLinkRow {
    ShelfLinkRow { id, book_id, shelf, order, date_added: Some(NOW.to_string()) }
}

fn state(id: i64, book_id: i64, current_bookmark: Option<i64>) -> ReadingStateRow {
    ReadingStateRow {
        id,
        user_id: 1,
        book_id,
        current_bookmark,
        last_modified: Some(NOW.to_string()),
        priority_timestamp: Some(NOW.to_string()),
    }
}

fn sample_catalog() -> Catalog {
    let mut c = Catalog::new();
    c.books.push(book(1, "John Doe/Kept (1)"));
    c.books.push(book(2, "Jane Roe/Lost (2)"));
    c.books.push(book(3, "John Doe/Also kept (3)"));
    c.authors.push(entity(1, "John Doe"));
    c.authors.push(entity(2, "Jane Roe"));
    c.publishers.push(entity(1, "Only Lost"));
    c.publishers.push(entity(2, "Unused"));
    c.tags.push(entity(1, "shared"));
    c.languages.push(entity(1, "eng"));
    c.books_authors_link.push(BookLinkRow { book: 1, item: 1 });
    c.books_authors_link.push(BookLinkRow { book: 2, item: 2 });
    c.books_authors_link.push(BookLinkRow { book: 3, item: 1 });
    c.books_publishers_link.push(BookLinkRow { book: 2, item: 1 });
    c.books_tags_link.push(BookLinkRow { book: 2, item: 1 });
    c.books_tags_link.push(BookLinkRow { book: 3, item: 1 });
    c.books_languages_link.push(BookLinkRow { book: 2, item: 1 });
    c.data.push(attribute(1, "one"));
    c.data.push(attribute(2, "two"));
    c.comments.push(attribute(2, "gone"));
    c.identifiers.push(attribute(2, "isbn"));
    c.identifiers.push(attribute(3, "isbn"));
    c
}

fn dirs() -> Vec<String> {
    vec!["John Doe/Kept (1)".to_string(), "John Doe/Also kept (3)".to_string()]
}

const NOTHING: CatalogSweepReport = CatalogSweepReport {
    books: 0,
    dependent_rows: 0,
    authors: 0,
    publishers: 0,
    series: 0,
    tags: 0,
};

#[test]
fn books_without_files_go_with_what_hangs_on_them() {
    let mut c = sample_catalog();
    let report = sweep_catalog(&mut c, &dirs());
    assert_eq!(
        report,
        CatalogSweepReport {
            books: 1,
            dependent_rows: 7,
            authors: 1,
            publishers: 2,
            series: 0,
            tags: 0
        }
    );
    let ids: Vec<i64> = c.books.iter().map(|b| b.id).collect();
    assert_eq!(ids, vec![1, 3]);
    let authors: Vec<&str> = c.authors.iter().map(|a| a.name.as_str()).collect();
    assert_eq!(authors, vec!["John Doe"]);
    assert!(c.publishers.is_empty());
    assert_eq!(c.tags.len(), 1);
    assert_eq!(c.languages.len(), 1);
    assert_eq!(c.books_authors_link.len(), 2);
    assert!(c.books_publishers_link.is_empty());
    assert_eq!(c.books_tags_link.len(), 1);
    assert!(c.books_languages_link.is_empty());
    assert_eq!(c.data.len(), 1);
    assert!(c.comments.is_empty());
    assert_eq!(c.identifiers.len(), 1);
    assert_eq!(c.identifiers[0].book, 3);
}

#[test]
fn a_second_catalog_sweep_finds_nothing() {
    let mut c = sample_catalog();
    sweep_catalog(&mut c, &dirs());
    let before = format!("{:?}", c);
    assert_eq!(sweep_catalog(&mut c, &dirs()), NOTHING);
    assert_eq!(format!("{:?}", c), before);
}

#[test]
fn an_empty_library_tree_empties_the_catalog() {
    let mut c = sample_catalog();
    let report = sweep_catalog(&mut c, &Vec::new());
    assert_eq!(report.books, 3);
    assert_eq!(report.dependent_rows, 12);
    assert!(c.books.is_empty());
    assert!(c.authors.is_empty());
    assert!(c.tags.is_empty());
    assert_eq!(c.languages.len(), 1);
}

#[test]
fn unlinked_entities_go() {
    let mut rows = vec![entity(1, "a"), entity(2, "b"), entity(3, "c")];
    let links = vec![BookLinkRow { book: 9, item: 2 }];
    assert_eq!(drop_unlinked(&mut rows, &links), 2);
    assert_eq!(rows.len(), 1);
    assert_eq!(rows[0].name, "b");
}

fn sample_store() -> Companion {
    let mut s = Companion::new();
    s.shelves.push(shelf(1, "Mixed", false));
    s.shelves.push(shelf(2, "Only lost", false));
    s.shelves.push(shelf(3, "Empty", false));
    s.links.push(link(1, 1, 1, 1));
    s.links.push(link(2, 2, 1, 2));
    s.links.push(link(3, 2, 2, 1));
    s.downloads.push(SyncedBookRow { id: 1, user_id: 1, book_id: 2 });
    s.downloads.push(SyncedBookRow { id: 2, user_id: 1, book_id: 3 });
    s.archived_books.push(ArchivedBookRow { id: 1, user_id: 1, book_id: 9, last_modified: None });
    s.synced_books.push(SyncedBookRow { id: 1, user_id: 1, book_id: 1 });
    s.synced_books.push(SyncedBookRow { id: 2, user_id: 1, book_id: 2 });
    s.reading_states.push(state(1, 1, Some(1)));
    s.reading_states.push(state(2, 2, Some(2)));
    s.bookmarks.push(BookmarkRow { id: 1, reading_state_id: 1, last_modified: None });
    s.bookmarks.push(BookmarkRow { id: 2, reading_state_id: 2, last_modified: None });
    s.bookmarks.push(BookmarkRow { id: 3, reading_state_id: 77, last_modified: None });
    s.statistics.push(StatisticsRow {
        id: 1,
        reading_state_id: 2,
        last_modified: None,
        remaining_time_minutes: None,
        spent_reading_minutes: None,
    });
    s.statistics.push(StatisticsRow {
        id: 2,
        reading_state_id: 1,
        last_modified: None,
        remaining_time_minutes: None,
        spent_reading_minutes: None,
    });
    s
}

#[test]
fn companion_rows_of_missing_books_go_leaves_first() {
    let mut s = sample_store();
    let report = sweep_companion(&mut s, &vec![1, 3]);
    assert_eq!(
        report,
        CompanionSweepReport {
            downloads: 1,
            archived_books: 1,
            bookmarks: 1,
            statistics: 1,
            reading_states: 1,
            synced_books: 1,
            links: 2,
            shelves: 2
        }
    );
    assert_eq!(s.downloads[0].book_id, 3);
    let marks: Vec<i64> = s.bookmarks.iter().map(|b| b.id).collect();
    assert_eq!(marks, vec![1, 3]);
    assert_eq!(s.statistics[0].id, 2);
    assert_eq!(s.reading_states[0].id, 1);
    assert_eq!(s.synced_books[0].id, 1);
    assert_eq!(s.links.len(), 1);
    assert_eq!(s.links[0].id, 1);
    assert_eq!(s.shelves.len(), 1);
    assert_eq!(s.shelves[0].name, "Mixed");
    let before = format!("{:?}", s);
    let again = sweep_companion(&mut s, &vec![1, 3]);
    assert_eq!(
        again,
        CompanionSweepReport {
            downloads: 0,
            archived_books: 0,
            bookmarks: 0,
            statistics: 0,
            reading_states: 0,
            synced_books: 0,
            links: 0,
            shelves: 0
        }
    );
    assert_eq!(format!("{:?}", s), before);
}

#[test]
fn the_whole_pass_sweeps_both_stores() {
    let mut c = sample_catalog();
    let mut s = sample_store();
    s.shelves[0].created = None;
    s.shelves[0].last_modified = Some("2020-01-01 00:00:00.000000".to_string());
    s.links[0].date_added = None;
    let report = sweep_stores(&mut c, &mut s, &dirs(), NOW);
    assert_eq!(report.catalog.books, 1);
    assert_eq!(report.shelf_times_filled, 1);
    assert_eq!(report.membership_times_filled, 1);
    assert_eq!(report.companion.links, 2);
    assert_eq!(report.companion.shelves, 2);
    assert_eq!(s.shelves[0].created.as_deref(), Some("2020-01-01 00:00:00.000000"));
    assert_eq!(s.links[0].date_added.as_deref(), Some(NOW));
    assert_eq!(s.downloads.len(), 1);
    let again = cleanup_databases(&mut c, &mut s, &dirs());
    assert_eq!(again.catalog, NOTHING);
    assert_eq!(again.shelf_times_filled, 0);
    assert_eq!(again.membership_times_filled, 0);
    assert_eq!(again.companion.links + again.companion.shelves + again.companion.downloads, 0);
}

#[test]
fn empty_shelves_are_cleaned() {
    let mut c = Catalog::new();
    c.books.push(book(1, "a"));
    let mut s = sample_store();
    s.links.push(link(9, 5, 44, 1));
    let removed = clean_empty_shelves(&mut s, &c);
    assert_eq!(removed, (2, 2));
    let links: Vec<i64> = s.links.iter().map(|l| l.id).collect();
    assert_eq!(links, vec![1, 9]);
    assert_eq!(s.shelves.len(), 1);
    assert_eq!(s.shelves[0].id, 1);
    assert_eq!(s.reading_states.len(), 2);
    assert_eq!(clean_empty_shelves(&mut s, &c), (0, 0));
}

#[test]
fn a_directory_with_a_trailing_slash_is_the_same_directory() {
    let mut c = sample_catalog();
    c.books[0].path = "John Doe/Kept (1)/".to_string();
    c.books[2].path = "John Doe//Also kept (3)".to_string();
    let report = sweep_catalog(&mut c, &dirs());
    assert_eq!(report.books, 1);
    let ids: Vec<i64> = c.books.iter().map(|b| b.id).collect();
    assert_eq!(ids, vec![1, 3]);
}

#[test]
fn the_orphan_pass_clears_the_dirtied_notes_of_an_orphan() {
    let mut c = sample_catalog();
    c.metadata_dirtied.push(DirtiedRow { id: 1, book: 1 });
    c.metadata_dirtied.push(DirtiedRow { id: 2, book: 2 });
    c.annotations_dirtied.push(DirtiedRow { id: 1, book: 2 });
    c.annotations_dirtied.push(DirtiedRow { id: 2, book: 3 });
    let report = sweep_catalog(&mut c, &dirs());
    assert_eq!(report.books, 1);
    assert_eq!(report.dependent_rows, 9);
    assert_eq!(c.metadata_dirtied, vec![DirtiedRow { id: 1, book: 1 }]);
    assert_eq!(c.annotations_dirtied, vec![DirtiedRow { id: 2, book: 3 }]);
    assert_eq!(sweep_catalog(&mut c, &dirs()), NOTHING);
}
