use shelfkeeper::catalog::{BookLinkRow, Catalog, EntityRow};
use shelfkeeper::companion::{Companion, ReadingStateRow, SyncedBookRow};
use shelfkeeper::listing::{
    books_missing_from_catalog, books_on_shelf, get_linked_items, sync_status, unshelved_books,
    SyncStatus,
};
use shelfkeeper::models::BookMetadata;
use shelfkeeper::shelves::add_book_to_shelf_core;
use shelfkeeper::upsert::upsert_book;

fn metadata(title: &str) -> BookMetadata {
    BookMetadata {
        title: title.to_string(),
        author: "A B".to_string(),
        path: "x.epub".to_string(),
        description: None,
        language: None,
        isbn: None,
        rights: None,
        subtitle: None,
        series: None,
        series_index: None,
        publisher: None,
        pubdate: None,
        file_size: 1,
    }
}

fn stores() -> (Catalog, Companion) {
    let mut catalog = Catalog::new();
    for title in ["One", "Two", "Three"] {
        assert!(upsert_book(&mut catalog, &metadata(title), false, false, "u", "now").is_ok());
    }
    let mut store = Companion::new();
    for (book, shelf) in [(3i64, "Read"), (1, "Read"), (1, "Later"), (9, "Later")] {
        assert!(matches!(add_book_to_shelf_core(&mut store, book, shelf, None, "s", "now"), Ok(true)));
    }
    (catalog, store)
}

#[test]
fn a_shelf_lists_its_books_in_order() {
    let (_, store) = stores();
    assert_eq!(books_on_shelf(&store, "Read"), vec![3, 1]);
    assert_eq!(books_on_shelf(&store, "Later"), vec![1, 9]);
    assert_eq!(books_on_shelf(&store, "read"), Vec::<i64>::new());
}

#[test]
fn books_on_no_shelf_are_found() {
    let (catalog, store) = stores();
    assert_eq!(unshelved_books(&catalog, &store), vec![2]);
    assert_eq!(unshelved_books(&catalog, &Companion::new()), vec![1, 2, 3]);
    assert_eq!(unshelved_books(&Catalog::new(), &store), Vec::<i64>::new());
}

#[test]
fn memberships_of_missing_books_are_found() {
    let (catalog, store) = stores();
    assert_eq!(books_missing_from_catalog(&store, &catalog), vec![9]);
    assert_eq!(books_missing_from_catalog(&store, &Catalog::new()), vec![3, 1, 1, 9]);
}

#[test]
fn linked_names_follow_the_links() {
    let entities = vec![
        EntityRow { id: 1, name: "first".to_string(), sort: None },
        EntityRow { id: 2, name: "second".to_string(), sort: None },
    ];
    let links = vec![
        BookLinkRow { book: 5, item: 2 },
        BookLinkRow { book: 6, item: 1 },
        BookLinkRow { book: 5, item: 7 },
        BookLinkRow { book: 5, item: 1 },
    ];
    assert_eq!(get_linked_items(&entities, &links, 5), vec!["second", "first"]);
    assert_eq!(get_linked_items(&entities, &links, 6), vec!["first"]);
    assert_eq!(get_linked_items(&entities, &links, 7), Vec::<String>::new());
}

#[test]
fn the_sync_status_follows_acknowledgment_and_reading_state() {
    let mut store = Companion::new();
    store.synced_books.push(SyncedBookRow { id: 1, user_id: 1, book_id: 5 });
    store.synced_books.push(SyncedBookRow { id: 2, user_id: 1, book_id: 6 });
    for (id, book_id) in [(1i64, 6i64), (2, 7)] {
        store.reading_states.push(ReadingStateRow {
            id,
            user_id: 1,
            book_id,
            current_bookmark: None,
            last_modified: None,
            priority_timestamp: None,
        });
    }
    assert_eq!(sync_status(&store, 5), SyncStatus::MissingReadingState);
    assert_eq!(sync_status(&store, 6), SyncStatus::Full);
    assert_eq!(sync_status(&store, 7), SyncStatus::MissingSyncEntry);
    assert_eq!(sync_status(&store, 8), SyncStatus::NoSetup);
}
