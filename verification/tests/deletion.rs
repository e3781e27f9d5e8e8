use shelfkeeper::catalog::{AttributeRow, BookLinkRow, Catalog, DirtiedRow};
use shelfkeeper::companion::{Companion, UserRow};
use shelfkeeper::deletion::{delete_book, delete_from_catalog, remove_from_shelves};
use shelfkeeper::models::{BookMetadata, UpsertResult};
use shelfkeeper::shelves::add_book_to_shelf_core;
use shelfkeeper::upsert::upsert_book;
use shelfkeeper::validate::{validate_foreign_key, ValidationError};
use shelfkeeper::rows::ids_of;

const NOW: &str = "2024-05-01 10:00:00.000000";

fn metadata(title: &str, author: &str) -> BookMetadata {
    BookMetadata {
        title: title.to_string(),
        author: author.to_string(),
        path: "book.epub".to_string(),
        description: Some("About".to_string()),
        language: Some("eng".to_string()),
        isbn: Some("123".to_string()),
        rights: None,
        subtitle: None,
        series: Some("S".to_string()),
        series_index: None,
        publisher: Some("P".to_string()),
        pubdate: None,
        file_size: 10,
    }
}

#[test]
fn the_whole_life_of_a_book() {
    let mut catalog = Catalog::new();
    let mut store = Companion::new();
    store.users.push(UserRow { id: 4, name: "alice".to_string() });
    let gatsby = metadata("The Great Gatsby", "F. Scott Fitzgerald");
    let (n, path) = match upsert_book(&mut catalog, &gatsby, false, false, "u", NOW) {
        Ok(UpsertResult::Created { book_id, book_path }) => (book_id, book_path),
        _ => panic!("expected a creation"),
    };
    assert_eq!(catalog.books[0].sort, "Great Gatsby, The");
    assert_eq!(catalog.books[0].author_sort, "Fitzgerald, F. Scott");
    assert_eq!(path, format!("F. Scott Fitzgerald/The Great Gatsby ({})", n));
    match upsert_book(&mut catalog, &gatsby, true, false, "u", NOW) {
        Ok(UpsertResult::NoChanges { book_id, .. }) => assert_eq!(book_id, n),
        _ => panic!("expected no changes"),
    }
    assert!(matches!(
        add_book_to_shelf_core(&mut store, n, "Favorites", Some("alice"), "s", NOW),
        Ok(true)
    ));
    assert_eq!(store.links[0].order, 1);
    assert!(matches!(
        add_book_to_shelf_core(&mut store, n, "Favorites", Some("alice"), "s", NOW),
        Ok(false)
    ));
    assert_eq!(store.links.len(), 1);
    assert_eq!(store.links[0].order, 1);
    let plan = delete_book(&mut catalog, &mut store, n);
    assert_eq!(plan.title.as_deref(), Some("The Great Gatsby"));
    assert_eq!(plan.book_dir.as_deref(), Some(path.as_str()));
    assert_eq!(plan.shelves_removed, 1);
    assert!(catalog.books.is_empty());
    assert!(catalog.books_authors_link.is_empty());
    assert!(catalog.data.is_empty());
    assert!(catalog.comments.is_empty());
    assert!(catalog.identifiers.is_empty());
    assert!(catalog.books_series_link.is_empty());
    assert_eq!(catalog.authors.len(), 1);
    assert!(store.links.is_empty());
    assert!(store.shelves.is_empty());
}

#[test]
fn deleting_one_book_leaves_the_others() {
    let mut catalog = Catalog::new();
    let mut store = Companion::new();
    for (title, author) in [("One", "A B"), ("Two", "A B"), ("Three", "C D")] {
        assert!(upsert_book(&mut catalog, &metadata(title, author), false, false, "u", NOW).is_ok());
    }
    for (book, shelf) in [(1i64, "Both"), (2, "Both"), (2, "Only two"), (3, "Other")] {
        assert!(matches!(add_book_to_shelf_core(&mut store, book, shelf, None, "s", NOW), Ok(true)));
    }
    let plan = delete_book(&mut catalog, &mut store, 2);
    assert_eq!(plan.title.as_deref(), Some("Two"));
    assert_eq!(plan.book_dir.as_deref(), Some("A B/Two (2)"));
    assert_eq!(plan.shelves_removed, 1);
    let ids: Vec<i64> = catalog.books.iter().map(|b| b.id).collect();
    assert_eq!(ids, vec![1, 3]);
    assert_eq!(catalog.data.len(), 2);
    assert!(catalog.data.iter().all(|d| d.book != 2));
    let names: Vec<&str> = store.shelves.iter().map(|s| s.name.as_str()).collect();
    assert_eq!(names, vec!["Both", "Other"]);
    let links: Vec<(i64, i64)> = store.links.iter().map(|l| (l.book_id, l.shelf)).collect();
    assert_eq!(links, vec![(1, 1), (3, 3)]);
}

#[test]
fn deleting_an_unknown_book_still_cleans_the_shelves() {
    let mut catalog = Catalog::new();
    let mut store = Companion::new();
    assert!(matches!(add_book_to_shelf_core(&mut store, 5, "Ghosts", None, "s", NOW), Ok(true)));
    let plan = delete_book(&mut catalog, &mut store, 5);
    assert_eq!(plan.title, None);
    assert_eq!(plan.book_dir, None);
    assert_eq!(plan.shelves_removed, 1);
    assert!(store.links.is_empty());
    assert!(store.shelves.is_empty());
}

#[test]
fn a_shelf_that_was_empty_before_stays() {
    let mut store = Companion::new();
    assert!(matches!(add_book_to_shelf_core(&mut store, 5, "A", None, "s", NOW), Ok(true)));
    assert!(matches!(add_book_to_shelf_core(&mut store, 6, "B", None, "s", NOW), Ok(true)));
    store.links.remove(1);
    assert_eq!(remove_from_shelves(&mut store, 5), 1);
    assert_eq!(store.shelves.len(), 1);
    assert_eq!(store.shelves[0].name, "B");
    let mut catalog = Catalog::new();
    delete_from_catalog(&mut catalog, 1);
    assert!(catalog.books.is_empty());
}

#[test]
fn foreign_keys_are_checked_against_the_table() {
    let mut catalog = Catalog::new();
    assert!(upsert_book(&mut catalog, &metadata("One", "A B"), false, false, "u", NOW).is_ok());
    let ids = ids_of(&catalog.books);
    assert_eq!(validate_foreign_key(&ids, "books", 1, "book"), Ok(()));
    assert_eq!(
        validate_foreign_key(&ids, "books", 2, "book"),
        Err(ValidationError::MissingRow {
            table_name: "books".to_string(),
            entity_type: "book".to_string(),
            id: 2
        })
    );
    assert_eq!(
        validate_foreign_key(&ids, "nope", 1, "book"),
        Err(ValidationError::UnknownTable { name: "nope".to_string() })
    );
    assert_eq!(
        validate_foreign_key(&ids, "books", 0, "book"),
        Err(ValidationError::NonPositiveId { entity_type: "book".to_string(), id: 0 })
    );
}

#[test]
fn deleting_an_unknown_book_leaves_the_catalog_alone() {
    let mut catalog = Catalog::new();
    assert!(upsert_book(&mut catalog, &metadata("One", "A B"), false, false, "u", NOW).is_ok());
    catalog.comments.push(AttributeRow {
        book: 7,
        label: String::new(),
        text: "stray".to_string(),
        size: 0,
    });
    catalog.books_tags_link.push(BookLinkRow { book: 7, item: 1 });
    catalog.metadata_dirtied.push(DirtiedRow { id: 1, book: 7 });
    let mut store = Companion::new();
    assert!(matches!(add_book_to_shelf_core(&mut store, 7, "Ghosts", None, "s", NOW), Ok(true)));
    assert!(matches!(add_book_to_shelf_core(&mut store, 1, "Kept", None, "s", NOW), Ok(true)));
    let before = catalog.clone();
    let plan = delete_book(&mut catalog, &mut store, 7);
    assert_eq!(catalog, before);
    assert_eq!(plan.title, None);
    assert_eq!(plan.book_dir, None);
    assert_eq!(plan.shelves_removed, 1);
    let links: Vec<i64> = store.links.iter().map(|l| l.book_id).collect();
    assert_eq!(links, vec![1]);
    assert_eq!(store.shelves.len(), 1);
    assert_eq!(store.shelves[0].name, "Kept");
    delete_from_catalog(&mut catalog, 7);
    assert_eq!(catalog, before);
}

#[test]
fn deleting_a_book_takes_every_row_that_hangs_on_it() {
    let mut catalog = Catalog::new();
    assert!(upsert_book(&mut catalog, &metadata("One", "A B"), false, false, "u", NOW).is_ok());
    assert!(upsert_book(&mut catalog, &metadata("Two", "A B"), false, false, "u", NOW).is_ok());
    catalog.metadata_dirtied.push(DirtiedRow { id: 1, book: 1 });
    catalog.annotations_dirtied.push(DirtiedRow { id: 1, book: 2 });
    delete_from_catalog(&mut catalog, 1);
    let ids: Vec<i64> = catalog.books.iter().map(|b| b.id).collect();
    assert_eq!(ids, vec![2]);
    assert!(catalog.comments.iter().all(|c| c.book == 2));
    assert!(catalog.data.iter().all(|c| c.book == 2));
    assert!(catalog.identifiers.iter().all(|c| c.book == 2));
    assert!(catalog.books_authors_link.iter().all(|c| c.book == 2));
    assert_eq!(catalog.comments.len(), 1);
    assert!(catalog.metadata_dirtied.is_empty());
    assert_eq!(catalog.annotations_dirtied, vec![DirtiedRow { id: 1, book: 2 }]);
}
