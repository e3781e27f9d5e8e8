use shelfkeeper::companion::{Companion, ShelfRow, StoreError, SyncedBookRow, UserRow};
use shelfkeeper::shelves::{
    add_book_to_shelf_core, add_book_to_shelf_in_appdb, add_existing_book_to_shelf,
    resolve_user_id,
};

fn store_with_alice() -> Companion {
    let mut store = Companion::new();
    store.users.push(UserRow { id: 1, name: "admin".to_string() });
    store.users.push(UserRow { id: 7, name: "alice".to_string() });
    store
}

const NOW: &str = "2024-05-01 10:00:00.000000";
const LATER: &str = "2024-05-02 11:30:00.000000";

#[test]
fn the_owner_defaults_to_the_admin() {
    let store = store_with_alice();
    assert!(matches!(resolve_user_id(&store, None), Ok(1)));
    assert!(matches!(resolve_user_id(&store, Some("alice")), Ok(7)));
    match resolve_user_id(&store, Some("bob")) {
        Err(StoreError::UserNotFound { name }) => assert_eq!(name, "bob"),
        _ => panic!("an unknown user must be refused"),
    }
}

#[test]
fn first_addition_creates_the_shelf_at_position_one() {
    let mut store = store_with_alice();
    let added = add_book_to_shelf_core(&mut store, 42, "Favorites", Some("alice"), "u-1", NOW);
    assert!(matches!(added, Ok(true)));
    assert_eq!(store.shelves.len(), 1);
    let shelf = &store.shelves[0];
    assert_eq!(shelf.id, 1);
    assert_eq!(shelf.name, "Favorites");
    assert_eq!(shelf.user_id, 7);
    assert_eq!(shelf.uuid, "u-1");
    assert!(!shelf.is_public);
    assert!(!shelf.kobo_sync);
    assert_eq!(shelf.created.as_deref(), Some(NOW));
    assert_eq!(shelf.last_modified.as_deref(), Some(NOW));
    assert_eq!(store.links.len(), 1);
    assert_eq!(store.links[0].id, 1);
    assert_eq!(store.links[0].book_id, 42);
    assert_eq!(store.links[0].shelf, 1);
    assert_eq!(store.links[0].order, 1);
    assert_eq!(store.links[0].date_added.as_deref(), Some(NOW));
    assert!(store.reading_states.is_empty());
}

#[test]
fn second_addition_is_a_silent_no_op() {
    let mut store = store_with_alice();
    assert!(matches!(
        add_book_to_shelf_core(&mut store, 42, "Favorites", Some("alice"), "u-1", NOW),
        Ok(true)
    ));
    assert!(matches!(
        add_book_to_shelf_core(&mut store, 42, "Favorites", Some("alice"), "u-2", LATER),
        Ok(false)
    ));
    assert_eq!(store.shelves.len(), 1);
    assert_eq!(store.links.len(), 1);
    assert_eq!(store.links[0].order, 1);
    assert_eq!(store.links[0].date_added.as_deref(), Some(NOW));
    assert_eq!(store.shelves[0].last_modified.as_deref(), Some(NOW));
}

#[test]
fn positions_grow_with_each_book() {
    let mut store = store_with_alice();
    for book in [5i64, 9, 2] {
        assert!(matches!(
            add_book_to_shelf_core(&mut store, book, "To read", None, "u", NOW),
            Ok(true)
        ));
    }
    assert!(matches!(
        add_book_to_shelf_core(&mut store, 5, "Other", None, "v", NOW),
        Ok(true)
    ));
    let orders: Vec<(i64, i64, i64)> =
        store.links.iter().map(|l| (l.book_id, l.shelf, l.order)).collect();
    assert_eq!(orders, vec![(5, 1, 1), (9, 1, 2), (2, 1, 3), (5, 2, 1)]);
    assert_eq!(store.shelves[0].user_id, 1);
    store.links.remove(1);
    assert!(matches!(
        add_book_to_shelf_core(&mut store, 11, "To read", None, "u", LATER),
        Ok(true)
    ));
    assert_eq!(store.links.last().map(|l| l.order), Some(4));
    assert_eq!(store.shelves[0].last_modified.as_deref(), Some(LATER));
    assert_eq!(store.shelves[0].created.as_deref(), Some(NOW));
}

#[test]
fn shelves_of_one_name_belong_to_their_owners() {
    let mut store = store_with_alice();
    assert!(matches!(
        add_book_to_shelf_core(&mut store, 1, "Favorites", None, "a", NOW),
        Ok(true)
    ));
    assert!(matches!(
        add_book_to_shelf_core(&mut store, 1, "Favorites", Some("alice"), "b", NOW),
        Ok(true)
    ));
    assert_eq!(store.shelves.len(), 2);
    assert_eq!(store.shelves[1].user_id, 7);
    assert_eq!(store.links[1].shelf, 2);
    assert_eq!(store.links[1].order, 1);
}

#[test]
fn an_unknown_user_changes_nothing() {
    let mut store = store_with_alice();
    let r = add_book_to_shelf_core(&mut store, 42, "Favorites", Some("bob"), "u", NOW);
    assert!(matches!(r, Err(StoreError::UserNotFound { .. })));
    assert!(store.shelves.is_empty());
    assert!(store.links.is_empty());
}

#[test]
fn a_full_table_changes_nothing() {
    let mut store = store_with_alice();
    store.shelves.push(ShelfRow {
        id: i64::MAX,
        name: "Last".to_string(),
        user_id: 1,
        uuid: "x".to_string(),
        is_public: false,
        kobo_sync: false,
        created: None,
        last_modified: None,
    });
    let r = add_book_to_shelf_core(&mut store, 42, "Favorites", None, "u", NOW);
    assert!(matches!(r, Err(StoreError::IdsExhausted)));
    assert_eq!(store.shelves.len(), 1);
    assert!(store.links.is_empty());
}

#[test]
fn a_synced_shelf_gets_reading_state_bookmark_and_statistics() {
    let mut store = store_with_alice();
    store.shelves.push(ShelfRow {
        id: 3,
        name: "Kobo".to_string(),
        user_id: 7,
        uuid: "k".to_string(),
        is_public: false,
        kobo_sync: true,
        created: Some(NOW.to_string()),
        last_modified: Some(NOW.to_string()),
    });
    store.synced_books.push(SyncedBookRow { id: 1, user_id: 7, book_id: 5 });
    store.synced_books.push(SyncedBookRow { id: 2, user_id: 1, book_id: 5 });
    store.synced_books.push(SyncedBookRow { id: 3, user_id: 7, book_id: 6 });
    assert!(matches!(
        add_book_to_shelf_core(&mut store, 42, "Kobo", Some("alice"), "unused", LATER),
        Ok(true)
    ));
    assert_eq!(store.shelves.len(), 1);
    assert_eq!(store.links[0].shelf, 3);
    assert_eq!(store.reading_states.len(), 1);
    let state = &store.reading_states[0];
    assert_eq!((state.id, state.user_id, state.book_id), (1, 7, 42));
    assert_eq!(state.last_modified.as_deref(), Some(LATER));
    assert_eq!(state.priority_timestamp.as_deref(), Some(LATER));
    assert_eq!(store.bookmarks.len(), 1);
    assert_eq!(store.bookmarks[0].reading_state_id, state.id);
    assert_eq!(state.current_bookmark, Some(store.bookmarks[0].id));
    assert_eq!(store.statistics.len(), 1);
    assert_eq!(store.statistics[0].reading_state_id, state.id);
    assert_eq!(store.statistics[0].remaining_time_minutes, None);
    assert_eq!(store.statistics[0].spent_reading_minutes, None);
    let left: Vec<i64> = store.synced_books.iter().map(|s| s.id).collect();
    assert_eq!(left, vec![2]);
    assert!(matches!(
        add_book_to_shelf_core(&mut store, 43, "Kobo", Some("alice"), "unused", LATER),
        Ok(true)
    ));
    assert_eq!(store.reading_states.len(), 2);
    assert_eq!(store.reading_states[1].current_bookmark, Some(2));
    assert_eq!(store.links[1].order, 2);
}

#[test]
fn the_public_entries_add_once() {
    let mut store = store_with_alice();
    assert!(matches!(add_book_to_shelf_in_appdb(&mut store, 8, "New", None), Ok(true)));
    assert!(matches!(add_existing_book_to_shelf(&mut store, 8, "New", None), Ok(false)));
    assert!(matches!(add_existing_book_to_shelf(&mut store, 9, "New", None), Ok(true)));
    assert_eq!(store.shelves.len(), 1);
    assert_eq!(store.shelves[0].uuid.len(), 36);
    assert_eq!(store.shelves[0].created.as_ref().map(|t| t.len()), Some(26));
    assert_eq!(store.links.len(), 2);
    assert_eq!(store.links[1].order, 2);
}

#[test]
fn an_addition_that_inserts_nothing_needs_no_room() {
    let mut store = store_with_alice();
    assert!(matches!(
        add_book_to_shelf_core(&mut store, 42, "Favorites", None, "u", NOW),
        Ok(true)
    ));
    store.links[0].id = i64::MAX;
    store.links[0].order = i64::MAX;
    store.shelves[0].id = i64::MAX;
    store.links[0].shelf = i64::MAX;
    let before = store.clone();
    assert!(matches!(
        add_book_to_shelf_core(&mut store, 42, "Favorites", None, "u", LATER),
        Ok(false)
    ));
    assert_eq!(store, before);
    assert!(matches!(
        add_book_to_shelf_core(&mut store, 43, "Favorites", None, "u", LATER),
        Err(StoreError::IdsExhausted)
    ));
    assert_eq!(store, before);
    store.links[0].id = 5;
    let before = store.clone();
    assert!(matches!(
        add_book_to_shelf_core(&mut store, 43, "Favorites", None, "u", LATER),
        Err(StoreError::IdsExhausted)
    ));
    assert_eq!(store, before);
    store.links[0].order = 8;
    assert!(matches!(
        add_book_to_shelf_core(&mut store, 43, "Favorites", None, "u", LATER),
        Ok(true)
    ));
    assert_eq!((store.links[1].id, store.links[1].order), (6, 9));
}

#[test]
fn full_sync_tables_matter_only_on_a_synced_shelf() {
    let mut store = store_with_alice();
    store.bookmarks.push(shelfkeeper::companion::BookmarkRow {
        id: i64::MAX,
        reading_state_id: 1,
        last_modified: None,
    });
    assert!(matches!(
        add_book_to_shelf_core(&mut store, 42, "Plain", None, "u", NOW),
        Ok(true)
    ));
    store.shelves[0].kobo_sync = true;
    let before = store.clone();
    assert!(matches!(
        add_book_to_shelf_core(&mut store, 43, "Plain", None, "u", NOW),
        Err(StoreError::IdsExhausted)
    ));
    assert_eq!(store, before);
}
