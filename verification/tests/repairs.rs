use shelfkeeper::catalog::{BookRow, Catalog};
use shelfkeeper::companion::{
    ArchivedBookRow, BookmarkRow, Companion, ReadingStateRow, ShelfLinkRow, ShelfRow,
    StatisticsRow, StoreError, SyncedBookRow,
};
use shelfkeeper::repair::{repair_reading_states, ReadingRepairReport};
use shelfkeeper::sync::{fix_kobo_sync_issues, forget_acknowledgments, repair_sync};
use shelfkeeper::times::{
    repair_catalog_times, repair_companion_times, stamp_all, verify_and_repair_timestamps,
};

const NOW: &str = "2024-05-01 10:00:00.000000";
const OLD: &str = "2020-01-01 00:00:00.000000";
const UTC: &str = "2024-05-01 08:00:00.000000";

fn state(id: i64, user_id: i64, book_id: i64, current_bookmark: Option<i64>) -> ReadingStateRow {
    ReadingStateRow {
        id,
        user_id,
        book_id,
        current_bookmark,
        last_modified: Some(OLD.to_string()),
        priority_timestamp: Some(OLD.to_string()),
    }
}

fn mark(id: i64, reading_state_id: i64) -> BookmarkRow {
    BookmarkRow { id, reading_state_id, last_modified: Some(OLD.to_string()) }
}

fn shelf(id: i64, user_id: i64, kobo_sync: bool) -> ShelfRow {
    ShelfRow {
        id,
        name: format!("Shelf {}", id),
        user_id,
        uuid: "u".to_string(),
        is_public: false,
        kobo_sync,
        created: Some(OLD.to_string()),
        last_modified: Some(OLD.to_string()),
    }
}

fn link(id: i64, book_id: i64, shelf: i64) -> ShelfLinkRow {
    ShelfLinkRow { id, book_id, shelf, order: id, date_added: Some(OLD.to_string()) }
}

fn two_way(store: &Companion) -> bool {
    store.reading_states.iter().all(|s| match s.current_bookmark {
        None => true,
        Some(b) => store.bookmarks.iter().any(|m| m.id == b && m.reading_state_id == s.id),
    })
}

#[test]
fn duplicates_go_and_every_state_gets_a_pointer() {
    let mut s = Companion::new();
    s.reading_states.push(state(1, 1, 10, Some(1)));
    s.reading_states.push(state(2, 1, 10, Some(2)));
    s.reading_states.push(state(3, 1, 11, None));
    s.reading_states.push(state(4, 2, 10, None));
    s.bookmarks.push(mark(1, 1));
    s.bookmarks.push(mark(2, 2));
    s.bookmarks.push(mark(5, 4));
    s.bookmarks.push(mark(6, 4));
    let report = repair_reading_states(&mut s, NOW).ok().unwrap();
    assert_eq!(
        report,
        ReadingRepairReport { duplicates_removed: 1, bookmarks_created: 1, pointers_set: 2 }
    );
    let ids: Vec<i64> = s.reading_states.iter().map(|r| r.id).collect();
    assert_eq!(ids, vec![2, 3, 4]);
    let marks: Vec<(i64, i64)> = s.bookmarks.iter().map(|m| (m.id, m.reading_state_id)).collect();
    assert_eq!(marks, vec![(2, 2), (5, 4), (6, 4), (7, 3)]);
    assert_eq!(s.bookmarks[3].last_modified.as_deref(), Some(NOW));
    let pointers: Vec<Option<i64>> = s.reading_states.iter().map(|r| r.current_bookmark).collect();
    assert_eq!(pointers, vec![Some(2), Some(7), Some(5)]);
    assert!(two_way(&s));
    assert_eq!(s.reading_states[1].last_modified.as_deref(), Some(OLD));
    let before = format!("{:?}", s);
    let again = repair_reading_states(&mut s, "later").ok().unwrap();
    assert_eq!(
        again,
        ReadingRepairReport { duplicates_removed: 0, bookmarks_created: 0, pointers_set: 0 }
    );
    assert_eq!(format!("{:?}", s), before);
}

#[test]
fn a_full_bookmark_table_stops_the_repair() {
    let mut s = Companion::new();
    s.reading_states.push(state(1, 1, 10, None));
    s.bookmarks.push(mark(i64::MAX, 9));
    let r = repair_reading_states(&mut s, NOW);
    assert!(matches!(r, Err(StoreError::IdsExhausted)));
    assert_eq!(s.reading_states[0].current_bookmark, None);
    assert_eq!(s.bookmarks.len(), 1);
}

fn bare_book(id: i64) -> BookRow {
    BookRow {
        id,
        title: "T".to_string(),
        sort: "T".to_string(),
        author_sort: "A".to_string(),
        timestamp: None,
        pubdate: Some(OLD.to_string()),
        last_modified: None,
        path: "p".to_string(),
        series_index: 0,
        uuid: "u".to_string(),
        has_cover: false,
    }
}

#[test]
fn missing_times_are_filled() {
    let mut c = Catalog::new();
    c.books.push(bare_book(1));
    c.books.push(bare_book(2));
    c.books[1].timestamp = Some(OLD.to_string());
    c.books[1].last_modified = Some(OLD.to_string());
    assert_eq!(repair_catalog_times(&mut c, NOW), 1);
    assert_eq!(c.books[0].timestamp.as_deref(), Some(NOW));
    assert_eq!(c.books[0].pubdate.as_deref(), Some(OLD));
    assert_eq!(c.books[0].last_modified.as_deref(), Some(NOW));
    assert_eq!(c.books[1].timestamp.as_deref(), Some(OLD));
    assert_eq!(repair_catalog_times(&mut c, "later"), 0);
    assert_eq!(c.books[0].timestamp.as_deref(), Some(NOW));
}

fn store_with_gaps() -> Companion {
    let mut s = Companion::new();
    s.shelves.push(shelf(1, 1, false));
    s.shelves.push(shelf(2, 1, false));
    s.shelves.push(shelf(3, 1, false));
    s.shelves[0].created = None;
    s.shelves[1].last_modified = None;
    s.shelves[2].created = None;
    s.shelves[2].last_modified = None;
    s.links.push(link(1, 1, 1));
    s.links[0].date_added = None;
    s.archived_books.push(ArchivedBookRow { id: 1, user_id: 1, book_id: 1, last_modified: None });
    s.reading_states.push(state(1, 1, 1, None));
    s.reading_states[0].priority_timestamp = None;
    s.bookmarks.push(mark(1, 1));
    s.bookmarks.push(mark(2, 1));
    s.bookmarks[1].last_modified = None;
    s
}

#[test]
fn companion_times_are_filled_from_now() {
    let mut s = store_with_gaps();
    let report = repair_companion_times(&mut s, NOW, false);
    assert_eq!(
        (report.shelves, report.links, report.archived_books, report.reading_states, report.bookmarks),
        (3, 1, 1, 1, 1)
    );
    assert_eq!(s.shelves[0].created.as_deref(), Some(NOW));
    assert_eq!(s.shelves[0].last_modified.as_deref(), Some(OLD));
    assert_eq!(s.shelves[1].last_modified.as_deref(), Some(NOW));
    assert_eq!(s.reading_states[0].priority_timestamp.as_deref(), Some(NOW));
    assert_eq!(s.bookmarks[0].last_modified.as_deref(), Some(OLD));
    assert_eq!(s.bookmarks[1].last_modified.as_deref(), Some(NOW));
    let again = repair_companion_times(&mut s, "later", true);
    assert_eq!(
        (again.shelves, again.links, again.archived_books, again.reading_states, again.bookmarks),
        (0, 0, 0, 0, 0)
    );
}

#[test]
fn companion_times_are_filled_from_the_sibling_time() {
    let mut s = store_with_gaps();
    s.shelves[1].created = Some("2019-09-09 09:09:09.000000".to_string());
    repair_companion_times(&mut s, NOW, true);
    assert_eq!(s.shelves[0].created.as_deref(), Some(OLD));
    assert_eq!(s.shelves[1].last_modified.as_deref(), Some("2019-09-09 09:09:09.000000"));
    assert_eq!(s.shelves[2].created.as_deref(), Some(NOW));
    assert_eq!(s.shelves[2].last_modified.as_deref(), Some(NOW));
    assert_eq!(s.reading_states[0].priority_timestamp.as_deref(), Some(OLD));
    assert_eq!(s.links[0].date_added.as_deref(), Some(NOW));
}

#[test]
fn stamping_counts_rows_not_columns() {
    let mut shelves = vec![shelf(1, 1, false), shelf(2, 1, false)];
    shelves[1].created = None;
    shelves[1].last_modified = None;
    assert_eq!(stamp_all(&mut shelves, NOW, false), 1);
    assert_eq!(stamp_all(&mut shelves, NOW, false), 0);
}

#[test]
fn the_public_time_repair_leaves_nothing_missing() {
    let mut c = Catalog::new();
    c.books.push(bare_book(1));
    let mut s = store_with_gaps();
    let report = verify_and_repair_timestamps(&mut c, &mut s);
    assert_eq!((report.books, report.shelves, report.links), (1, 3, 1));
    assert_eq!(c.books[0].timestamp.as_ref().map(|t| t.len()), Some(26));
    assert!(s.shelves.iter().all(|r| r.created.is_some() && r.last_modified.is_some()));
    let again = verify_and_repair_timestamps(&mut c, &mut s);
    assert_eq!((again.books, again.shelves, again.links, again.bookmarks), (0, 0, 0, 0));
}

fn synced_store() -> Companion {
    let mut s = Companion::new();
    s.shelves.push(shelf(1, 7, true));
    s.shelves.push(shelf(2, 7, false));
    s.shelves.push(shelf(3, 8, true));
    s.links.push(link(1, 10, 1));
    s.links.push(link(2, 11, 1));
    s.links.push(link(3, 12, 2));
    s.synced_books.push(SyncedBookRow { id: 1, user_id: 7, book_id: 10 });
    s.synced_books.push(SyncedBookRow { id: 2, user_id: 8, book_id: 10 });
    s.synced_books.push(SyncedBookRow { id: 3, user_id: 7, book_id: 12 });
    s.reading_states.push(state(4, 7, 10, None));
    s.reading_states[0].last_modified = Some("2020-01-01 00:00:00".to_string());
    s.statistics.push(StatisticsRow {
        id: 2,
        reading_state_id: 99,
        last_modified: None,
        remaining_time_minutes: None,
        spent_reading_minutes: None,
    });
    s
}

#[test]
fn acknowledgments_of_synced_books_are_forgotten() {
    let mut s = synced_store();
    assert_eq!(forget_acknowledgments(&mut s), 1);
    let left: Vec<i64> = s.synced_books.iter().map(|r| r.id).collect();
    assert_eq!(left, vec![2, 3]);
}

#[test]
fn the_sync_repair_prepares_every_book_on_a_synced_shelf() {
    let mut s = synced_store();
    let report = repair_sync(&mut s, NOW, UTC).ok().unwrap();
    assert_eq!(report.acknowledgments_cleared, 1);
    assert_eq!(report.states_standardised, 1);
    assert_eq!(report.states_created, 1);
    assert_eq!(report.state_times_filled, 0);
    assert_eq!(report.statistics_created, 2);
    assert_eq!(report.shelves_touched, 1);
    assert_eq!(report.memberships_reset, 2);
    assert_eq!(
        report.reading,
        ReadingRepairReport { duplicates_removed: 0, bookmarks_created: 2, pointers_set: 2 }
    );
    let states: Vec<(i64, i64, i64)> =
        s.reading_states.iter().map(|r| (r.id, r.user_id, r.book_id)).collect();
    assert_eq!(states, vec![(4, 7, 10), (5, 7, 11)]);
    assert_eq!(s.reading_states[0].last_modified.as_deref(), Some(NOW));
    assert_eq!(s.reading_states[0].priority_timestamp.as_deref(), Some(NOW));
    assert_eq!(s.reading_states[1].last_modified.as_deref(), Some(NOW));
    let stats: Vec<(i64, i64)> = s.statistics.iter().map(|r| (r.id, r.reading_state_id)).collect();
    assert_eq!(stats, vec![(2, 99), (3, 4), (4, 5)]);
    assert_eq!(s.statistics[1].last_modified.as_deref(), Some(NOW));
    let marks: Vec<(i64, i64)> = s.bookmarks.iter().map(|m| (m.id, m.reading_state_id)).collect();
    assert_eq!(marks, vec![(1, 4), (2, 5)]);
    assert!(two_way(&s));
    assert!(s.reading_states.iter().all(|r| r.current_bookmark.is_some()));
    assert_eq!(s.shelves[0].last_modified.as_deref(), Some(NOW));
    assert_eq!(s.shelves[1].last_modified.as_deref(), Some(OLD));
    assert_eq!(s.shelves[2].last_modified.as_deref(), Some(OLD));
    assert_eq!(s.links[0].date_added.as_deref(), Some(UTC));
    assert_eq!(s.links[1].date_added.as_deref(), Some(UTC));
    assert_eq!(s.links[2].date_added.as_deref(), Some(OLD));
    let again = repair_sync(&mut s, NOW, UTC).ok().unwrap();
    assert_eq!(again.acknowledgments_cleared, 0);
    assert_eq!(again.states_standardised, 0);
    assert_eq!(again.states_created, 0);
    assert_eq!(again.statistics_created, 0);
    assert_eq!(
        again.reading,
        ReadingRepairReport { duplicates_removed: 0, bookmarks_created: 0, pointers_set: 0 }
    );
    assert_eq!(again.memberships_reset, 2);
    assert_eq!(again.shelves_touched, 1);
}

#[test]
fn the_public_sync_repair_runs_at_the_present_time() {
    let mut s = synced_store();
    let report = fix_kobo_sync_issues(&mut s).ok().unwrap();
    assert_eq!(report.states_created, 1);
    assert_eq!(s.reading_states.len(), 2);
    assert_eq!(s.links[0].date_added.as_ref().map(|t| t.len()), Some(26));
    assert!(two_way(&s));
}

#[test]
fn a_full_table_stops_the_sync_repair() {
    let mut s = synced_store();
    s.statistics.push(StatisticsRow {
        id: i64::MAX - 1,
        reading_state_id: 1,
        last_modified: None,
        remaining_time_minutes: None,
        spent_reading_minutes: None,
    });
    let before = format!("{:?}", s);
    assert!(matches!(repair_sync(&mut s, NOW, UTC), Err(StoreError::IdsExhausted)));
    assert_eq!(format!("{:?}", s), before);
}

#[test]
fn a_full_bookmark_table_is_no_obstacle_where_no_bookmark_is_made() {
    let mut s = Companion::new();
    s.reading_states.push(state(1, 1, 10, None));
    s.reading_states.push(state(2, 1, 10, Some(i64::MAX)));
    s.bookmarks.push(mark(i64::MAX, 2));
    s.bookmarks.push(mark(3, 1));
    let report = repair_reading_states(&mut s, NOW).ok().unwrap();
    assert_eq!(
        report,
        ReadingRepairReport { duplicates_removed: 1, bookmarks_created: 0, pointers_set: 0 }
    );
    assert_eq!(s.reading_states.len(), 1);
    assert_eq!(s.bookmarks.len(), 1);
    assert_eq!(s.bookmarks[0].id, i64::MAX);
    let before = s.clone();
    assert!(repair_reading_states(&mut s, NOW).is_ok());
    assert_eq!(s, before);
}
