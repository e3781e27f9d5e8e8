//! The companion store: users, shelves, the books on them, and the
//! bookkeeping that a reading device's sync leaves behind.
use vstd::prelude::*;
use vstd::string::*;
use crate::rows::{BookRef, Keyed, StateRef};

verus! {

/// A user of the companion store.
#[derive(Debug, Clone, PartialEq, Eq)]
pub struct UserRow {
    pub id: i64,
    pub name: String,
}

/// A shelf: a named collection of books that belongs to one user.
#[derive(Debug, Clone, PartialEq, Eq)]
pub struct ShelfRow {
    pub id: i64,
    pub name: String,
    pub user_id: i64,
    pub uuid: String,
    pub is_public: bool,
    pub kobo_sync: bool,
    pub created: Option<String>,
    pub last_modified: Option<String>,
}

/// The membership of one book in one shelf.
#[derive(Debug, Clone, PartialEq, Eq)]
pub struct ShelfLinkRow {
    pub id: i64,
    pub book_id: i64,
    pub shelf: i64,
    pub order: i64,
    pub date_added: Option<String>,
}

/// A note that a user's device has taken a book (also the shape of a
/// download record).
#[derive(Debug, Clone, Copy, PartialEq, Eq)]
pub struct SyncedBookRow {
    pub id: i64,
    pub user_id: i64,
    pub book_id: i64,
}

/// A book that a user has archived.
#[derive(Debug, Clone, PartialEq, Eq)]
pub struct ArchivedBookRow {
    pub id: i64,
    pub user_id: i64,
    pub book_id: i64,
    pub last_modified: Option<String>,
}

/// Where a user stands in a book.
#[derive(Debug, Clone, PartialEq, Eq)]
pub struct ReadingStateRow {
    pub id: i64,
    pub user_id: i64,
    pub book_id: i64,
    pub current_bookmark: Option<i64>,
    pub last_modified: Option<String>,
    pub priority_timestamp: Option<String>,
}

/// A bookmark of a reading state.
#[derive(Debug, Clone, PartialEq, Eq)]
pub struct BookmarkRow {
    pub id: i64,
    pub reading_state_id: i64,
    pub last_modified: Option<String>,
}

/// The reading statistics of a reading state.
#[derive(Debug, Clone, PartialEq, Eq)]
pub struct StatisticsRow {
    pub id: i64,
    pub reading_state_id: i64,
    pub last_modified: Option<String>,
    /// The minutes left to read, where a device has counted them.
    pub remaining_time_minutes: Option<i64>,
    /// The minutes spent reading, where a device has counted them.
    pub spent_reading_minutes: Option<i64>,
}

/// The companion store, table by table.
#[derive(Debug, Clone, PartialEq, Eq)]
pub struct Companion {
    pub users: Vec<UserRow>,
    pub shelves: Vec<ShelfRow>,
    pub links: Vec<ShelfLinkRow>,
    pub synced_books: Vec<SyncedBookRow>,
    pub downloads: Vec<SyncedBookRow>,
    pub archived_books: Vec<ArchivedBookRow>,
    pub reading_states: Vec<ReadingStateRow>,
    pub bookmarks: Vec<BookmarkRow>,
    pub statistics: Vec<StatisticsRow>,
}

/// Why an operation on a store was refused.
#[derive(Debug, Clone, PartialEq, Eq)]
pub enum StoreError {
    /// No user has the name that was given.
    UserNotFound { name: String },
    /// A table has reached the largest id, or a shelf the largest position.
    IdsExhausted,
    /// The book file's name ends in none of the accepted extensions.
    UnsupportedExtension,
    /// The catalog holds no book with the id that was given.
    BookNotFound { id: i64 },
    /// The publication date lies outside the calendar.
    InvalidDate,
}

impl Companion {
    /// A companion store without rows.
    pub fn new() -> (r: Self)
        ensures
            r.users@.len() == 0,
            r.shelves@.len() == 0,
            r.links@.len() == 0,
            r.synced_books@.len() == 0,
            r.downloads@.len() == 0,
            r.archived_books@.len() == 0,
            r.reading_states@.len() == 0,
            r.bookmarks@.len() == 0,
            r.statistics@.len() == 0,
    {
        Companion {
            users: Vec::new(),
            shelves: Vec::new(),
            links: Vec::new(),
            synced_books: Vec::new(),
            downloads: Vec::new(),
            archived_books: Vec::new(),
            reading_states: Vec::new(),
            bookmarks: Vec::new(),
            statistics: Vec::new(),
        }
    }
}

impl Keyed for UserRow {
    open spec fn key(&self) -> i64 {
        self.id
    }

    fn id(&self) -> (r: i64) {
        self.id
    }
}

impl Keyed for ShelfRow {
    open spec fn key(&self) -> i64 {
        self.id
    }

    fn id(&self) -> (r: i64) {
        self.id
    }
}

impl Keyed for ShelfLinkRow {
    open spec fn key(&self) -> i64 {
        self.id
    }

    fn id(&self) -> (r: i64) {
        self.id
    }
}

impl Keyed for SyncedBookRow {
    open spec fn key(&self) -> i64 {
        self.id
    }

    fn id(&self) -> (r: i64) {
        self.id
    }
}

impl Keyed for ArchivedBookRow {
    open spec fn key(&self) -> i64 {
        self.id
    }

    fn id(&self) -> (r: i64) {
        self.id
    }
}

impl Keyed for ReadingStateRow {
    open spec fn key(&self) -> i64 {
        self.id
    }

    fn id(&self) -> (r: i64) {
        self.id
    }
}

impl Keyed for BookmarkRow {
    open spec fn key(&self) -> i64 {
        self.id
    }

    fn id(&self) -> (r: i64) {
        self.id
    }
}

impl Keyed for StatisticsRow {
    open spec fn key(&self) -> i64 {
        self.id
    }

    fn id(&self) -> (r: i64) {
        self.id
    }
}

impl BookRef for ShelfLinkRow {
    open spec fn book(&self) -> i64 {
        self.book_id
    }

    fn book_id(&self) -> (r: i64) {
        self.book_id
    }
}

impl BookRef for SyncedBookRow {
    open spec fn book(&self) -> i64 {
        self.book_id
    }

    fn book_id(&self) -> (r: i64) {
        self.book_id
    }
}

impl BookRef for ArchivedBookRow {
    open spec fn book(&self) -> i64 {
        self.book_id
    }

    fn book_id(&self) -> (r: i64) {
        self.book_id
    }
}

impl BookRef for ReadingStateRow {
    open spec fn book(&self) -> i64 {
        self.book_id
    }

    fn book_id(&self) -> (r: i64) {
        self.book_id
    }
}


impl StateRef for BookmarkRow {
    open spec fn state(&self) -> i64 {
        self.reading_state_id
    }

    fn state_id(&self) -> (r: i64) {
        self.reading_state_id
    }
}

impl StateRef for StatisticsRow {
    open spec fn state(&self) -> i64 {
        self.reading_state_id
    }

    fn state_id(&self) -> (r: i64) {
        self.reading_state_id
    }
}

} // verus!
