//! The records that travel between the metadata extractor, the comparator and
//! the catalog engine.
use vstd::prelude::*;

verus! {

/// What the metadata extractor hands over for one book file.
///
/// `pubdate` counts microseconds since the Unix epoch, in UTC. `series_index`
/// carries the bit pattern of the 64-bit float that the catalog stores.
#[derive(Debug, Clone, PartialEq, Eq)]
pub struct BookMetadata {
    pub title: String,
    pub author: String,
    pub path: String,
    pub description: Option<String>,
    pub language: Option<String>,
    pub isbn: Option<String>,
    pub rights: Option<String>,
    pub subtitle: Option<String>,
    pub series: Option<String>,
    pub series_index: Option<u64>,
    pub publisher: Option<String>,
    pub pubdate: Option<i64>,
    pub file_size: u64,
}

/// The comparable fields of a book that the catalog already holds.
#[derive(Debug, Clone, PartialEq, Eq)]
pub struct ExistingBookData {
    pub id: i64,
    pub path: String,
    pub pubdate: Option<i64>,
    pub series_index: u64,
    pub publisher: Option<String>,
    pub series: Option<String>,
}

/// Which of the comparable fields differ between an incoming book and the
/// catalog's record of it.
#[derive(Debug, Clone, Copy, PartialEq, Eq)]
pub struct UpdateChanges {
    pub pubdate_changed: bool,
    pub series_index_changed: bool,
    pub publisher_changed: bool,
    pub series_changed: bool,
}

impl Default for UpdateChanges {
    fn default() -> (r: Self)
        ensures
            !r.pubdate_changed,
            !r.series_index_changed,
            !r.publisher_changed,
            !r.series_changed,
    {
        UpdateChanges {
            pubdate_changed: false,
            series_index_changed: false,
            publisher_changed: false,
            series_changed: false,
        }
    }
}

impl UpdateChanges {
    /// True when at least one field differs.
    pub open spec fn any(&self) -> bool {
        self.pubdate_changed || self.series_index_changed || self.publisher_changed
            || self.series_changed
    }

    /// True when at least one field differs.
    pub fn has_any_changes(&self) -> (r: bool)
        ensures
            r == self.any(),
    {
        self.pubdate_changed || self.series_index_changed || self.publisher_changed
            || self.series_changed
    }
}

/// How an import ended for the catalog.
#[derive(Debug, Clone, PartialEq, Eq)]
pub enum UpsertResult {
    /// A new book row was written.
    Created { book_id: i64, book_path: String },
    /// An existing book row was rewritten.
    Updated { book_id: i64, book_path: String },
    /// The catalog already held the book as it came in.
    NoChanges { book_id: i64, book_path: String },
}

impl UpsertResult {
    /// The id of the book.
    pub open spec fn id(&self) -> i64 {
        match *self {
            UpsertResult::Created { book_id, .. } => book_id,
            UpsertResult::Updated { book_id, .. } => book_id,
            UpsertResult::NoChanges { book_id, .. } => book_id,
        }
    }

    /// The storage path of the book.
    pub open spec fn path(&self) -> Seq<char> {
        match *self {
            UpsertResult::Created { book_path, .. } => book_path@,
            UpsertResult::Updated { book_path, .. } => book_path@,
            UpsertResult::NoChanges { book_path, .. } => book_path@,
        }
    }

    /// The id of the book, whatever happened to it.
    pub fn book_id(&self) -> (r: i64)
        ensures
            r == self.id(),
    {
        match self {
            UpsertResult::Created { book_id, .. } => *book_id,
            UpsertResult::Updated { book_id, .. } => *book_id,
            UpsertResult::NoChanges { book_id, .. } => *book_id,
        }
    }

    /// The storage path of the book, relative to the library root.
    pub fn book_path(&self) -> (r: &str)
        ensures
            r@ == self.path(),
    {
        match self {
            UpsertResult::Created { book_path, .. } => book_path.as_str(),
            UpsertResult::Updated { book_path, .. } => book_path.as_str(),
            UpsertResult::NoChanges { book_path, .. } => book_path.as_str(),
        }
    }

    /// True when the book was already in the catalog.
    pub fn is_update(&self) -> (r: bool)
        ensures
            r == !(*self is Created),
    {
        match self {
            UpsertResult::Created { .. } => false,
            _ => true,
        }
    }

    /// True when the caller must leave the library tree untouched.
    pub fn skip_file_operations(&self) -> (r: bool)
        ensures
            r == (*self is NoChanges),
    {
        match self {
            UpsertResult::NoChanges { .. } => true,
            _ => false,
        }
    }
}


/// How a database connection is set up.
#[derive(Debug, Clone, Copy, PartialEq, Eq)]
pub struct DatabaseConfig {
    /// Whether the database is to enforce its foreign keys.
    pub enable_foreign_keys: bool,
    /// How long a statement waits for a locked database, in milliseconds;
    /// 0 sets no wait.
    pub busy_timeout_ms: u32,
}

impl Default for DatabaseConfig {
    /// Foreign keys enforced, and five seconds of patience.
    fn default() -> (r: Self)
        ensures
            r.enable_foreign_keys,
            r.busy_timeout_ms == 5000,
    {
        DatabaseConfig { enable_foreign_keys: true, busy_timeout_ms: 5000 }
    }
}

} // verus!
