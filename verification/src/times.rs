//! The repair pass of the consistency sweep, part two: times that are
//! missing. A missing time becomes the present time, or, where a row holds
//! two times and the caller asks for it, the row's other time.
use vstd::prelude::*;
use vstd::string::*;
use crate::catalog::{text_of, BookRow, Catalog};
use crate::companion::{
    ArchivedBookRow, BookmarkRow, Companion, ReadingStateRow, ShelfLinkRow, ShelfRow,
};
use crate::outside::{now_local_micro, now_utc_micro};

verus! {

/// 1 where the time is missing, 0 where it is there.
pub open spec fn unset(time: Option<String>) -> nat {
    if time is None {
        1
    } else {
        0
    }
}

/// `is` is `was` where that was there, and `source` where it was missing.
pub open spec fn filled(was: Option<String>, is: Option<String>, source: Seq<char>) -> bool {
    if was is Some {
        is == was
    } else {
        text_of(is) == Some(source)
    }
}

/// What a missing time is filled from: the row's other time where the caller
/// asks for that and it is there, and `now` otherwise.
pub open spec fn source_for(other: Option<String>, now: Seq<char>, cross_fill: bool) -> Seq<char> {
    if cross_fill && other is Some {
        other->0@
    } else {
        now
    }
}

/// A row with times that may be missing.
pub trait Stamped: Sized {
    /// The number of times that are missing.
    spec fn missing(&self) -> nat;

    /// `is` is `was` with its missing times filled.
    spec fn stamped(was: Self, is: Self, now: Seq<char>, cross_fill: bool) -> bool;

    /// Fills the missing times, and says how many there were.
    fn stamp(&mut self, now: &str, cross_fill: bool) -> (n: u8)
        ensures
            Self::stamped(*old(self), *final(self), now@, cross_fill),
            n == old(self).missing(),
            final(self).missing() == 0,
            old(self).missing() == 0 ==> *final(self) == *old(self),
    ;
}

fn fill(time: &mut Option<String>, source: String) -> (n: u8)
    ensures
        filled(*old(time), *final(time), source@),
        n == unset(*old(time)),
        *final(time) is Some,
        *old(time) is Some ==> *final(time) == *old(time),
{
    if time.is_none() {
        *time = Some(source);
        1
    } else {
        0
    }
}

fn source(other: &Option<String>, now: &str, cross_fill: bool) -> (r: String)
    ensures
        r@ == source_for(*other, now@, cross_fill),
{
    match other {
        Some(text) => if cross_fill {
            text.clone()
        } else {
            String::from_str(now)
        },
        None => String::from_str(now),
    }
}

impl Stamped for BookRow {
    open spec fn missing(&self) -> nat {
        unset(self.timestamp) + unset(self.pubdate) + unset(self.last_modified)
    }

    open spec fn stamped(was: Self, is: Self, now: Seq<char>, cross_fill: bool) -> bool {
        &&& is == (BookRow { timestamp: is.timestamp, pubdate: is.pubdate, last_modified: is.last_modified, ..was })
        &&& filled(was.timestamp, is.timestamp, now)
        &&& filled(was.pubdate, is.pubdate, now)
        &&& filled(was.last_modified, is.last_modified, now)
    }

    fn stamp(&mut self, now: &str, cross_fill: bool) -> (n: u8) {
        let n_timestamp = fill(&mut self.timestamp, String::from_str(now));
        let n_pubdate = fill(&mut self.pubdate, String::from_str(now));
        let n_last_modified = fill(&mut self.last_modified, String::from_str(now));
        n_timestamp + n_pubdate + n_last_modified
    }
}

impl Stamped for ShelfRow {
    open spec fn missing(&self) -> nat {
        unset(self.created) + unset(self.last_modified)
    }

    open spec fn stamped(was: Self, is: Self, now: Seq<char>, cross_fill: bool) -> bool {
        &&& is == (ShelfRow { created: is.created, last_modified: is.last_modified, ..was })
        &&& filled(was.created, is.created, source_for(was.last_modified, now, cross_fill))
        &&& filled(was.last_modified, is.last_modified, source_for(was.created, now, cross_fill))
    }

    fn stamp(&mut self, now: &str, cross_fill: bool) -> (n: u8) {
        let for_created = source(&self.last_modified, now, cross_fill);
        let for_last_modified = source(&self.created, now, cross_fill);
        let n_created = fill(&mut self.created, for_created);
        let n_last_modified = fill(&mut self.last_modified, for_last_modified);
        n_created + n_last_modified
    }
}

impl Stamped for ShelfLinkRow {
    open spec fn missing(&self) -> nat {
        unset(self.date_added)
    }

    open spec fn stamped(was: Self, is: Self, now: Seq<char>, cross_fill: bool) -> bool {
        &&& is == (ShelfLinkRow { date_added: is.date_added, ..was })
        &&& filled(was.date_added, is.date_added, now)
    }

    fn stamp(&mut self, now: &str, cross_fill: bool) -> (n: u8) {
        let n_date_added = fill(&mut self.date_added, String::from_str(now));
        n_date_added
    }
}

impl Stamped for ArchivedBookRow {
    open spec fn missing(&self) -> nat {
        unset(self.last_modified)
    }

    open spec fn stamped(was: Self, is: Self, now: Seq<char>, cross_fill: bool) -> bool {
        &&& is == (ArchivedBookRow { last_modified: is.last_modified, ..was })
        &&& filled(was.last_modified, is.last_modified, now)
    }

    fn stamp(&mut self, now: &str, cross_fill: bool) -> (n: u8) {
        let n_last_modified = fill(&mut self.last_modified, String::from_str(now));
        n_last_modified
    }
}

impl Stamped for ReadingStateRow {
    open spec fn missing(&self) -> nat {
        unset(self.last_modified) + unset(self.priority_timestamp)
    }

    open spec fn stamped(was: Self, is: Self, now: Seq<char>, cross_fill: bool) -> bool {
        &&& is == (ReadingStateRow { last_modified: is.last_modified, priority_timestamp: is.priority_timestamp, ..was })
        &&& filled(was.last_modified, is.last_modified, source_for(was.priority_timestamp, now, cross_fill))
        &&& filled(was.priority_timestamp, is.priority_timestamp, source_for(was.last_modified, now, cross_fill))
    }

    fn stamp(&mut self, now: &str, cross_fill: bool) -> (n: u8) {
        let for_last_modified = source(&self.priority_timestamp, now, cross_fill);
        let for_priority_timestamp = source(&self.last_modified, now, cross_fill);
        let n_last_modified = fill(&mut self.last_modified, for_last_modified);
        let n_priority_timestamp = fill(&mut self.priority_timestamp, for_priority_timestamp);
        n_last_modified + n_priority_timestamp
    }
}

impl Stamped for BookmarkRow {
    open spec fn missing(&self) -> nat {
        unset(self.last_modified)
    }

    open spec fn stamped(was: Self, is: Self, now: Seq<char>, cross_fill: bool) -> bool {
        &&& is == (BookmarkRow { last_modified: is.last_modified, ..was })
        &&& filled(was.last_modified, is.last_modified, now)
    }

    fn stamp(&mut self, now: &str, cross_fill: bool) -> (n: u8) {
        let n_last_modified = fill(&mut self.last_modified, String::from_str(now));
        n_last_modified
    }
}

/// The test that a row misses a time.
pub open spec fn misses_a_time<T: Stamped>() -> spec_fn(T) -> bool {
    |row: T| row.missing() > 0
}

/// What the repair leaves of a table: every row with its missing times
/// filled, in the order it had.
pub open spec fn times_repaired<T: Stamped>(
    pre: Seq<T>,
    post: Seq<T>,
    now: Seq<char>,
    cross_fill: bool,
) -> bool {
    &&& post.len() == pre.len()
    &&& forall|i: int| 0 <= i < pre.len() ==> T::stamped(pre[i], #[trigger] post[i], now, cross_fill)
    &&& forall|i: int| 0 <= i < pre.len() ==> (#[trigger] post[i]).missing() == 0
    &&& forall|i: int| 0 <= i < pre.len() && pre[i].missing() == 0 ==> #[trigger] post[i] == pre[i]
}

/// Fills the missing times of every row of a table, and says how many rows
/// missed one.
pub fn stamp_all<T: Stamped>(rows: &mut Vec<T>, now: &str, cross_fill: bool) -> (n: usize)
    ensures
        times_repaired(old(rows)@, final(rows)@, now@, cross_fill),
        n == old(rows)@.filter(misses_a_time::<T>()).len(),
{
    let len: usize = rows.len();
    let mut count: usize = 0;
    let mut i: usize = 0;
    proof {
        reveal(Seq::filter);
        assert(old(rows)@.take(0).filter(misses_a_time::<T>()) =~= Seq::<T>::empty());
    }
    while i < len
        invariant
            i <= len == rows@.len(),
            len == old(rows)@.len(),
            count == old(rows)@.take(i as int).filter(misses_a_time::<T>()).len(),
            count <= i,
            forall|j: int| i <= j < len ==> #[trigger] rows@[j] == old(rows)@[j],
            forall|j: int|
                0 <= j < i ==> T::stamped(old(rows)@[j], #[trigger] rows@[j], now@, cross_fill),
            forall|j: int| 0 <= j < i ==> (#[trigger] rows@[j]).missing() == 0,
            forall|j: int|
                0 <= j < i && old(rows)@[j].missing() == 0 ==> #[trigger] rows@[j] == old(rows)@[j],
        decreases len - i,
    {
        let ghost before = rows@;
        let mut row = rows.remove(i);
        let found = row.stamp(now, cross_fill);
        rows.insert(i, row);
        if found > 0 {
            count += 1;
        }
        proof {
            reveal(Seq::filter);
            assert(rows@ =~= before.update(i as int, row));
            assert(old(rows)@.take(i + 1).drop_last() =~= old(rows)@.take(i as int));
            assert(old(rows)@.take(i + 1).last() == old(rows)@[i as int]);
        }
        i += 1;
    }
    proof {
        assert(old(rows)@.take(len as int) =~= old(rows)@);
    }
    count
}

/// A table that misses no time is left as it is, and the count is zero.
pub proof fn lemma_times_settled<T: Stamped>(
    pre: Seq<T>,
    post: Seq<T>,
    now: Seq<char>,
    cross_fill: bool,
)
    requires
        times_repaired(pre, post, now, cross_fill),
        forall|i: int| 0 <= i < pre.len() ==> (#[trigger] pre[i]).missing() == 0,
    ensures
        post == pre,
        pre.filter(misses_a_time::<T>()).len() == 0,
{
    assert(post =~= pre);
    crate::rows::lemma_filter_members(pre, misses_a_time::<T>());
    if pre.filter(misses_a_time::<T>()).len() > 0 {
        let x = pre.filter(misses_a_time::<T>())[0];
        assert(misses_a_time::<T>()(x));
        assert(pre.contains(x));
    }
}

/// How many rows of each table missed a time.
#[derive(Debug, Clone, Copy, PartialEq, Eq, Structural)]
pub struct TimestampReport {
    pub books: usize,
    pub shelves: usize,
    pub links: usize,
    pub archived_books: usize,
    pub reading_states: usize,
    pub bookmarks: usize,
}

/// What the repair of the times leaves of the catalog.
pub open spec fn catalog_times_repaired(pre: Catalog, post: Catalog, now: Seq<char>) -> bool {
    &&& post == (Catalog { books: post.books, ..pre })
    &&& times_repaired(pre.books@, post.books@, now, false)
}

/// What the repair of the times leaves of the companion store.
pub open spec fn companion_times_repaired(
    pre: Companion,
    post: Companion,
    now: Seq<char>,
    cross_fill: bool,
) -> bool {
    &&& post == (Companion {
        shelves: post.shelves,
        links: post.links,
        archived_books: post.archived_books,
        reading_states: post.reading_states,
        bookmarks: post.bookmarks,
        ..pre
    })
    &&& times_repaired(pre.shelves@, post.shelves@, now, cross_fill)
    &&& times_repaired(pre.links@, post.links@, now, cross_fill)
    &&& times_repaired(pre.archived_books@, post.archived_books@, now, cross_fill)
    &&& times_repaired(pre.reading_states@, post.reading_states@, now, cross_fill)
    &&& times_repaired(pre.bookmarks@, post.bookmarks@, now, cross_fill)
}

/// Fills the missing times of the catalog's books with `now`, and says how
/// many books missed one.
pub fn repair_catalog_times(catalog: &mut Catalog, now: &str) -> (n: usize)
    ensures
        catalog_times_repaired(*old(catalog), *final(catalog), now@),
        n == old(catalog).books@.filter(misses_a_time::<BookRow>()).len(),
{
    stamp_all(&mut catalog.books, now, false)
}

/// The counts that belong to a repair of the times that started from these
/// stores.
pub open spec fn timestamp_report(books: Seq<BookRow>, store: Companion) -> TimestampReport {
    TimestampReport {
        books: books.filter(misses_a_time::<BookRow>()).len() as usize,
        shelves: store.shelves@.filter(misses_a_time::<ShelfRow>()).len() as usize,
        links: store.links@.filter(misses_a_time::<ShelfLinkRow>()).len() as usize,
        archived_books: store.archived_books@.filter(misses_a_time::<ArchivedBookRow>()).len() as usize,
        reading_states: store.reading_states@.filter(misses_a_time::<ReadingStateRow>()).len() as usize,
        bookmarks: store.bookmarks@.filter(misses_a_time::<BookmarkRow>()).len() as usize,
    }
}

/// Fills the missing times of the companion store, and says how many rows
/// of each table missed one. With `cross_fill` a shelf or a reading state
/// that holds one of its two times gets the other from it.
pub fn repair_companion_times(store: &mut Companion, now: &str, cross_fill: bool) -> (report:
    TimestampReport)
    ensures
        companion_times_repaired(*old(store), *final(store), now@, cross_fill),
        report == timestamp_report(Seq::empty(), *old(store)),
{
    let shelves = stamp_all(&mut store.shelves, now, cross_fill);
    let links = stamp_all(&mut store.links, now, cross_fill);
    let archived_books = stamp_all(&mut store.archived_books, now, cross_fill);
    let reading_states = stamp_all(&mut store.reading_states, now, cross_fill);
    let bookmarks = stamp_all(&mut store.bookmarks, now, cross_fill);
    proof {
        reveal(Seq::filter);
    }
    TimestampReport { books: 0, shelves, links, archived_books, reading_states, bookmarks }
}

/// Fills every missing time of both stores with the present time: the
/// catalog's in UTC, the companion store's in the machine's zone. The stores
/// are left as the two repairs leave them for some pair of times.
pub fn verify_and_repair_timestamps(catalog: &mut Catalog, store: &mut Companion) -> (report:
    TimestampReport)
    ensures
        exists|utc: Seq<char>, local: Seq<char>|
            #![trigger catalog_times_repaired(*old(catalog), *final(catalog), utc), companion_times_repaired(*old(store), *final(store), local, false)]
            catalog_times_repaired(*old(catalog), *final(catalog), utc)
                && companion_times_repaired(*old(store), *final(store), local, false),
        report == timestamp_report(old(catalog).books@, *old(store)),
{
    let utc = now_utc_micro();
    let books = repair_catalog_times(catalog, utc.as_str());
    let local = now_local_micro();
    let report = repair_companion_times(store, local.as_str(), false);
    TimestampReport { books, ..report }
}

/// A repair of the times, run a second time on what the first left, finds
/// nothing missing: the books stay as they are.
pub proof fn law_catalog_times_settle(
    start: Catalog,
    once: Catalog,
    twice: Catalog,
    now_1: Seq<char>,
    now_2: Seq<char>,
)
    requires
        catalog_times_repaired(start, once, now_1),
        catalog_times_repaired(once, twice, now_2),
    ensures
        twice.books@ == once.books@,
        once.books@.filter(misses_a_time::<BookRow>()).len() == 0,
{
    lemma_times_settled(once.books@, twice.books@, now_2, false);
}

/// A repair of the times, run a second time on what the first left, finds
/// nothing missing in the companion store: every table stays as it is and
/// every count is zero.
pub proof fn law_companion_times_settle(
    start: Companion,
    once: Companion,
    twice: Companion,
    now_1: Seq<char>,
    cross_1: bool,
    now_2: Seq<char>,
    cross_2: bool,
)
    requires
        companion_times_repaired(start, once, now_1, cross_1),
        companion_times_repaired(once, twice, now_2, cross_2),
    ensures
        twice.shelves@ == once.shelves@,
        twice.links@ == once.links@,
        twice.archived_books@ == once.archived_books@,
        twice.reading_states@ == once.reading_states@,
        twice.bookmarks@ == once.bookmarks@,
        timestamp_report(Seq::empty(), once) == (TimestampReport {
            books: 0,
            shelves: 0,
            links: 0,
            archived_books: 0,
            reading_states: 0,
            bookmarks: 0,
        }),
{
    lemma_times_settled(once.shelves@, twice.shelves@, now_2, cross_2);
    lemma_times_settled(once.links@, twice.links@, now_2, cross_2);
    lemma_times_settled(once.archived_books@, twice.archived_books@, now_2, cross_2);
    lemma_times_settled(once.reading_states@, twice.reading_states@, now_2, cross_2);
    lemma_times_settled(once.bookmarks@, twice.bookmarks@, now_2, cross_2);
    reveal(Seq::filter);
}

} // verus!
