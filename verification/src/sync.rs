//! The repair pass of the consistency sweep, part three: getting the books
//! on synced shelves ready for the reading device.
use vstd::prelude::*;
use vstd::string::*;
use crate::catalog::text_of;
use crate::companion::{
    Companion, ReadingStateRow, ShelfLinkRow, ShelfRow, StatisticsRow, StoreError, SyncedBookRow,
};
use crate::outside::{now_local_micro, now_utc_micro};
use crate::repair::{
    is_newest, lasting_of, law_bookmarks_two_way, lemma_newest_of_pair,
    lemma_tables_settle_after_times, newest_of, pointers_hold, points_home, reading_report,
    reading_states_repaired, repair_reading_states, same_but_times, same_states_but_times,
    state_ids_differ, state_repaired, tables_repaired, ReadingRepairReport,
};
use crate::rows::{
    count_marked, first_where, keep_marked, largest_id, largest_key, lemma_filter_keeps_all,
    lemma_filter_members, lemma_first_where, lemma_found_after_push, lemma_largest_key_bounds,
    lemma_largest_key_of_same_ids,
};
use crate::shelves::{
    find_reading_state, is_touched, shelf_syncs, shelf_with_id, state_of, text_is,
};
use crate::text::chars_of;
use crate::times::{
    lemma_times_settled, misses_a_time, stamp_all, times_repaired, Stamped,
};
use crate::rows::Keyed;

verus! {

/// The index of the first shelf with the id.
pub open spec fn shelf_at(shelves: Seq<ShelfRow>, id: i64) -> int {
    first_where(shelves, shelf_with_id(id))
}

/// True when the membership is one of a synced shelf of `user`.
pub open spec fn link_syncs_for(shelves: Seq<ShelfRow>, link: ShelfLinkRow, user: i64) -> bool {
    shelf_syncs(shelves, link.shelf) && shelves[shelf_at(shelves, link.shelf)].user_id == user
}

/// True when a synced shelf of `user` holds `book`.
pub open spec fn pair_is_synced(store: Companion, book: i64, user: i64) -> bool {
    exists|i: int|
        0 <= i < store.links@.len() && (#[trigger] store.links@[i]).book_id == book
            && link_syncs_for(store.shelves@, store.links@[i], user)
}

/// The test that a device acknowledgment is of no book on a synced shelf of
/// its user.
pub open spec fn is_not_blocking(store: Companion) -> spec_fn(SyncedBookRow) -> bool {
    |row: SyncedBookRow| !pair_is_synced(store, row.book_id, row.user_id)
}

/// True when a time is written without a fraction of six digits.
pub open spec fn lacks_precision(time: Option<Seq<char>>) -> bool {
    time is Some && (!time->0.contains('.') || time->0.len() < 26)
}

fn find_shelf_by_id(shelves: &Vec<ShelfRow>, id: i64) -> (i: usize)
    ensures
        i == shelf_at(shelves@, id),
        i <= shelves@.len(),
{
    let mut i: usize = 0;
    while i < shelves.len() && shelves[i].id != id
        invariant
            i <= shelves@.len(),
            forall|j: int| 0 <= j < i ==> !shelf_with_id(id)(#[trigger] shelves@[j]),
        decreases shelves@.len() - i,
    {
        i += 1;
    }
    proof {
        lemma_first_where(shelves@, shelf_with_id(id));
        if i < shelves@.len() {
            assert(shelf_with_id(id)(shelves@[i as int]));
        }
    }
    i
}

/// The user for whom a membership syncs, if it is one of a synced shelf.
fn synced_user(shelves: &Vec<ShelfRow>, link: &ShelfLinkRow) -> (r: Option<i64>)
    ensures
        r is Some <==> shelf_syncs(shelves@, link.shelf),
        forall|user: i64| link_syncs_for(shelves@, *link, user) <==> r == Some(user),
{
    let at = find_shelf_by_id(shelves, link.shelf);
    if at < shelves.len() && shelves[at].kobo_sync {
        Some(shelves[at].user_id)
    } else {
        None
    }
}

fn is_synced_pair(store: &Companion, book: i64, user: i64) -> (r: bool)
    ensures
        r == pair_is_synced(*store, book, user),
{
    let mut i: usize = 0;
    while i < store.links.len()
        invariant
            i <= store.links@.len(),
            forall|j: int|
                0 <= j < i ==> !((#[trigger] store.links@[j]).book_id == book && link_syncs_for(
                    store.shelves@,
                    store.links@[j],
                    user,
                )),
        decreases store.links@.len() - i,
    {
        if store.links[i].book_id == book {
            match synced_user(&store.shelves, &store.links[i]) {
                Some(u) => {
                    if u == user {
                        return true;
                    }
                },
                None => {},
            }
        }
        i += 1;
    }
    false
}

/// Forgets what devices acknowledged of the books on synced shelves, so that
/// the next sync looks at them again. Says how many rows went.
pub fn forget_acknowledgments(store: &mut Companion) -> (removed: usize)
    ensures
        *final(store) == (Companion { synced_books: final(store).synced_books, ..*old(store) }),
        final(store).synced_books@ == old(store).synced_books@.filter(is_not_blocking(*old(store))),
        removed == old(store).synced_books@.len() - final(store).synced_books@.len(),
{
    let n: usize = store.synced_books.len();
    let mut marks: Vec<bool> = Vec::new();
    let mut i: usize = 0;
    while i < n
        invariant
            i <= n == store.synced_books@.len(),
            *store == *old(store),
            marks@.len() == i,
            forall|j: int|
                0 <= j < i ==> marks@[j] == is_not_blocking(*store)(#[trigger] store.synced_books@[j]),
        decreases n - i,
    {
        let row = store.synced_books[i];
        marks.push(!is_synced_pair(store, row.book_id, row.user_id));
        i += 1;
    }
    keep_marked(&mut store.synced_books, &marks, Ghost(is_not_blocking(*old(store))));
    proof {
        lemma_filter_members(old(store).synced_books@, is_not_blocking(*old(store)));
    }
    n - store.synced_books.len()
}

/// True when `row` is a reading state that the repair made for a synced
/// book: with the next id, for a user and a book that had none before it,
/// with `now` as its times and no bookmark yet.
pub open spec fn is_made_for_sync(
    row: ReadingStateRow,
    before: Seq<ReadingStateRow>,
    store: Companion,
    now: Seq<char>,
) -> bool {
    &&& row.id == largest_key(before) + 1
    &&& pair_is_synced(store, row.book_id, row.user_id)
    &&& first_where(before, state_of(row.book_id, row.user_id)) >= before.len()
    &&& row.current_bookmark is None
    &&& text_is(row.last_modified, now)
    &&& text_is(row.priority_timestamp, now)
}

/// Every reading state from index `base` on was made for a synced book.
pub open spec fn new_states_fit(
    states: Seq<ReadingStateRow>,
    base: int,
    store: Companion,
    now: Seq<char>,
) -> bool {
    forall|k: int|
        base <= k < states.len() ==> is_made_for_sync(
            #[trigger] states[k],
            states.take(k),
            store,
            now,
        )
}

/// The books of the first `count` memberships have a reading state for the
/// user of their synced shelf.
pub open spec fn links_covered(states: Seq<ReadingStateRow>, store: Companion, count: int) -> bool {
    forall|i: int, user: i64|
        0 <= i < count && link_syncs_for(store.shelves@, #[trigger] store.links@[i], user)
            ==> #[trigger] first_where(states, state_of(store.links@[i].book_id, user))
            < states.len()
}

/// True when the reading state at index `j` is the one that the repair
/// brings to the present time: the first of a book on a synced shelf of its
/// user, with a time that lacks precision.
pub open spec fn needs_new_times(store: Companion, j: int) -> bool {
    let row = store.reading_states@[j];
    &&& pair_is_synced(store, row.book_id, row.user_id)
    &&& first_where(store.reading_states@, state_of(row.book_id, row.user_id)) == j
    &&& lacks_precision(text_of(row.last_modified))
}

/// `is` is `was` with `now` as both its times.
pub open spec fn has_new_times(was: ReadingStateRow, is: ReadingStateRow, now: Seq<char>) -> bool {
    &&& is == (ReadingStateRow {
        last_modified: is.last_modified,
        priority_timestamp: is.priority_timestamp,
        ..was
    })
    &&& text_is(is.last_modified, now)
    &&& text_is(is.priority_timestamp, now)
}

/// What the first step of the sync repair leaves of the reading states: the
/// ones that were there, with new times where `needs_new_times` says so,
/// followed by a new one for every book on a synced shelf whose user had
/// none.
pub open spec fn states_made_ready(
    pre: Companion,
    post: Seq<ReadingStateRow>,
    now: Seq<char>,
) -> bool {
    let was = pre.reading_states@;
    &&& was.len() <= post.len()
    &&& forall|j: int|
        0 <= j < was.len() ==> if needs_new_times(pre, j) {
            has_new_times(was[j], #[trigger] post[j], now)
        } else {
            post[j] == was[j]
        }
    &&& new_states_fit(post, was.len() as int, pre, now)
    &&& links_covered(post, pre, pre.links@.len() as int)
}

/// True when the reading states can take one new id for every membership.
pub open spec fn has_room_for_states(pre: Companion) -> bool {
    largest_key(pre.reading_states@) + pre.links@.len() <= i64::MAX
}

proof fn lemma_new_states_after_push(
    before: Seq<ReadingStateRow>,
    after: Seq<ReadingStateRow>,
    base: int,
    store: Companion,
    now: Seq<char>,
)
    requires
        0 <= base,
        new_states_fit(before, base, store, now),
        after.len() == before.len() + 1,
        after.drop_last() == before,
        is_made_for_sync(after.last(), before, store, now),
    ensures
        new_states_fit(after, base, store, now),
{
    assert forall|k: int| base <= k < after.len() implies is_made_for_sync(
        #[trigger] after[k],
        after.take(k),
        store,
        now,
    ) by {
        if k < before.len() {
            assert(after[k] == after.drop_last()[k]);
            assert(after.take(k) =~= before.take(k));
        } else {
            assert(after.take(k) =~= before);
        }
    }
}

fn create_missing_states(store: &mut Companion, now: &str) -> (made: usize)
    requires
        has_room_for_states(*old(store)),
    ensures
        *final(store) == (Companion { reading_states: final(store).reading_states, ..*old(store) }),
        old(store).reading_states@.len() <= final(store).reading_states@.len(),
        final(store).reading_states@.take(old(store).reading_states@.len() as int)
            == old(store).reading_states@,
        new_states_fit(
            final(store).reading_states@,
            old(store).reading_states@.len() as int,
            *old(store),
            now@,
        ),
        links_covered(final(store).reading_states@, *old(store), old(store).links@.len() as int),
        made == final(store).reading_states@.len() - old(store).reading_states@.len(),
        made <= old(store).links@.len(),
{
    let base: usize = store.reading_states.len();
    let n: usize = store.links.len();
    let mut i: usize = 0;
    proof {
        assert(store.reading_states@.take(base as int) =~= old(store).reading_states@);
    }
    while i < n
        invariant
            i <= n == old(store).links@.len(),
            base == old(store).reading_states@.len(),
            *store == (Companion { reading_states: store.reading_states, ..*old(store) }),
            base <= store.reading_states@.len() <= base + i,
            store.reading_states@.take(base as int) == old(store).reading_states@,
            largest_key(store.reading_states@) <= largest_key(old(store).reading_states@) + i,
            has_room_for_states(*old(store)),
            new_states_fit(store.reading_states@, base as int, *old(store), now@),
            links_covered(store.reading_states@, *old(store), i as int),
        decreases n - i,
    {
        let book = store.links[i].book_id;
        let ghost before = store.reading_states@;
        let mut pushed = false;
        match synced_user(&store.shelves, &store.links[i]) {
            Some(user) => {
                let at = find_reading_state(store, book, user);
                if at >= store.reading_states.len() {
                    let id: i64 = largest_id(&store.reading_states) + 1;
                    store.reading_states.push(
                        ReadingStateRow {
                            id,
                            user_id: user,
                            book_id: book,
                            current_bookmark: None,
                            last_modified: Some(String::from_str(now)),
                            priority_timestamp: Some(String::from_str(now)),
                        },
                    );
                    pushed = true;
                    proof {
                        let after = store.reading_states@;
                        assert(after.drop_last() =~= before);
                        assert(after.take(base as int) =~= before.take(base as int));
                        assert(old(store).links@[i as int].book_id == book);
                        lemma_new_states_after_push(before, after, base as int, *old(store), now@);
                        lemma_first_where(after, state_of(book, user));
                        assert(state_of(book, user)(after[after.len() - 1]));
                    }
                }
            },
            None => {},
        }
        proof {
            let after = store.reading_states@;
            assert forall|m: int, user: i64|
                0 <= m < i + 1 && link_syncs_for(
                    old(store).shelves@,
                    #[trigger] old(store).links@[m],
                    user,
                ) implies #[trigger] first_where(after, state_of(old(store).links@[m].book_id, user))
                < after.len() by {
                if m < i {
                    assert(first_where(before, state_of(old(store).links@[m].book_id, user))
                        < before.len());
                    if pushed {
                        lemma_found_after_push(
                            before,
                            after,
                            state_of(old(store).links@[m].book_id, user),
                        );
                    }
                }
            }
        }
        i += 1;
    }
    store.reading_states.len() - base
}


fn time_lacks_precision(time: &Option<String>) -> (r: bool)
    ensures
        r == lacks_precision(text_of(*time)),
{
    match time {
        None => false,
        Some(text) => {
            let chars = chars_of(text.as_str());
            let mut i: usize = 0;
            while i < chars.len() && chars[i] != '.'
                invariant
                    i <= chars@.len(),
                    forall|j: int| 0 <= j < i ==> chars@[j] != '.',
                decreases chars@.len() - i,
            {
                i += 1;
            }
            i >= chars.len() || chars.len() < 26
        },
    }
}

/// True when the shelf at index `j` is a synced shelf that holds a book and
/// is the first of its id.
pub open spec fn is_synced_with_books(store: Companion, j: int) -> bool {
    let shelf = store.shelves@[j];
    &&& shelf.kobo_sync
    &&& shelf_at(store.shelves@, shelf.id) == j
    &&& exists|i: int| 0 <= i < store.links@.len() && (#[trigger] store.links@[i]).shelf == shelf.id
}

/// What the sync repair leaves of the shelves: a synced shelf that holds a
/// book has `now` as the time of its last change.
pub open spec fn shelves_touched(pre: Companion, post: Seq<ShelfRow>, now: Seq<char>) -> bool {
    &&& post.len() == pre.shelves@.len()
    &&& forall|j: int|
        0 <= j < post.len() ==> if is_synced_with_books(pre, j) {
            is_touched(#[trigger] post[j], pre.shelves@[j], now)
        } else {
            post[j] == pre.shelves@[j]
        }
}

/// What the sync repair leaves of the memberships: one of a synced shelf
/// has `now` as the time it was added.
pub open spec fn memberships_reset(pre: Companion, post: Seq<ShelfLinkRow>, now: Seq<char>) -> bool {
    &&& post.len() == pre.links@.len()
    &&& forall|i: int|
        0 <= i < post.len() ==> if shelf_syncs(pre.shelves@, pre.links@[i].shelf) {
            &&& #[trigger] post[i] == (ShelfLinkRow { date_added: post[i].date_added, ..pre.links@[i] })
            &&& text_is(post[i].date_added, now)
        } else {
            post[i] == pre.links@[i]
        }
}

fn has_link_on(links: &Vec<ShelfLinkRow>, shelf: i64) -> (r: bool)
    ensures
        r == exists|i: int| 0 <= i < links@.len() && (#[trigger] links@[i]).shelf == shelf,
{
    let mut i: usize = 0;
    while i < links.len()
        invariant
            i <= links@.len(),
            forall|j: int| 0 <= j < i ==> (#[trigger] links@[j]).shelf != shelf,
        decreases links@.len() - i,
    {
        if links[i].shelf == shelf {
            return true;
        }
        i += 1;
    }
    false
}

/// For each reading state, whether the repair brings it to the present
/// time.
pub open spec fn standardise_marks(store: Companion) -> Seq<bool> {
    Seq::new(store.reading_states@.len(), |j: int| needs_new_times(store, j))
}

/// For each shelf, whether the repair touches it.
pub open spec fn shelf_marks(store: Companion) -> Seq<bool> {
    Seq::new(store.shelves@.len(), |j: int| is_synced_with_books(store, j))
}

/// For each membership, whether it is one of a synced shelf.
pub open spec fn link_marks(store: Companion) -> Seq<bool> {
    Seq::new(store.links@.len(), |i: int| shelf_syncs(store.shelves@, store.links@[i].shelf))
}

fn standardise_states(store: &mut Companion, now: &str) -> (changed: usize)
    ensures
        *final(store) == (Companion { reading_states: final(store).reading_states, ..*old(store) }),
        final(store).reading_states@.len() == old(store).reading_states@.len(),
        forall|j: int|
            0 <= j < old(store).reading_states@.len() ==> if needs_new_times(*old(store), j) {
                has_new_times(
                    old(store).reading_states@[j],
                    #[trigger] final(store).reading_states@[j],
                    now@,
                )
            } else {
                final(store).reading_states@[j] == old(store).reading_states@[j]
            },
        changed == count_marked(standardise_marks(*old(store))),
{
    let n: usize = store.reading_states.len();
    let mut marks: Vec<bool> = Vec::new();
    let mut i: usize = 0;
    while i < n
        invariant
            i <= n == store.reading_states@.len(),
            *store == *old(store),
            marks@.len() == i,
            forall|j: int| 0 <= j < i ==> marks@[j] == needs_new_times(*store, j),
        decreases n - i,
    {
        let book = store.reading_states[i].book_id;
        let user = store.reading_states[i].user_id;
        let mark = time_lacks_precision(&store.reading_states[i].last_modified)
            && find_reading_state(store, book, user) == i && is_synced_pair(store, book, user);
        marks.push(mark);
        i += 1;
    }
    let mut changed: usize = 0;
    let mut k: usize = 0;
    proof {
        assert(marks@ =~= standardise_marks(*old(store)));
        assert(marks@.take(0) =~= Seq::<bool>::empty());
    }
    while k < n
        invariant
            k <= n == store.reading_states@.len(),
            n == old(store).reading_states@.len(),
            changed <= k,
            changed == count_marked(marks@.take(k as int)),
            marks@ == standardise_marks(*old(store)),
            marks@.len() == n,
            *store == (Companion { reading_states: store.reading_states, ..*old(store) }),
            forall|j: int| 0 <= j < n ==> marks@[j] == needs_new_times(*old(store), j),
            forall|j: int| k <= j < n ==> #[trigger] store.reading_states@[j] == old(store).reading_states@[j],
            forall|j: int|
                0 <= j < k ==> if needs_new_times(*old(store), j) {
                    has_new_times(
                        old(store).reading_states@[j],
                        #[trigger] store.reading_states@[j],
                        now@,
                    )
                } else {
                    store.reading_states@[j] == old(store).reading_states@[j]
                },
        decreases n - k,
    {
        proof {
            assert(marks@.take(k + 1).drop_last() =~= marks@.take(k as int));
        }
        if marks[k] {
            let ghost before = store.reading_states@;
            let mut row = store.reading_states.remove(k);
            row.last_modified = Some(String::from_str(now));
            row.priority_timestamp = Some(String::from_str(now));
            store.reading_states.insert(k, row);
            changed += 1;
            proof {
                assert(store.reading_states@ =~= before.update(k as int, row));
            }
        }
        k += 1;
    }
    proof {
        assert(marks@.take(n as int) =~= marks@);
    }
    changed
}

fn touch_synced_shelves(store: &mut Companion, now: &str) -> (changed: usize)
    ensures
        *final(store) == (Companion { shelves: final(store).shelves, ..*old(store) }),
        shelves_touched(*old(store), final(store).shelves@, now@),
        changed == count_marked(shelf_marks(*old(store))),
{
    let n: usize = store.shelves.len();
    let mut marks: Vec<bool> = Vec::new();
    let mut i: usize = 0;
    while i < n
        invariant
            i <= n == store.shelves@.len(),
            *store == *old(store),
            marks@.len() == i,
            forall|j: int| 0 <= j < i ==> marks@[j] == is_synced_with_books(*store, j),
        decreases n - i,
    {
        let id = store.shelves[i].id;
        let mark = store.shelves[i].kobo_sync && find_shelf_by_id(&store.shelves, id) == i
            && has_link_on(&store.links, id);
        marks.push(mark);
        i += 1;
    }
    let mut changed: usize = 0;
    let mut k: usize = 0;
    proof {
        assert(marks@ =~= shelf_marks(*old(store)));
        assert(marks@.take(0) =~= Seq::<bool>::empty());
    }
    while k < n
        invariant
            k <= n == store.shelves@.len(),
            n == old(store).shelves@.len(),
            changed <= k,
            changed == count_marked(marks@.take(k as int)),
            marks@ == shelf_marks(*old(store)),
            marks@.len() == n,
            *store == (Companion { shelves: store.shelves, ..*old(store) }),
            forall|j: int| 0 <= j < n ==> marks@[j] == is_synced_with_books(*old(store), j),
            forall|j: int| k <= j < n ==> #[trigger] store.shelves@[j] == old(store).shelves@[j],
            forall|j: int|
                0 <= j < k ==> if is_synced_with_books(*old(store), j) {
                    is_touched(#[trigger] store.shelves@[j], old(store).shelves@[j], now@)
                } else {
                    store.shelves@[j] == old(store).shelves@[j]
                },
        decreases n - k,
    {
        proof {
            assert(marks@.take(k + 1).drop_last() =~= marks@.take(k as int));
        }
        if marks[k] {
            let ghost before = store.shelves@;
            let mut row = store.shelves.remove(k);
            row.last_modified = Some(String::from_str(now));
            store.shelves.insert(k, row);
            changed += 1;
            proof {
                assert(store.shelves@ =~= before.update(k as int, row));
            }
        }
        k += 1;
    }
    proof {
        assert(marks@.take(n as int) =~= marks@);
    }
    changed
}

fn reset_membership_times(store: &mut Companion, now: &str) -> (changed: usize)
    ensures
        *final(store) == (Companion { links: final(store).links, ..*old(store) }),
        memberships_reset(*old(store), final(store).links@, now@),
        changed == count_marked(link_marks(*old(store))),
{
    let n: usize = store.links.len();
    let mut changed: usize = 0;
    let mut k: usize = 0;
    let ghost marks = link_marks(*store);
    proof {
        assert(marks.take(0) =~= Seq::<bool>::empty());
    }
    while k < n
        invariant
            k <= n == store.links@.len(),
            n == old(store).links@.len(),
            changed <= k,
            marks == link_marks(*old(store)),
            changed == count_marked(marks.take(k as int)),
            *store == (Companion { links: store.links, ..*old(store) }),
            forall|j: int| k <= j < n ==> #[trigger] store.links@[j] == old(store).links@[j],
            forall|i: int|
                0 <= i < k ==> if shelf_syncs(old(store).shelves@, old(store).links@[i].shelf) {
                    &&& #[trigger] store.links@[i] == (ShelfLinkRow {
                        date_added: store.links@[i].date_added,
                        ..old(store).links@[i]
                    })
                    &&& text_is(store.links@[i].date_added, now@)
                } else {
                    store.links@[i] == old(store).links@[i]
                },
        decreases n - k,
    {
        let at = find_shelf_by_id(&store.shelves, store.links[k].shelf);
        proof {
            assert(marks.take(k + 1).drop_last() =~= marks.take(k as int));
            assert(marks.take(k + 1).last() == shelf_syncs(
                old(store).shelves@,
                old(store).links@[k as int].shelf,
            ));
        }
        if at < store.shelves.len() && store.shelves[at].kobo_sync {
            let ghost before = store.links@;
            let mut row = store.links.remove(k);
            row.date_added = Some(String::from_str(now));
            store.links.insert(k, row);
            changed += 1;
            proof {
                assert(store.links@ =~= before.update(k as int, row));
            }
        }
        k += 1;
    }
    proof {
        assert(marks.take(n as int) =~= marks);
    }
    changed
}


/// The test that a statistics row belongs to the reading state.
pub open spec fn statistics_of(state: i64) -> spec_fn(StatisticsRow) -> bool {
    |s: StatisticsRow| s.reading_state_id == state
}

/// True when `row` is a statistics row that the repair made: with the next
/// id and empty counters, for a reading state that had none, with that
/// reading state's time.
pub open spec fn is_made_for_state(
    row: StatisticsRow,
    before: Seq<StatisticsRow>,
    states: Seq<ReadingStateRow>,
    had: Seq<StatisticsRow>,
) -> bool {
    &&& row.id == largest_key(before) + 1
    &&& row.remaining_time_minutes is None
    &&& row.spent_reading_minutes is None
    &&& exists|j: int|
        0 <= j < states.len() && (#[trigger] states[j]).id == row.reading_state_id && text_of(
            row.last_modified,
        ) == text_of(states[j].last_modified)
    &&& first_where(had, statistics_of(row.reading_state_id)) >= had.len()
}

/// What the sync repair leaves of the statistics: the rows that were there,
/// followed by a new row for every reading state that had none.
pub open spec fn statistics_completed(pre: Companion, post: Seq<StatisticsRow>) -> bool {
    let had = pre.statistics@;
    &&& had.len() <= post.len()
    &&& post.take(had.len() as int) == had
    &&& forall|k: int|
        had.len() <= k < post.len() ==> is_made_for_state(
            #[trigger] post[k],
            post.take(k),
            pre.reading_states@,
            had,
        )
    &&& forall|j: int|
        0 <= j < pre.reading_states@.len() ==> first_where(
            post,
            statistics_of((#[trigger] pre.reading_states@[j]).id),
        ) < post.len()
}

fn first_statistics_of(statistics: &Vec<StatisticsRow>, limit: usize, state: i64) -> (r: usize)
    requires
        limit <= statistics@.len(),
    ensures
        r == first_where(statistics@.take(limit as int), statistics_of(state)),
        r <= limit,
{
    let mut i: usize = 0;
    while i < limit && statistics[i].reading_state_id != state
        invariant
            i <= limit <= statistics@.len(),
            forall|j: int|
                0 <= j < i ==> !statistics_of(state)(#[trigger] statistics@.take(limit as int)[j]),
        decreases limit - i,
    {
        i += 1;
    }
    proof {
        lemma_first_where(statistics@.take(limit as int), statistics_of(state));
        if i < limit {
            assert(statistics_of(state)(statistics@.take(limit as int)[i as int]));
        }
    }
    i
}

fn same_time(time: &Option<String>) -> (r: Option<String>)
    ensures
        r == *time,
{
    match time {
        Some(text) => Some(text.clone()),
        None => None,
    }
}

fn create_missing_statistics(store: &mut Companion) -> (made: usize)
    requires
        largest_key(old(store).statistics@) + old(store).reading_states@.len() <= i64::MAX,
    ensures
        *final(store) == (Companion { statistics: final(store).statistics, ..*old(store) }),
        statistics_completed(*old(store), final(store).statistics@),
        made == final(store).statistics@.len() - old(store).statistics@.len(),
{
    let base: usize = store.statistics.len();
    let n: usize = store.reading_states.len();
    let ghost had = store.statistics@;
    let ghost states = store.reading_states@;
    let mut i: usize = 0;
    proof {
        assert(store.statistics@.take(base as int) =~= had);
    }
    while i < n
        invariant
            i <= n == states.len(),
            base == had.len(),
            had == old(store).statistics@,
            states == old(store).reading_states@,
            *store == (Companion { statistics: store.statistics, ..*old(store) }),
            base <= store.statistics@.len() <= base + i,
            store.statistics@.take(base as int) == had,
            largest_key(store.statistics@) <= largest_key(had) + i,
            largest_key(had) + n <= i64::MAX,
            forall|k: int|
                base <= k < store.statistics@.len() ==> is_made_for_state(
                    #[trigger] store.statistics@[k],
                    store.statistics@.take(k),
                    states,
                    had,
                ),
            forall|j: int|
                0 <= j < i ==> first_where(
                    store.statistics@,
                    statistics_of((#[trigger] states[j]).id),
                ) < store.statistics@.len(),
        decreases n - i,
    {
        let state = store.reading_states[i].id;
        let at = first_statistics_of(&store.statistics, base, state);
        let ghost before = store.statistics@;
        let mut pushed = false;
        if at >= base {
            let id: i64 = largest_id(&store.statistics) + 1;
            let last_modified = same_time(&store.reading_states[i].last_modified);
            store.statistics.push(
                StatisticsRow {
                    id,
                    reading_state_id: state,
                    last_modified,
                    remaining_time_minutes: None,
                    spent_reading_minutes: None,
                },
            );
            pushed = true;
            proof {
                let after = store.statistics@;
                assert(after.drop_last() =~= before);
                assert(after.take(base as int) =~= before.take(base as int));
                assert forall|k: int| base <= k < after.len() implies is_made_for_state(
                    #[trigger] after[k],
                    after.take(k),
                    states,
                    had,
                ) by {
                    if k < before.len() {
                        assert(after[k] == after.drop_last()[k]);
                        assert(after.take(k) =~= before.take(k));
                    } else {
                        assert(after.take(k) =~= before);
                        assert(states[i as int].id == after[k].reading_state_id);
                    }
                }
                lemma_first_where(after, statistics_of(state));
                assert(statistics_of(state)(after[after.len() - 1]));
            }
        } else {
            proof {
                lemma_first_where(had, statistics_of(state));
                lemma_first_where(before, statistics_of(state));
                assert(before.take(base as int)[at as int] == before[at as int]);
                assert(statistics_of(state)(before[at as int]));
            }
        }
        proof {
            let after = store.statistics@;
            assert forall|j: int| 0 <= j < i + 1 implies first_where(
                after,
                statistics_of((#[trigger] states[j]).id),
            ) < after.len() by {
                if j < i && pushed {
                    lemma_found_after_push(before, after, statistics_of(states[j].id));
                }
            }
        }
        i += 1;
    }
    store.statistics.len() - base
}


/// How much the sync repair changed.
#[derive(Debug, Clone, Copy, PartialEq, Eq, Structural)]
pub struct SyncRepairReport {
    pub acknowledgments_cleared: usize,
    pub states_standardised: usize,
    pub states_created: usize,
    pub state_times_filled: usize,
    pub statistics_created: usize,
    pub shelves_touched: usize,
    pub memberships_reset: usize,
    pub reading: ReadingRepairReport,
}

/// True when the tables that the sync repair writes new rows to can take
/// them.
pub open spec fn has_room_for_sync(pre: Companion) -> bool {
    &&& largest_key(pre.reading_states@) + pre.links@.len() <= i64::MAX
    &&& largest_key(pre.statistics@) + pre.reading_states@.len() + pre.links@.len() <= i64::MAX
    &&& largest_key(pre.bookmarks@) + pre.reading_states@.len() + pre.links@.len() <= i64::MAX
}

/// The first step of the sync repair: what devices acknowledged of books on
/// synced shelves is forgotten, every such book has a reading state for the
/// shelf's user, and the shelves carry the present time.
pub open spec fn made_ready_for_sync(pre: Companion, post: Companion, now: Seq<char>) -> bool {
    &&& post == (Companion {
        synced_books: post.synced_books,
        reading_states: post.reading_states,
        shelves: post.shelves,
        ..pre
    })
    &&& post.synced_books@ == pre.synced_books@.filter(is_not_blocking(pre))
    &&& states_made_ready(pre, post.reading_states@, now)
    &&& shelves_touched(pre, post.shelves@, now)
}

/// The second step: a reading state that misses one of its two times gets
/// it from the other, or from the present time where both are missing.
pub open spec fn state_times_filled(pre: Companion, post: Companion, now: Seq<char>) -> bool {
    &&& post == (Companion { reading_states: post.reading_states, ..pre })
    &&& times_repaired(pre.reading_states@, post.reading_states@, now, true)
}

/// The third step: every reading state has statistics.
pub open spec fn all_have_statistics(pre: Companion, post: Companion) -> bool {
    &&& post == (Companion { statistics: post.statistics, ..pre })
    &&& statistics_completed(pre, post.statistics@)
}

/// The fourth step: the memberships of synced shelves carry the present
/// time.
pub open spec fn membership_times_reset(pre: Companion, post: Companion, now: Seq<char>) -> bool {
    &&& post == (Companion { links: post.links, ..pre })
    &&& memberships_reset(pre, post.links@, now)
}

/// The counts that belong to a sync repair that went from `pre` through
/// `a`, `b`, `c` and `d` to `post`.
pub open spec fn sync_report(
    pre: Companion,
    a: Companion,
    b: Companion,
    c: Companion,
    d: Companion,
    post: Companion,
) -> SyncRepairReport {
    SyncRepairReport {
        acknowledgments_cleared: (pre.synced_books@.len() - a.synced_books@.len()) as usize,
        states_standardised: count_marked(standardise_marks(pre)) as usize,
        states_created: (a.reading_states@.len() - pre.reading_states@.len()) as usize,
        state_times_filled: a.reading_states@.filter(misses_a_time::<ReadingStateRow>()).len() as usize,
        statistics_created: (c.statistics@.len() - b.statistics@.len()) as usize,
        shelves_touched: count_marked(shelf_marks(pre)) as usize,
        memberships_reset: count_marked(link_marks(c)) as usize,
        reading: reading_report(d, post),
    }
}

/// What the sync repair leaves, and what it reports: the store after its
/// four steps and the repair of the reading states, one after the other.
pub open spec fn sync_repaired(
    pre: Companion,
    post: Companion,
    local: Seq<char>,
    utc: Seq<char>,
    report: SyncRepairReport,
) -> bool {
    exists|a: Companion, b: Companion, c: Companion, d: Companion|
        #![trigger made_ready_for_sync(pre, a, local), state_times_filled(a, b, local), all_have_statistics(b, c), membership_times_reset(c, d, utc)]
        made_ready_for_sync(pre, a, local) && state_times_filled(a, b, local)
            && all_have_statistics(b, c) && membership_times_reset(c, d, utc)
            && reading_states_repaired(d, post, local) && report == sync_report(
            pre,
            a,
            b,
            c,
            d,
            post,
        )
}

proof fn lemma_same_pairs(a: Companion, b: Companion)
    requires
        a.links == b.links,
        a.shelves == b.shelves,
    ensures
        forall|book: i64, user: i64| #[trigger]
            pair_is_synced(a, book, user) == pair_is_synced(b, book, user),
{
    assert forall|book: i64, user: i64| #[trigger]
        pair_is_synced(a, book, user) == pair_is_synced(b, book, user) by {
        if pair_is_synced(a, book, user) {
            let i = choose|i: int|
                0 <= i < a.links@.len() && (#[trigger] a.links@[i]).book_id == book
                    && link_syncs_for(a.shelves@, a.links@[i], user);
            assert(b.links@[i].book_id == book && link_syncs_for(b.shelves@, b.links@[i], user));
        }
        if pair_is_synced(b, book, user) {
            let i = choose|i: int|
                0 <= i < b.links@.len() && (#[trigger] b.links@[i]).book_id == book
                    && link_syncs_for(b.shelves@, b.links@[i], user);
            assert(a.links@[i].book_id == book && link_syncs_for(a.shelves@, a.links@[i], user));
        }
    }
}

fn make_ready_for_sync(store: &mut Companion, now: &str) -> (r: (usize, usize, usize, usize))
    requires
        has_room_for_states(*old(store)),
    ensures
        made_ready_for_sync(*old(store), *final(store), now@),
        final(store).reading_states@.len() <= old(store).reading_states@.len()
            + old(store).links@.len(),
        r.0 == old(store).synced_books@.len() - final(store).synced_books@.len(),
        r.1 == count_marked(standardise_marks(*old(store))),
        r.2 == final(store).reading_states@.len() - old(store).reading_states@.len(),
        r.3 == count_marked(shelf_marks(*old(store))),
{
    let cleared = forget_acknowledgments(store);
    let ghost s0 = *store;
    let standardised = standardise_states(store, now);
    let ghost s1 = *store;
    proof {
        assert forall|i: int| 0 <= i < s0.reading_states@.len() implies (
        #[trigger] s0.reading_states@[i]).key() == s1.reading_states@[i].key() by {
            if needs_new_times(s0, i) {
                assert(has_new_times(s0.reading_states@[i], s1.reading_states@[i], now@));
            }
        }
        lemma_largest_key_of_same_ids(s0.reading_states@, s1.reading_states@);
    }
    let created = create_missing_states(store, now);
    let ghost s2 = *store;
    let touched = touch_synced_shelves(store, now);
    proof {
        let pre = *old(store);
        let post = store.reading_states@;
        lemma_same_pairs(s0, pre);
        lemma_same_pairs(s1, pre);
        lemma_same_pairs(s2, pre);
        assert(standardise_marks(s0) =~= standardise_marks(pre));
        assert(shelf_marks(s2) =~= shelf_marks(pre));
        assert forall|j: int| 0 <= j < pre.reading_states@.len() implies if needs_new_times(pre, j) {
            has_new_times(pre.reading_states@[j], #[trigger] post[j], now@)
        } else {
            post[j] == pre.reading_states@[j]
        } by {
            assert(post.take(pre.reading_states@.len() as int)[j] == post[j]);
            assert(needs_new_times(s0, j) == needs_new_times(pre, j));
        }
        assert forall|k: int| pre.reading_states@.len() <= k < post.len() implies is_made_for_sync(
            #[trigger] post[k],
            post.take(k),
            pre,
            now@,
        ) by {
            assert(is_made_for_sync(post[k], post.take(k), s1, now@));
        }
        assert forall|i: int, user: i64|
            0 <= i < pre.links@.len() && link_syncs_for(
                pre.shelves@,
                #[trigger] pre.links@[i],
                user,
            ) implies #[trigger] first_where(post, state_of(pre.links@[i].book_id, user))
            < post.len() by {
            assert(link_syncs_for(s1.shelves@, s1.links@[i], user));
        }
        assert forall|j: int| 0 <= j < store.shelves@.len() implies if is_synced_with_books(pre, j) {
            is_touched(#[trigger] store.shelves@[j], pre.shelves@[j], now@)
        } else {
            store.shelves@[j] == pre.shelves@[j]
        } by {
            assert(is_synced_with_books(s2, j) == is_synced_with_books(pre, j));
        }
    }
    (cleared, standardised, created, touched)
}

/// The sync repair at given times: `local` is written to the reading
/// states, the shelves and the new bookmarks, `utc` to the memberships.
/// Where a table cannot take the new rows, nothing is changed.
pub fn repair_sync(store: &mut Companion, local: &str, utc: &str) -> (r: Result<
    SyncRepairReport,
    StoreError,
>)
    ensures
        r is Ok <==> has_room_for_sync(*old(store)),
        r is Ok ==> sync_repaired(*old(store), *final(store), local@, utc@, r->Ok_0),
        r is Err ==> r->Err_0 is IdsExhausted && *final(store) == *old(store),
{
    proof {
        lemma_largest_key_bounds(store.reading_states@);
        lemma_largest_key_bounds(store.statistics@);
        lemma_largest_key_bounds(store.bookmarks@);
    }
    let links = store.links.len() as i128;
    let states = store.reading_states.len() as i128;
    let limit = i64::MAX as i128;
    if largest_id(&store.reading_states) as i128 + links > limit || largest_id(&store.statistics) as i128
        + states + links > limit || largest_id(&store.bookmarks) as i128 + states + links > limit {
        return Err(StoreError::IdsExhausted);
    }
    let (cleared, standardised, created, touched) = make_ready_for_sync(store, local);
    let ghost a = *store;
    let filled = stamp_all(&mut store.reading_states, local, true);
    let ghost b = *store;
    let made = create_missing_statistics(store);
    let ghost c = *store;
    let reset = reset_membership_times(store, utc);
    let ghost d = *store;
    match repair_reading_states(store, local) {
        Ok(reading) => {
            let report = SyncRepairReport {
                acknowledgments_cleared: cleared,
                states_standardised: standardised,
                states_created: created,
                state_times_filled: filled,
                statistics_created: made,
                shelves_touched: touched,
                memberships_reset: reset,
                reading,
            };
            proof {
                assert(made_ready_for_sync(*old(store), a, local@));
                assert(state_times_filled(a, b, local@));
                assert(all_have_statistics(b, c));
                assert(membership_times_reset(c, d, utc@));
                assert(report == sync_report(*old(store), a, b, c, d, *store));
            }
            Ok(report)
        },
        Err(e) => {
            assert(false);
            Err(e)
        },
    }
}

/// The sync repair at the present time. The store is left as `repair_sync`
/// leaves it for some pair of times.
pub fn fix_kobo_sync_issues(store: &mut Companion) -> (r: Result<SyncRepairReport, StoreError>)
    ensures
        r is Ok <==> has_room_for_sync(*old(store)),
        r is Ok ==> exists|local: Seq<char>, utc: Seq<char>| #[trigger]
            sync_repaired(*old(store), *final(store), local, utc, r->Ok_0),
        r is Err ==> r->Err_0 is IdsExhausted && *final(store) == *old(store),
{
    let local = now_local_micro();
    let utc = now_utc_micro();
    repair_sync(store, local.as_str(), utc.as_str())
}


/// Once every reading state has statistics, the step that completes the
/// statistics adds nothing.
pub proof fn law_statistics_settle(start: Companion, once: Companion, twice: Companion)
    requires
        all_have_statistics(start, once),
        all_have_statistics(once, twice),
    ensures
        twice.statistics@ == once.statistics@,
{
    let had = once.statistics@;
    if twice.statistics@.len() > had.len() {
        let row = twice.statistics@[had.len() as int];
        assert(is_made_for_state(
            row,
            twice.statistics@.take(had.len() as int),
            once.reading_states@,
            had,
        ));
        let j = choose|j: int|
            0 <= j < once.reading_states@.len() && (#[trigger] once.reading_states@[j]).id
                == row.reading_state_id && text_of(row.last_modified) == text_of(
                once.reading_states@[j].last_modified,
            );
        assert(first_where(had, statistics_of(start.reading_states@[j].id)) < had.len());
    }
    assert(twice.statistics@.take(had.len() as int) =~= twice.statistics@);
}

/// The shelves and memberships of `b` are those of `a` but for their
/// times.
pub open spec fn same_shelving(a: Companion, b: Companion) -> bool {
    &&& a.shelves@.len() == b.shelves@.len()
    &&& forall|j: int|
        0 <= j < a.shelves@.len() ==> (#[trigger] b.shelves@[j]).id == a.shelves@[j].id
            && b.shelves@[j].kobo_sync == a.shelves@[j].kobo_sync && b.shelves@[j].user_id
            == a.shelves@[j].user_id
    &&& a.links@.len() == b.links@.len()
    &&& forall|i: int|
        0 <= i < a.links@.len() ==> (#[trigger] b.links@[i]).book_id == a.links@[i].book_id
            && b.links@[i].shelf == a.links@[i].shelf
}

proof fn lemma_same_shelf(a: Seq<ShelfRow>, b: Seq<ShelfRow>, id: i64)
    requires
        a.len() == b.len(),
        forall|j: int| 0 <= j < a.len() ==> (#[trigger] b[j]).id == a[j].id,
    ensures
        shelf_at(a, id) == shelf_at(b, id),
        0 <= shelf_at(a, id) <= a.len(),
{
    lemma_first_where(a, shelf_with_id(id));
    lemma_first_where(b, shelf_with_id(id));
    let x = shelf_at(a, id);
    let y = shelf_at(b, id);
    if x < y {
        assert(shelf_with_id(id)(a[x]));
        assert(!shelf_with_id(id)(b[x]));
    }
    if y < x {
        assert(shelf_with_id(id)(b[y]));
        assert(!shelf_with_id(id)(a[y]));
    }
}

/// The books on synced shelves do not depend on the times of shelves and
/// memberships.
pub proof fn lemma_same_synced_pairs(a: Companion, b: Companion)
    requires
        same_shelving(a, b),
    ensures
        forall|book: i64, user: i64| #[trigger]
            pair_is_synced(a, book, user) == pair_is_synced(b, book, user),
{
    assert forall|book: i64, user: i64| #[trigger]
        pair_is_synced(a, book, user) == pair_is_synced(b, book, user) by {
        if pair_is_synced(a, book, user) {
            let i = choose|i: int|
                0 <= i < a.links@.len() && (#[trigger] a.links@[i]).book_id == book
                    && link_syncs_for(a.shelves@, a.links@[i], user);
            lemma_same_shelf(a.shelves@, b.shelves@, a.links@[i].shelf);
            assert(b.links@[i].book_id == book);
            let s = shelf_at(a.shelves@, a.links@[i].shelf);
            assert(b.shelves@[s].kobo_sync == a.shelves@[s].kobo_sync);
            assert(link_syncs_for(b.shelves@, b.links@[i], user));
        }
        if pair_is_synced(b, book, user) {
            let i = choose|i: int|
                0 <= i < b.links@.len() && (#[trigger] b.links@[i]).book_id == book
                    && link_syncs_for(b.shelves@, b.links@[i], user);
            lemma_same_shelf(a.shelves@, b.shelves@, b.links@[i].shelf);
            assert(a.links@[i].book_id == book);
            let s = shelf_at(b.shelves@, b.links@[i].shelf);
            assert(b.shelves@[s].kobo_sync == a.shelves@[s].kobo_sync);
            assert(link_syncs_for(a.shelves@, a.links@[i], user));
        }
    }
}

/// The first step of the sync repair, run a second time on what the first
/// left, finds no acknowledgment to forget and no reading state to make.
pub proof fn law_made_ready_settles(
    start: Companion,
    once: Companion,
    twice: Companion,
    now_1: Seq<char>,
    now_2: Seq<char>,
)
    requires
        made_ready_for_sync(start, once, now_1),
        made_ready_for_sync(once, twice, now_2),
    ensures
        twice.synced_books@ == once.synced_books@,
        twice.reading_states@.len() == once.reading_states@.len(),
{
    assert forall|j: int| 0 <= j < start.shelves@.len() implies (#[trigger] once.shelves@[j]).id
        == start.shelves@[j].id && once.shelves@[j].kobo_sync == start.shelves@[j].kobo_sync
        && once.shelves@[j].user_id == start.shelves@[j].user_id by {
        if is_synced_with_books(start, j) {
            assert(is_touched(once.shelves@[j], start.shelves@[j], now_1));
        }
    }
    lemma_same_synced_pairs(start, once);
    let kept = start.synced_books@.filter(is_not_blocking(start));
    lemma_filter_members(start.synced_books@, is_not_blocking(start));
    assert forall|i: int| 0 <= i < kept.len() implies is_not_blocking(once)(#[trigger] kept[i]) by {
        assert(is_not_blocking(start)(kept[i]));
    }
    crate::rows::lemma_filter_keeps_all(kept, is_not_blocking(once));
    let states = once.reading_states@;
    if twice.reading_states@.len() > states.len() {
        let n = states.len() as int;
        let row = twice.reading_states@[n];
        let before = twice.reading_states@.take(n);
        assert(is_made_for_sync(row, before, once, now_2));
        assert(pair_is_synced(start, row.book_id, row.user_id));
        let i = choose|i: int|
            0 <= i < start.links@.len() && (#[trigger] start.links@[i]).book_id == row.book_id
                && link_syncs_for(start.shelves@, start.links@[i], row.user_id);
        let p = state_of(row.book_id, row.user_id);
        assert(first_where(states, state_of(start.links@[i].book_id, row.user_id)) < states.len());
        lemma_first_where(states, p);
        lemma_first_where(before, p);
        let f = first_where(states, p);
        assert(before[f] == twice.reading_states@[f]);
        if needs_new_times(once, f) {
            assert(has_new_times(states[f], twice.reading_states@[f], now_2));
        }
        assert(p(before[f]));
    }
}


/// The sync repair keeps and completes the two-way link: after it every
/// reading state points at a bookmark of its own, provided that the
/// pointers that were set before did so and that no two reading states
/// share an id. A pointer that was wrong before is not mended: the repair
/// sets only pointers that are missing.
pub proof fn law_sync_repair_keeps_pointers(
    pre: Companion,
    post: Companion,
    local: Seq<char>,
    utc: Seq<char>,
    report: SyncRepairReport,
)
    requires
        sync_repaired(pre, post, local, utc, report),
        state_ids_differ(pre.reading_states@),
        pointers_hold(pre.reading_states@, pre.bookmarks@),
    ensures
        pointers_hold(post.reading_states@, post.bookmarks@),
        forall|i: int|
            0 <= i < post.reading_states@.len() ==> (#[trigger] post.reading_states@[i]).current_bookmark is Some,
{
    let (a, b, c, d) = choose|a: Companion, b: Companion, c: Companion, d: Companion|
        #![trigger made_ready_for_sync(pre, a, local), state_times_filled(a, b, local), all_have_statistics(b, c), membership_times_reset(c, d, utc)]
        made_ready_for_sync(pre, a, local) && state_times_filled(a, b, local)
            && all_have_statistics(b, c) && membership_times_reset(c, d, utc)
            && reading_states_repaired(d, post, local) && report == sync_report(
            pre,
            a,
            b,
            c,
            d,
            post,
        );
    let was = pre.reading_states@;
    let made = a.reading_states@;
    let n = was.len() as int;
    assert forall|j: int| 0 <= j < n implies (#[trigger] made[j]).id == was[j].id
        && made[j].current_bookmark == was[j].current_bookmark by {
        if needs_new_times(pre, j) {
            assert(has_new_times(was[j], made[j], local));
        }
    }
    assert forall|k: int| n <= k < made.len() implies (#[trigger] made[k]).current_bookmark is None
        && forall|i: int| 0 <= i < k ==> (#[trigger] made[i]).id < made[k].id by {
        assert(is_made_for_sync(made[k], made.take(k), pre, local));
        lemma_largest_key_bounds(made.take(k));
        assert forall|i: int| 0 <= i < k implies (#[trigger] made[i]).id < made[k].id by {
            assert(made.take(k)[i] == made[i]);
            assert(made.take(k)[i].key() <= largest_key(made.take(k)));
        }
    }
    let filled = d.reading_states@;
    assert(filled == b.reading_states@);
    assert forall|j: int| 0 <= j < made.len() implies (#[trigger] filled[j]).id == made[j].id
        && filled[j].current_bookmark == made[j].current_bookmark by {
        assert(ReadingStateRow::stamped(made[j], filled[j], local, true));
    }
    assert forall|i: int, j: int| 0 <= i < j < filled.len() implies (#[trigger] filled[i]).id != (
    #[trigger] filled[j]).id by {
        if j < n {
            assert(made[i].id == was[i].id && made[j].id == was[j].id);
        } else {
            assert(made[i].id < made[j].id);
        }
    }
    assert forall|i: int|
        0 <= i < filled.len() && (#[trigger] filled[i]).current_bookmark is Some implies points_home(
        d.bookmarks@,
        filled[i].current_bookmark->0,
        filled[i].id,
    ) by {
        if i < n {
            assert(made[i].current_bookmark == was[i].current_bookmark);
            assert(points_home(pre.bookmarks@, was[i].current_bookmark->0, was[i].id));
        } else {
            assert(made[i].current_bookmark is None);
        }
    }
    law_bookmarks_two_way(d, post, local);
}


/// The sync repair, run a second time on what the first left, inserts no
/// row and removes none: it forgets no acknowledgment, makes no reading
/// state, no statistics and no bookmark, removes no duplicate and sets no
/// pointer. What it still does is rewrite times: those of the synced
/// shelves and of their memberships on every run, and those of a reading
/// state that it brings to the present time.
pub proof fn law_sync_repair_settles(
    start: Companion,
    once: Companion,
    twice: Companion,
    local_1: Seq<char>,
    utc_1: Seq<char>,
    report_1: SyncRepairReport,
    local_2: Seq<char>,
    utc_2: Seq<char>,
    report_2: SyncRepairReport,
)
    requires
        sync_repaired(start, once, local_1, utc_1, report_1),
        sync_repaired(once, twice, local_2, utc_2, report_2),
    ensures
        twice.users == once.users,
        twice.downloads == once.downloads,
        twice.archived_books == once.archived_books,
        twice.synced_books@ == once.synced_books@,
        twice.statistics@ == once.statistics@,
        twice.bookmarks@ == once.bookmarks@,
        same_states_but_times(once.reading_states@, twice.reading_states@),
        twice.shelves@.len() == once.shelves@.len(),
        forall|j: int|
            0 <= j < once.shelves@.len() ==> #[trigger] twice.shelves@[j] == (ShelfRow {
                last_modified: twice.shelves@[j].last_modified,
                ..once.shelves@[j]
            }),
        twice.links@.len() == once.links@.len(),
        forall|i: int|
            0 <= i < once.links@.len() ==> #[trigger] twice.links@[i] == (ShelfLinkRow {
                date_added: twice.links@[i].date_added,
                ..once.links@[i]
            }),
        report_2.acknowledgments_cleared == 0,
        report_2.states_created == 0,
        report_2.state_times_filled == 0,
        report_2.statistics_created == 0,
        report_2.reading == (ReadingRepairReport {
            duplicates_removed: 0,
            bookmarks_created: 0,
            pointers_set: 0,
        }),
{
    let (a1, b1, c1, d1) = choose|a: Companion, b: Companion, c: Companion, d: Companion|
        #![trigger made_ready_for_sync(start, a, local_1), state_times_filled(a, b, local_1), all_have_statistics(b, c), membership_times_reset(c, d, utc_1)]
        made_ready_for_sync(start, a, local_1) && state_times_filled(a, b, local_1)
            && all_have_statistics(b, c) && membership_times_reset(c, d, utc_1)
            && reading_states_repaired(d, once, local_1) && report_1 == sync_report(
            start,
            a,
            b,
            c,
            d,
            once,
        );
    let (a2, b2, c2, d2) = choose|a: Companion, b: Companion, c: Companion, d: Companion|
        #![trigger made_ready_for_sync(once, a, local_2), state_times_filled(a, b, local_2), all_have_statistics(b, c), membership_times_reset(c, d, utc_2)]
        made_ready_for_sync(once, a, local_2) && state_times_filled(a, b, local_2)
            && all_have_statistics(b, c) && membership_times_reset(c, d, utc_2)
            && reading_states_repaired(d, twice, local_2) && report_2 == sync_report(
            once,
            a,
            b,
            c,
            d,
            twice,
        );
    let filled = b1.reading_states@;
    let kept = newest_of(filled);
    let states = once.reading_states@;
    let marks = once.bookmarks@;
    assert(d1.reading_states@ == filled);
    assert(once.statistics@ == c1.statistics@);
    assert(once.shelves@ == a1.shelves@);
    assert(once.links@ == d1.links@);
    assert(once.synced_books@ == a1.synced_books@);
    assert(tables_repaired(filled, d1.bookmarks@, states, marks, local_1));
    lemma_filter_members(filled, is_newest(filled));

    // The shelves and memberships are those of the start but for their times.
    assert forall|j: int| 0 <= j < start.shelves@.len() implies (#[trigger] once.shelves@[j]).id
        == start.shelves@[j].id && once.shelves@[j].kobo_sync == start.shelves@[j].kobo_sync
        && once.shelves@[j].user_id == start.shelves@[j].user_id by {
        if is_synced_with_books(start, j) {
            assert(is_touched(a1.shelves@[j], start.shelves@[j], local_1));
        }
    }
    assert(c1.links@ == start.links@);
    assert(c1.shelves@ == a1.shelves@);
    assert forall|i: int| 0 <= i < start.links@.len() implies (#[trigger] once.links@[i]).book_id
        == start.links@[i].book_id && once.links@[i].shelf == start.links@[i].shelf by {
        assert(d1.links@[i].book_id == c1.links@[i].book_id);
    }
    lemma_same_synced_pairs(start, once);

    // No acknowledgment is left to forget.
    let acks = start.synced_books@.filter(is_not_blocking(start));
    lemma_filter_members(start.synced_books@, is_not_blocking(start));
    assert forall|i: int| 0 <= i < acks.len() implies is_not_blocking(once)(#[trigger] acks[i]) by {
        assert(is_not_blocking(start)(acks[i]));
    }
    lemma_filter_keeps_all(acks, is_not_blocking(once));
    assert(a2.synced_books@ == once.synced_books@);

    // The reading states that stayed have the keys of the newest ones.
    assert forall|i: int| 0 <= i < states.len() implies (#[trigger] states[i]).id == kept[i].id
        && states[i].user_id == kept[i].user_id && states[i].book_id == kept[i].book_id
        && states[i].last_modified == kept[i].last_modified && states[i].priority_timestamp
        == kept[i].priority_timestamp && filled.contains(kept[i]) by {
        assert(state_repaired(kept[i], states[i], lasting_of(filled, d1.bookmarks@), marks));
    }

    // No reading state is left to make.
    let made = a2.reading_states@;
    let n = states.len() as int;
    assert forall|j: int| 0 <= j < n implies same_but_times(states[j], #[trigger] made[j])
        && made[j].missing() == 0 by {
        let m = choose|m: int| 0 <= m < filled.len() && filled[m] == kept[j];
        assert(filled[m].missing() == 0);
        if needs_new_times(once, j) {
            assert(has_new_times(states[j], made[j], local_2));
        }
    }
    if made.len() > n {
        let row = made[n];
        let before = made.take(n);
        assert(is_made_for_sync(row, before, once, local_2));
        assert(pair_is_synced(start, row.book_id, row.user_id));
        let i = choose|i: int|
            0 <= i < start.links@.len() && (#[trigger] start.links@[i]).book_id == row.book_id
                && link_syncs_for(start.shelves@, start.links@[i], row.user_id);
        let p = state_of(row.book_id, row.user_id);
        assert(first_where(a1.reading_states@, state_of(start.links@[i].book_id, row.user_id))
            < a1.reading_states@.len());
        lemma_first_where(a1.reading_states@, p);
        let f = first_where(a1.reading_states@, p);
        assert(p(a1.reading_states@[f]));
        assert(ReadingStateRow::stamped(a1.reading_states@[f], filled[f], local_1, true));
        assert(filled[f].user_id == row.user_id && filled[f].book_id == row.book_id);
        let j = lemma_newest_of_pair(filled, row.user_id, row.book_id, filled.len() as int);
        assert(is_newest(filled)(filled[j]));
        assert(kept.contains(filled[j]));
        let k = choose|k: int| 0 <= k < kept.len() && kept[k] == filled[j];
        assert(before[k] == made[k]);
        assert(same_but_times(states[k], made[k]));
        assert(p(before[k]));
        lemma_first_where(before, p);
        assert(false);
    }
    assert(made.len() == n);
    lemma_times_settled(made, b2.reading_states@, local_2, true);
    let fresh = d2.reading_states@;
    assert(fresh == made);
    assert(same_states_but_times(states, fresh));

    // No statistics are left to make.
    let had = once.statistics@;
    assert(b2.statistics@ == had);
    if c2.statistics@.len() > had.len() {
        let row = c2.statistics@[had.len() as int];
        assert(is_made_for_state(
            row,
            c2.statistics@.take(had.len() as int),
            b2.reading_states@,
            had,
        ));
        let j = choose|j: int|
            0 <= j < b2.reading_states@.len() && (#[trigger] b2.reading_states@[j]).id
                == row.reading_state_id && text_of(row.last_modified) == text_of(
                b2.reading_states@[j].last_modified,
            );
        assert(same_but_times(states[j], made[j]));
        let m = choose|m: int| 0 <= m < filled.len() && filled[m] == kept[j];
        assert(first_where(c1.statistics@, statistics_of(filled[m].id)) < c1.statistics@.len());
        assert(false);
    }
    assert(c2.statistics@.take(had.len() as int) =~= c2.statistics@);

    // Shelves and memberships keep everything but their times.
    assert forall|j: int| 0 <= j < once.shelves@.len() implies #[trigger] twice.shelves@[j] == (
    ShelfRow { last_modified: twice.shelves@[j].last_modified, ..once.shelves@[j] }) by {
        if is_synced_with_books(once, j) {
            assert(is_touched(a2.shelves@[j], once.shelves@[j], local_2));
        }
    }
    assert(c2.links@ == once.links@);
    assert(c2.shelves@ == a2.shelves@);

    // The reading states and bookmarks are settled.
    assert(d2.bookmarks@ == marks);
    lemma_tables_settle_after_times(
        filled,
        d1.bookmarks@,
        states,
        marks,
        fresh,
        twice.reading_states@,
        twice.bookmarks@,
        local_1,
        local_2,
    );
}

} // verus!
