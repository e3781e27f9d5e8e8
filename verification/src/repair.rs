//! The repair pass of the consistency sweep, part one: reading states.
//! Duplicates go, every reading state gets a bookmark, and every reading
//! state points at a bookmark of its own.
use vstd::prelude::*;
use vstd::string::*;
use crate::companion::{BookmarkRow, Companion, ReadingStateRow, StoreError};
use crate::rows::{
    drop_rows_of_states, first_where, holds, keep_marked, keys_of_unmarked, largest_id,
    largest_key, lemma_filter_keeps_all, lemma_filter_members, lemma_first_where,
    lemma_largest_key_bounds, Keyed,
};
use crate::shelves::text_is;
use crate::rows::StateRef;

verus! {

/// The test that no reading state of the same user and book has a larger
/// id.
pub open spec fn is_newest(states: Seq<ReadingStateRow>) -> spec_fn(ReadingStateRow) -> bool {
    |s: ReadingStateRow|
        forall|k: int|
            0 <= k < states.len() && (#[trigger] states[k]).user_id == s.user_id
                && states[k].book_id == s.book_id ==> states[k].id <= s.id
}

/// True when `id` is the id of a reading state that a newer one of the same
/// user and book makes a duplicate.
pub open spec fn is_duplicate_id(states: Seq<ReadingStateRow>, id: i64) -> bool {
    exists|i: int| 0 <= i < states.len() && (#[trigger] states[i]).id == id && !is_newest(states)(states[i])
}

/// The test that a bookmark belongs to no duplicate.
pub open spec fn of_no_duplicate(states: Seq<ReadingStateRow>) -> spec_fn(BookmarkRow) -> bool {
    |b: BookmarkRow| !is_duplicate_id(states, b.reading_state_id)
}

/// The test that a bookmark belongs to the reading state.
pub open spec fn bookmark_of(state: i64) -> spec_fn(BookmarkRow) -> bool {
    |b: BookmarkRow| b.reading_state_id == state
}

/// Of these reading states, the ones that stay when the duplicates go.
pub open spec fn newest_of(states: Seq<ReadingStateRow>) -> Seq<ReadingStateRow> {
    states.filter(is_newest(states))
}

/// Of these bookmarks, the ones that stay when the duplicates among the
/// reading states go.
pub open spec fn lasting_of(states: Seq<ReadingStateRow>, marks: Seq<BookmarkRow>) -> Seq<
    BookmarkRow,
> {
    marks.filter(of_no_duplicate(states))
}

/// The reading states that stay when the duplicates go.
pub open spec fn newest_states(pre: Companion) -> Seq<ReadingStateRow> {
    newest_of(pre.reading_states@)
}

/// The bookmarks that stay when the duplicates go.
pub open spec fn lasting_bookmarks(pre: Companion) -> Seq<BookmarkRow> {
    lasting_of(pre.reading_states@, pre.bookmarks@)
}

/// True when the reading state with this id has no bookmark among those
/// that stay.
pub open spec fn lacks_lasting(
    states: Seq<ReadingStateRow>,
    marks: Seq<BookmarkRow>,
    id: i64,
) -> bool {
    first_where(lasting_of(states, marks), bookmark_of(id)) >= lasting_of(states, marks).len()
}

/// True when a reading state that stays has no bookmark that stays, so that
/// the repair has a bookmark to make.
pub open spec fn lacks_a_bookmark(pre: Companion) -> bool {
    exists|i: int|
        0 <= i < pre.reading_states@.len() && is_newest(pre.reading_states@)(
            #[trigger] pre.reading_states@[i],
        ) && lacks_lasting(pre.reading_states@, pre.bookmarks@, pre.reading_states@[i].id)
}

/// True when the repair finds room for the bookmarks that it makes: it
/// makes none, or the bookmark table can take one new bookmark for every
/// reading state.
pub open spec fn has_room_for_bookmarks(pre: Companion) -> bool {
    lacks_a_bookmark(pre) ==> largest_key(pre.bookmarks@) + pre.reading_states@.len() <= i64::MAX
}

/// True when one of the bookmarks from index `base` on has the id and
/// belongs to the reading state.
pub open spec fn has_new_bookmark(bookmarks: Seq<BookmarkRow>, base: int, id: i64, state: i64) -> bool {
    exists|k: int|
        base <= k < bookmarks.len() && (#[trigger] bookmarks[k]).id == id
            && bookmarks[k].reading_state_id == state
}

/// True when a reading state of `kept` has the id and no bookmark among
/// `lasting`.
pub open spec fn lacks_bookmark(
    kept: Seq<ReadingStateRow>,
    lasting: Seq<BookmarkRow>,
    state: i64,
) -> bool {
    exists|j: int|
        0 <= j < kept.len() && (#[trigger] kept[j]).id == state && first_where(
            lasting,
            bookmark_of(state),
        ) >= lasting.len()
}

/// True when `b` is the first bookmark that the repair gave a reading state:
/// its id is one above the largest of the bookmarks before it.
pub open spec fn is_first_bookmark(
    b: BookmarkRow,
    before: Seq<BookmarkRow>,
    kept: Seq<ReadingStateRow>,
    lasting: Seq<BookmarkRow>,
    now: Seq<char>,
) -> bool {
    &&& b.id == largest_key(before) + 1
    &&& text_is(b.last_modified, now)
    &&& lacks_bookmark(kept, lasting, b.reading_state_id)
}

/// Every bookmark from index `base` on is a first bookmark.
pub open spec fn new_bookmarks_fit(
    bookmarks: Seq<BookmarkRow>,
    base: int,
    kept: Seq<ReadingStateRow>,
    lasting: Seq<BookmarkRow>,
    now: Seq<char>,
) -> bool {
    forall|k: int|
        base <= k < bookmarks.len() ==> is_first_bookmark(
            #[trigger] bookmarks[k],
            bookmarks.take(k),
            kept,
            lasting,
            now,
        )
}

/// What the repair leaves of the reading state `was`, given the bookmarks
/// that lasted and the bookmarks of the end: a reading state without a
/// bookmark points at a new one of its own; one with bookmarks and no
/// pointer points at the first of them; any other is as it was.
pub open spec fn state_repaired(
    was: ReadingStateRow,
    is: ReadingStateRow,
    lasting: Seq<BookmarkRow>,
    bookmarks: Seq<BookmarkRow>,
) -> bool {
    let first = first_where(lasting, bookmark_of(was.id));
    &&& is == (ReadingStateRow { current_bookmark: is.current_bookmark, ..was })
    &&& if first >= lasting.len() {
        is.current_bookmark is Some && has_new_bookmark(
            bookmarks,
            lasting.len() as int,
            is.current_bookmark->0,
            was.id,
        )
    } else if was.current_bookmark is None {
        is.current_bookmark == Some(lasting[first].id)
    } else {
        is.current_bookmark == was.current_bookmark
    }
}

/// The first `count` reading states are repaired.
pub open spec fn states_repaired(
    kept: Seq<ReadingStateRow>,
    states: Seq<ReadingStateRow>,
    count: int,
    lasting: Seq<BookmarkRow>,
    bookmarks: Seq<BookmarkRow>,
) -> bool {
    forall|j: int|
        0 <= j < count ==> state_repaired(kept[j], #[trigger] states[j], lasting, bookmarks)
}

/// What the repair of the reading states leaves: the newest reading state
/// of each user and book; the bookmarks of those that stay, followed by one
/// new bookmark, with a new id, for each reading state that had none; and
/// each reading state as `state_repaired` says.
pub open spec fn reading_states_repaired(pre: Companion, post: Companion, now: Seq<char>) -> bool {
    &&& post == (Companion {
        reading_states: post.reading_states,
        bookmarks: post.bookmarks,
        ..pre
    })
    &&& tables_repaired(
        pre.reading_states@,
        pre.bookmarks@,
        post.reading_states@,
        post.bookmarks@,
        now,
    )
}

/// What the repair leaves of the two tables that it writes: reading states
/// and bookmarks before, reading states and bookmarks after.
pub open spec fn tables_repaired(
    states: Seq<ReadingStateRow>,
    marks: Seq<BookmarkRow>,
    post_states: Seq<ReadingStateRow>,
    post_marks: Seq<BookmarkRow>,
    now: Seq<char>,
) -> bool {
    let kept = newest_of(states);
    let lasting = lasting_of(states, marks);
    &&& post_states.len() == kept.len()
    &&& lasting.len() <= post_marks.len()
    &&& post_marks.take(lasting.len() as int) == lasting
    &&& states_repaired(kept, post_states, kept.len() as int, lasting, post_marks)
    &&& new_bookmarks_fit(post_marks, lasting.len() as int, kept, lasting, now)
}

proof fn lemma_repaired_after_push(
    kept: Seq<ReadingStateRow>,
    states: Seq<ReadingStateRow>,
    count: int,
    lasting: Seq<BookmarkRow>,
    before: Seq<BookmarkRow>,
    after: Seq<BookmarkRow>,
)
    requires
        states_repaired(kept, states, count, lasting, before),
        after.len() == before.len() + 1,
        after.drop_last() == before,
    ensures
        states_repaired(kept, states, count, lasting, after),
{
    assert forall|j: int| 0 <= j < count implies state_repaired(
        kept[j],
        #[trigger] states[j],
        lasting,
        after,
    ) by {
        assert(state_repaired(kept[j], states[j], lasting, before));
        let p = states[j].current_bookmark;
        if first_where(lasting, bookmark_of(kept[j].id)) >= lasting.len() {
            let k = choose|k: int|
                lasting.len() <= k < before.len() && (#[trigger] before[k]).id == p->0
                    && before[k].reading_state_id == kept[j].id;
            assert(after[k] == after.drop_last()[k]);
        }
    }
}

proof fn lemma_new_bookmarks_after_push(
    before: Seq<BookmarkRow>,
    after: Seq<BookmarkRow>,
    base: int,
    kept: Seq<ReadingStateRow>,
    lasting: Seq<BookmarkRow>,
    now: Seq<char>,
)
    requires
        0 <= base,
        new_bookmarks_fit(before, base, kept, lasting, now),
        after.len() == before.len() + 1,
        after.drop_last() == before,
        is_first_bookmark(after.last(), before, kept, lasting, now),
    ensures
        new_bookmarks_fit(after, base, kept, lasting, now),
{
    assert forall|k: int| base <= k < after.len() implies is_first_bookmark(
        #[trigger] after[k],
        after.take(k),
        kept,
        lasting,
        now,
    ) by {
        if k < before.len() {
            assert(after[k] == after.drop_last()[k]);
            assert(after.take(k) =~= before.take(k));
        } else {
            assert(after.take(k) =~= before);
        }
    }
}

proof fn lemma_repaired_one_more(
    kept: Seq<ReadingStateRow>,
    before: Seq<ReadingStateRow>,
    after: Seq<ReadingStateRow>,
    i: int,
    lasting: Seq<BookmarkRow>,
    bookmarks: Seq<BookmarkRow>,
)
    requires
        0 <= i < before.len(),
        states_repaired(kept, before, i, lasting, bookmarks),
        after == before.update(i, after[i]),
        state_repaired(kept[i], after[i], lasting, bookmarks),
    ensures
        states_repaired(kept, after, i + 1, lasting, bookmarks),
{
    assert forall|j: int| 0 <= j < i + 1 implies state_repaired(
        kept[j],
        #[trigger] after[j],
        lasting,
        bookmarks,
    ) by {
        if j < i {
            assert(after[j] == before[j]);
        }
    }
}

/// The test that the repair sets a reading state's pointer: it has no
/// bookmark among `lasting`, or no pointer.
pub open spec fn needs_pointer(lasting: Seq<BookmarkRow>) -> spec_fn(ReadingStateRow) -> bool {
    |s: ReadingStateRow|
        first_where(lasting, bookmark_of(s.id)) >= lasting.len() || s.current_bookmark is None
}

/// The counts that belong to a repair from `pre` to `post`.
pub open spec fn reading_report(pre: Companion, post: Companion) -> ReadingRepairReport {
    ReadingRepairReport {
        duplicates_removed: (pre.reading_states@.len() - post.reading_states@.len()) as usize,
        bookmarks_created: (post.bookmarks@.len() - lasting_bookmarks(pre).len()) as usize,
        pointers_set: newest_states(pre).filter(needs_pointer(lasting_bookmarks(pre))).len() as usize,
    }
}

/// How much the repair of the reading states changed.
#[derive(Debug, Clone, Copy, PartialEq, Eq, Structural)]
pub struct ReadingRepairReport {
    pub duplicates_removed: usize,
    pub bookmarks_created: usize,
    pub pointers_set: usize,
}

fn mark_newest(states: &Vec<ReadingStateRow>) -> (marks: Vec<bool>)
    ensures
        marks@.len() == states@.len(),
        forall|i: int| 0 <= i < states@.len() ==> marks@[i] == is_newest(states@)(#[trigger] states@[i]),
{
    let mut marks: Vec<bool> = Vec::new();
    let mut i: usize = 0;
    while i < states.len()
        invariant
            i <= states@.len(),
            marks@.len() == i,
            forall|j: int| 0 <= j < i ==> marks@[j] == is_newest(states@)(#[trigger] states@[j]),
        decreases states@.len() - i,
    {
        let mut newest = true;
        let mut k: usize = 0;
        while k < states.len()
            invariant
                i < states@.len(),
                k <= states@.len(),
                newest == forall|m: int|
                    0 <= m < k && (#[trigger] states@[m]).user_id == states@[i as int].user_id
                        && states@[m].book_id == states@[i as int].book_id ==> states@[m].id
                        <= states@[i as int].id,
            decreases states@.len() - k,
        {
            if states[k].user_id == states[i].user_id && states[k].book_id == states[i].book_id
                && states[k].id > states[i].id {
                newest = false;
            }
            k += 1;
        }
        marks.push(newest);
        i += 1;
    }
    marks
}

fn first_bookmark_of(bookmarks: &Vec<BookmarkRow>, limit: usize, state: i64) -> (r: usize)
    requires
        limit <= bookmarks@.len(),
    ensures
        r == first_where(bookmarks@.take(limit as int), bookmark_of(state)),
        r <= limit,
{
    let mut i: usize = 0;
    while i < limit && bookmarks[i].reading_state_id != state
        invariant
            i <= limit <= bookmarks@.len(),
            forall|j: int|
                0 <= j < i ==> !bookmark_of(state)(#[trigger] bookmarks@.take(limit as int)[j]),
        decreases limit - i,
    {
        i += 1;
    }
    proof {
        lemma_first_where(bookmarks@.take(limit as int), bookmark_of(state));
        if i < limit {
            assert(bookmark_of(state)(bookmarks@.take(limit as int)[i as int]));
        }
    }
    i
}

fn lacks_lasting_bookmark(
    bookmarks: &Vec<BookmarkRow>,
    doomed: &Vec<i64>,
    Ghost(states): Ghost<Seq<ReadingStateRow>>,
    id: i64,
) -> (r: bool)
    requires
        forall|row: BookmarkRow| #[trigger]
            of_no_duplicate(states)(row) == !doomed@.contains(row.reading_state_id),
    ensures
        r == lacks_lasting(states, bookmarks@, id),
{
    let ghost lasting = lasting_of(states, bookmarks@);
    proof {
        lemma_filter_members(bookmarks@, of_no_duplicate(states));
        lemma_first_where(lasting, bookmark_of(id));
    }
    if holds(doomed, id) {
        proof {
            let f = first_where(lasting, bookmark_of(id));
            if f < lasting.len() {
                assert(of_no_duplicate(states)(lasting[f]));
                assert(bookmark_of(id)(lasting[f]));
            }
        }
        return true;
    }
    let mut k: usize = 0;
    while k < bookmarks.len()
        invariant
            k <= bookmarks@.len(),
            lasting == lasting_of(states, bookmarks@),
            !doomed@.contains(id),
            forall|row: BookmarkRow| #[trigger]
                of_no_duplicate(states)(row) == !doomed@.contains(row.reading_state_id),
            forall|j: int| 0 <= j < k ==> (#[trigger] bookmarks@[j]).reading_state_id != id,
        decreases bookmarks@.len() - k,
    {
        if bookmarks[k].reading_state_id == id {
            proof {
                lemma_filter_members(bookmarks@, of_no_duplicate(states));
                lemma_first_where(lasting, bookmark_of(id));
                let b = bookmarks@[k as int];
                assert(of_no_duplicate(states)(b));
                assert(lasting.contains(b));
                let m = choose|m: int| 0 <= m < lasting.len() && lasting[m] == b;
                assert(bookmark_of(id)(lasting[m]));
            }
            return false;
        }
        k += 1;
    }
    proof {
        let f = first_where(lasting, bookmark_of(id));
        if f < lasting.len() {
            assert(bookmarks@.contains(lasting[f]));
            let m = choose|m: int| 0 <= m < bookmarks@.len() && bookmarks@[m] == lasting[f];
            assert(bookmark_of(id)(lasting[f]));
        }
    }
    true
}

fn any_state_lacks(store: &Companion, marks: &Vec<bool>, doomed: &Vec<i64>) -> (r: bool)
    requires
        marks@.len() == store.reading_states@.len(),
        forall|i: int|
            0 <= i < marks@.len() ==> marks@[i] == is_newest(store.reading_states@)(
                #[trigger] store.reading_states@[i],
            ),
        forall|row: BookmarkRow| #[trigger]
            of_no_duplicate(store.reading_states@)(row) == !doomed@.contains(row.reading_state_id),
    ensures
        r == lacks_a_bookmark(*store),
{
    let mut i: usize = 0;
    while i < store.reading_states.len()
        invariant
            i <= store.reading_states@.len() == marks@.len(),
            forall|k: int|
                0 <= k < marks@.len() ==> marks@[k] == is_newest(store.reading_states@)(
                    #[trigger] store.reading_states@[k],
                ),
            forall|row: BookmarkRow| #[trigger]
                of_no_duplicate(store.reading_states@)(row) == !doomed@.contains(
                    row.reading_state_id,
                ),
            forall|j: int|
                0 <= j < i ==> !(is_newest(store.reading_states@)(
                    #[trigger] store.reading_states@[j],
                ) && lacks_lasting(
                    store.reading_states@,
                    store.bookmarks@,
                    store.reading_states@[j].id,
                )),
        decreases store.reading_states@.len() - i,
    {
        if marks[i] && lacks_lasting_bookmark(
            &store.bookmarks,
            doomed,
            Ghost(store.reading_states@),
            store.reading_states[i].id,
        ) {
            return true;
        }
        i += 1;
    }
    false
}

/// Repairs the reading states: removes the duplicates of each user and
/// book, keeping the one with the largest id, together with their
/// bookmarks; gives each reading state without a bookmark a first bookmark
/// and points the reading state at it; and points each reading state that
/// has bookmarks but no pointer at the first of them. Where a bookmark has
/// to be made and the bookmark table cannot take one for every reading
/// state, nothing is changed.
pub fn repair_reading_states(store: &mut Companion, now: &str) -> (r: Result<
    ReadingRepairReport,
    StoreError,
>)
    ensures
        r is Ok <==> has_room_for_bookmarks(*old(store)),
        r is Ok ==> reading_states_repaired(*old(store), *final(store), now@),
        r is Ok ==> r->Ok_0 == reading_report(*old(store), *final(store)),
        r is Err ==> r->Err_0 is IdsExhausted && *final(store) == *old(store),
{
    let top = largest_id(&store.bookmarks);
    proof {
        lemma_largest_key_bounds(store.bookmarks@);
    }
    let roomy = top as i128 + store.reading_states.len() as i128 <= i64::MAX as i128;
    let before: usize = store.reading_states.len();
    let marks = mark_newest(&store.reading_states);
    let doomed = keys_of_unmarked(&store.reading_states, &marks);
    let ghost pre_states = store.reading_states@;
    proof {
        assert forall|row: BookmarkRow| #[trigger]
            of_no_duplicate(pre_states)(row) == !doomed@.contains(row.state()) by {
            if is_duplicate_id(pre_states, row.reading_state_id) {
                let i = choose|i: int|
                    0 <= i < pre_states.len() && (#[trigger] pre_states[i]).id
                        == row.reading_state_id && !is_newest(pre_states)(pre_states[i]);
                assert(pre_states[i].key() == row.reading_state_id && !marks@[i]);
            }
        }
    }
    if !roomy && any_state_lacks(store, &marks, &doomed) {
        return Err(StoreError::IdsExhausted);
    }
    drop_rows_of_states(&mut store.bookmarks, &doomed, Ghost(of_no_duplicate(pre_states)));
    keep_marked(&mut store.reading_states, &marks, Ghost(is_newest(pre_states)));
    proof {
        lemma_filter_members(pre_states, is_newest(pre_states));
        lemma_filter_members(old(store).bookmarks@, of_no_duplicate(pre_states));
        lemma_largest_key_of_part(old(store).bookmarks@, store.bookmarks@);
    }
    let ghost kept = store.reading_states@;
    let ghost lasting = store.bookmarks@;
    proof {
        if !roomy {
            assert forall|j: int| 0 <= j < kept.len() implies first_where(
                lasting,
                bookmark_of((#[trigger] kept[j]).id),
            ) < lasting.len() by {
                assert(pre_states.contains(kept[j]));
                let a = choose|a: int| 0 <= a < pre_states.len() && pre_states[a] == kept[j];
                assert(is_newest(pre_states)(pre_states[a]));
                assert(!lacks_lasting(pre_states, old(store).bookmarks@, pre_states[a].id));
            }
        }
    }
    let base: usize = store.bookmarks.len();
    let n: usize = store.reading_states.len();
    let mut pointers_set: usize = 0;
    let mut i: usize = 0;
    proof {
        assert(store.bookmarks@.take(base as int) =~= lasting);
        reveal(Seq::filter);
        assert(kept.take(0).filter(needs_pointer(lasting)) =~= Seq::<ReadingStateRow>::empty());
    }
    while i < n
        invariant
            i <= n == kept.len(),
            n <= old(store).reading_states@.len(),
            pointers_set <= i,
            pointers_set == kept.take(i as int).filter(needs_pointer(lasting)).len(),
            store.reading_states@.len() == n,
            base == lasting.len(),
            base <= store.bookmarks@.len() <= base + i,
            *store == (Companion {
                reading_states: store.reading_states,
                bookmarks: store.bookmarks,
                ..*old(store)
            }),
            store.bookmarks@.take(base as int) == lasting,
            largest_key(store.bookmarks@) <= largest_key(old(store).bookmarks@) + i,
            roomy == (largest_key(old(store).bookmarks@) + old(store).reading_states@.len()
                <= i64::MAX),
            !roomy ==> forall|j: int|
                0 <= j < kept.len() ==> first_where(lasting, bookmark_of((#[trigger] kept[j]).id))
                    < lasting.len(),
            forall|j: int| i <= j < n ==> #[trigger] store.reading_states@[j] == kept[j],
            states_repaired(kept, store.reading_states@, i as int, lasting, store.bookmarks@),
            new_bookmarks_fit(store.bookmarks@, base as int, kept, lasting, now@),
        decreases n - i,
    {
        let state = store.reading_states[i].id;
        let first = first_bookmark_of(&store.bookmarks, base, state);
        let ghost marks_before = store.bookmarks@;
        let ghost states_before = store.reading_states@;
        proof {
            reveal(Seq::filter);
            assert(kept.take(i + 1).drop_last() =~= kept.take(i as int));
            assert(kept.take(i + 1).last() == kept[i as int]);
            assert(states_before[i as int] == kept[i as int]);
        }
        if first >= base {
            let id: i64 = largest_id(&store.bookmarks) + 1;
            store.bookmarks.push(
                BookmarkRow {
                    id,
                    reading_state_id: state,
                    last_modified: Some(String::from_str(now)),
                },
            );
            proof {
                assert(store.bookmarks@.drop_last() =~= marks_before);
                assert(store.bookmarks@.take(base as int) =~= marks_before.take(base as int));
                assert(kept[i as int].id == state);
                lemma_new_bookmarks_after_push(
                    marks_before,
                    store.bookmarks@,
                    base as int,
                    kept,
                    lasting,
                    now@,
                );
                lemma_repaired_after_push(
                    kept,
                    states_before,
                    i as int,
                    lasting,
                    marks_before,
                    store.bookmarks@,
                );
                assert(store.bookmarks@[marks_before.len() as int].id == id);
            }
            set_pointer(&mut store.reading_states, i, id);
            pointers_set += 1;
        } else if store.reading_states[i].current_bookmark.is_none() {
            let id = store.bookmarks[first].id;
            proof {
                assert(lasting[first as int] == store.bookmarks@[first as int]);
            }
            set_pointer(&mut store.reading_states, i, id);
            pointers_set += 1;
        } else {
            proof {
                assert(store.reading_states@ =~= states_before.update(
                    i as int,
                    store.reading_states@[i as int],
                ));
            }
        }
        proof {
            lemma_repaired_one_more(
                kept,
                states_before,
                store.reading_states@,
                i as int,
                lasting,
                store.bookmarks@,
            );
        }
        i += 1;
    }
    proof {
        assert(kept.take(n as int) =~= kept);
    }
    Ok(
        ReadingRepairReport {
            duplicates_removed: before - n,
            bookmarks_created: store.bookmarks.len() - base,
            pointers_set,
        },
    )
}

fn set_pointer(states: &mut Vec<ReadingStateRow>, i: usize, id: i64)
    requires
        i < old(states)@.len(),
    ensures
        final(states)@ == old(states)@.update(i as int, final(states)@[i as int]),
        final(states)@[i as int] == (ReadingStateRow {
            current_bookmark: Some(id),
            ..old(states)@[i as int]
        }),
{
    let mut row = states.remove(i);
    row.current_bookmark = Some(id);
    states.insert(i, row);
    proof {
        assert(states@ =~= old(states)@.update(i as int, row));
    }
}

/// The largest id of a part of a table is at most that of the table.
pub proof fn lemma_largest_key_of_part<T: Keyed>(whole: Seq<T>, part: Seq<T>)
    requires
        forall|i: int| 0 <= i < part.len() ==> whole.contains(#[trigger] part[i]),
    ensures
        largest_key(part) <= largest_key(whole),
    decreases part.len(),
{
    lemma_largest_key_bounds(whole);
    if part.len() > 0 {
        assert forall|i: int| 0 <= i < part.drop_last().len() implies whole.contains(
            #[trigger] part.drop_last()[i],
        ) by {
            assert(part.drop_last()[i] == part[i]);
        }
        lemma_largest_key_of_part(whole, part.drop_last());
        assert(whole.contains(part[part.len() - 1]));
        let k = choose|k: int| 0 <= k < whole.len() && whole[k] == part.last();
        assert(whole[k].key() <= largest_key(whole));
    }
}


/// True when a bookmark has the id `bookmark` and belongs to the reading
/// state `state`.
pub open spec fn points_home(bookmarks: Seq<BookmarkRow>, bookmark: i64, state: i64) -> bool {
    exists|k: int|
        0 <= k < bookmarks.len() && (#[trigger] bookmarks[k]).id == bookmark
            && bookmarks[k].reading_state_id == state
}

/// The two-way link: the current bookmark of every reading state that has
/// one is a bookmark of that reading state.
pub open spec fn pointers_hold(states: Seq<ReadingStateRow>, bookmarks: Seq<BookmarkRow>) -> bool {
    forall|i: int|
        0 <= i < states.len() && (#[trigger] states[i]).current_bookmark is Some ==> points_home(
            bookmarks,
            states[i].current_bookmark->0,
            states[i].id,
        )
}

/// No two reading states share an id.
pub open spec fn state_ids_differ(states: Seq<ReadingStateRow>) -> bool {
    forall|i: int, j: int|
        0 <= i < j < states.len() ==> (#[trigger] states[i]).id != (#[trigger] states[j]).id
}

/// After the repair of the reading states the current bookmark of every
/// reading state is a bookmark of that reading state, provided that this
/// held of the pointers that were set before, and that no two reading states
/// share an id.
pub proof fn law_bookmarks_two_way(pre: Companion, post: Companion, now: Seq<char>)
    requires
        reading_states_repaired(pre, post, now),
        state_ids_differ(pre.reading_states@),
        pointers_hold(pre.reading_states@, pre.bookmarks@),
    ensures
        pointers_hold(post.reading_states@, post.bookmarks@),
        forall|i: int|
            0 <= i < post.reading_states@.len() ==> (#[trigger] post.reading_states@[i]).current_bookmark is Some,
{
    let states = pre.reading_states@;
    let kept = newest_states(pre);
    let lasting = lasting_bookmarks(pre);
    lemma_filter_members(states, is_newest(states));
    lemma_filter_members(pre.bookmarks@, of_no_duplicate(states));
    assert forall|i: int| 0 <= i < post.reading_states@.len() implies (
    #[trigger] post.reading_states@[i]).current_bookmark is Some && points_home(
        post.bookmarks@,
        post.reading_states@[i].current_bookmark->0,
        post.reading_states@[i].id,
    ) by {
        let was = kept[i];
        let is = post.reading_states@[i];
        assert(state_repaired(was, is, lasting, post.bookmarks@));
        let first = first_where(lasting, bookmark_of(was.id));
        lemma_first_where(lasting, bookmark_of(was.id));
        if first >= lasting.len() {
            let k = choose|k: int|
                lasting.len() <= k < post.bookmarks@.len() && (#[trigger] post.bookmarks@[k]).id
                    == is.current_bookmark->0 && post.bookmarks@[k].reading_state_id == was.id;
            assert(post.bookmarks@[k].id == is.current_bookmark->0);
        } else if was.current_bookmark is None {
            assert(post.bookmarks@.take(lasting.len() as int)[first] == post.bookmarks@[first]);
            assert(bookmark_of(was.id)(lasting[first]));
        } else {
            assert(states.contains(was));
            let a = choose|a: int| 0 <= a < states.len() && states[a] == was;
            assert(points_home(pre.bookmarks@, was.current_bookmark->0, was.id));
            let m = choose|m: int|
                0 <= m < pre.bookmarks@.len() && (#[trigger] pre.bookmarks@[m]).id
                    == was.current_bookmark->0 && pre.bookmarks@[m].reading_state_id == was.id;
            assert(is_newest(states)(was));
            if is_duplicate_id(states, was.id) {
                let d = choose|d: int|
                    0 <= d < states.len() && (#[trigger] states[d]).id == was.id && !is_newest(
                        states,
                    )(states[d]);
                if d < a {
                    assert(states[d].id != states[a].id);
                } else if a < d {
                    assert(states[a].id != states[d].id);
                }
            }
            assert(of_no_duplicate(states)(pre.bookmarks@[m]));
            assert(lasting.contains(pre.bookmarks@[m]));
            let q = choose|q: int| 0 <= q < lasting.len() && lasting[q] == pre.bookmarks@[m];
            assert(post.bookmarks@.take(lasting.len() as int)[q] == post.bookmarks@[q]);
        }
    }
}


/// The repair of the reading states, run a second time on what the first
/// left, changes nothing: no duplicate is left to remove, no reading state
/// lacks a bookmark, and every pointer is set.
pub proof fn law_reading_repair_settles(
    start: Companion,
    once: Companion,
    twice: Companion,
    now_1: Seq<char>,
    now_2: Seq<char>,
)
    requires
        reading_states_repaired(start, once, now_1),
        reading_states_repaired(once, twice, now_2),
    ensures
        twice.reading_states@ == once.reading_states@,
        twice.bookmarks@ == once.bookmarks@,
        newest_states(once) == once.reading_states@,
        lasting_bookmarks(once) == once.bookmarks@,
        reading_report(once, twice) == (ReadingRepairReport {
            duplicates_removed: 0,
            bookmarks_created: 0,
            pointers_set: 0,
        }),
{
    lemma_tables_settle(
        start.reading_states@,
        start.bookmarks@,
        once.reading_states@,
        once.bookmarks@,
        twice.reading_states@,
        twice.bookmarks@,
        now_1,
        now_2,
    );
}

/// The repair of the two tables, run a second time on what the first left,
/// changes nothing and finds no pointer to set.
pub proof fn lemma_tables_settle(
    states_0: Seq<ReadingStateRow>,
    marks_0: Seq<BookmarkRow>,
    states: Seq<ReadingStateRow>,
    marks: Seq<BookmarkRow>,
    states_2: Seq<ReadingStateRow>,
    marks_2: Seq<BookmarkRow>,
    now_1: Seq<char>,
    now_2: Seq<char>,
)
    requires
        tables_repaired(states_0, marks_0, states, marks, now_1),
        tables_repaired(states, marks, states_2, marks_2, now_2),
    ensures
        states_2 == states,
        marks_2 == marks,
        newest_of(states) == states,
        lasting_of(states, marks) == marks,
        newest_of(states).filter(needs_pointer(lasting_of(states, marks))).len() == 0,
{
    let kept = newest_of(states_0);
    let lasting = lasting_of(states_0, marks_0);
    lemma_filter_members(states_0, is_newest(states_0));
    assert forall|i: int| 0 <= i < states.len() implies is_newest(states)(#[trigger] states[i]) by {
        assert(state_repaired(kept[i], states[i], lasting, marks));
        assert(is_newest(states_0)(kept[i]));
        assert forall|k: int|
            0 <= k < states.len() && (#[trigger] states[k]).user_id == states[i].user_id
                && states[k].book_id == states[i].book_id implies states[k].id <= states[i].id by {
            assert(state_repaired(kept[k], states[k], lasting, marks));
            assert(states_0.contains(kept[k]));
            let a = choose|a: int|
                0 <= a < states_0.len() && states_0[a] == kept[k];
            assert(states_0[a].user_id == kept[i].user_id);
        }
    }
    lemma_filter_keeps_all(states, is_newest(states));
    assert forall|k: int| 0 <= k < marks.len() implies of_no_duplicate(states)(#[trigger] marks[k]) by {
        if is_duplicate_id(states, marks[k].reading_state_id) {
            let d = choose|d: int|
                0 <= d < states.len() && (#[trigger] states[d]).id == marks[k].reading_state_id
                    && !is_newest(states)(states[d]);
            assert(is_newest(states)(states[d]));
        }
    }
    lemma_filter_keeps_all(marks, of_no_duplicate(states));
    assert forall|i: int| 0 <= i < states.len() implies first_where(
        marks,
        bookmark_of((#[trigger] states[i]).id),
    ) < marks.len() && states[i].current_bookmark is Some by {
        assert(state_repaired(kept[i], states[i], lasting, marks));
        let p = bookmark_of(states[i].id);
        lemma_first_where(marks, p);
        lemma_first_where(lasting, bookmark_of(kept[i].id));
        let first = first_where(lasting, bookmark_of(kept[i].id));
        if first >= lasting.len() {
            let k = choose|k: int|
                lasting.len() <= k < marks.len() && (#[trigger] marks[k]).id
                    == states[i].current_bookmark->0 && marks[k].reading_state_id == kept[i].id;
            assert(p(marks[k]));
        } else {
            assert(marks.take(lasting.len() as int)[first] == marks[first]);
            assert(p(marks[first]));
        }
    }
    if marks_2.len() > marks.len() {
        let b = marks_2[marks.len() as int];
        assert(is_first_bookmark(b, marks_2.take(marks.len() as int), states, marks, now_2));
        let j = choose|j: int|
            0 <= j < states.len() && (#[trigger] states[j]).id == b.reading_state_id
                && first_where(marks, bookmark_of(b.reading_state_id)) >= marks.len();
        assert(first_where(marks, bookmark_of(states[j].id)) < marks.len());
    }
    assert(marks_2.take(marks.len() as int) =~= marks_2);
    assert forall|i: int| 0 <= i < states.len() implies #[trigger] states_2[i]
        == states[i] by {
        assert(state_repaired(states[i], states_2[i], marks, marks_2));
        assert(first_where(marks, bookmark_of(states[i].id)) < marks.len());
    }
    assert(states_2 =~= states);
    let needing = states.filter(needs_pointer(marks));
    lemma_filter_members(states, needs_pointer(marks));
    if needing.len() > 0 {
        assert(needs_pointer(marks)(needing[0]));
        assert(states.contains(needing[0]));
        let i = choose|i: int| 0 <= i < states.len() && states[i] == needing[0];
        assert(first_where(marks, bookmark_of(states[i].id)) < marks.len());
    }
}


/// True when two reading states differ in their times at most.
pub open spec fn same_but_times(a: ReadingStateRow, b: ReadingStateRow) -> bool {
    a.id == b.id && a.user_id == b.user_id && a.book_id == b.book_id && a.current_bookmark
        == b.current_bookmark
}

/// True when two tables of reading states differ, row by row, in their
/// times at most.
pub open spec fn same_states_but_times(a: Seq<ReadingStateRow>, b: Seq<ReadingStateRow>) -> bool {
    a.len() == b.len() && forall|i: int| 0 <= i < a.len() ==> same_but_times(a[i], #[trigger] b[i])
}

/// The repair of the two tables, run on what an earlier repair left with
/// nothing but times rewritten since, changes nothing and finds no pointer
/// to set.
pub proof fn lemma_tables_settle_after_times(
    states_0: Seq<ReadingStateRow>,
    marks_0: Seq<BookmarkRow>,
    states: Seq<ReadingStateRow>,
    marks: Seq<BookmarkRow>,
    fresh: Seq<ReadingStateRow>,
    states_2: Seq<ReadingStateRow>,
    marks_2: Seq<BookmarkRow>,
    now_1: Seq<char>,
    now_2: Seq<char>,
)
    requires
        tables_repaired(states_0, marks_0, states, marks, now_1),
        same_states_but_times(states, fresh),
        tables_repaired(fresh, marks, states_2, marks_2, now_2),
    ensures
        states_2 == fresh,
        marks_2 == marks,
        newest_of(fresh) == fresh,
        lasting_of(fresh, marks) == marks,
        newest_of(fresh).filter(needs_pointer(lasting_of(fresh, marks))).len() == 0,
{
    let kept = newest_of(states_0);
    let lasting = lasting_of(states_0, marks_0);
    lemma_filter_members(states_0, is_newest(states_0));
    assert forall|i: int| 0 <= i < fresh.len() implies (#[trigger] fresh[i]).id == kept[i].id
        && fresh[i].user_id == kept[i].user_id && fresh[i].book_id == kept[i].book_id
        && fresh[i].current_bookmark == states[i].current_bookmark by {
        assert(state_repaired(kept[i], states[i], lasting, marks));
        assert(same_but_times(states[i], fresh[i]));
    }
    assert forall|i: int| 0 <= i < fresh.len() implies is_newest(fresh)(#[trigger] fresh[i]) by {
        assert(is_newest(states_0)(kept[i]));
        assert forall|k: int|
            0 <= k < fresh.len() && (#[trigger] fresh[k]).user_id == fresh[i].user_id
                && fresh[k].book_id == fresh[i].book_id implies fresh[k].id <= fresh[i].id by {
            assert(states_0.contains(kept[k]));
            let a = choose|a: int| 0 <= a < states_0.len() && states_0[a] == kept[k];
            assert(states_0[a].user_id == kept[i].user_id);
        }
    }
    lemma_filter_keeps_all(fresh, is_newest(fresh));
    assert forall|k: int| 0 <= k < marks.len() implies of_no_duplicate(fresh)(#[trigger] marks[k]) by {
        if is_duplicate_id(fresh, marks[k].reading_state_id) {
            let d = choose|d: int|
                0 <= d < fresh.len() && (#[trigger] fresh[d]).id == marks[k].reading_state_id
                    && !is_newest(fresh)(fresh[d]);
            assert(is_newest(fresh)(fresh[d]));
        }
    }
    lemma_filter_keeps_all(marks, of_no_duplicate(fresh));
    assert forall|i: int| 0 <= i < fresh.len() implies first_where(
        marks,
        bookmark_of((#[trigger] fresh[i]).id),
    ) < marks.len() && fresh[i].current_bookmark is Some by {
        assert(state_repaired(kept[i], states[i], lasting, marks));
        let p = bookmark_of(fresh[i].id);
        lemma_first_where(marks, p);
        lemma_first_where(lasting, bookmark_of(kept[i].id));
        let first = first_where(lasting, bookmark_of(kept[i].id));
        if first >= lasting.len() {
            let k = choose|k: int|
                lasting.len() <= k < marks.len() && (#[trigger] marks[k]).id
                    == states[i].current_bookmark->0 && marks[k].reading_state_id == kept[i].id;
            assert(p(marks[k]));
        } else {
            assert(marks.take(lasting.len() as int)[first] == marks[first]);
            assert(p(marks[first]));
        }
    }
    if marks_2.len() > marks.len() {
        let b = marks_2[marks.len() as int];
        assert(is_first_bookmark(b, marks_2.take(marks.len() as int), fresh, marks, now_2));
        let j = choose|j: int|
            0 <= j < fresh.len() && (#[trigger] fresh[j]).id == b.reading_state_id && first_where(
                marks,
                bookmark_of(b.reading_state_id),
            ) >= marks.len();
        assert(first_where(marks, bookmark_of(fresh[j].id)) < marks.len());
    }
    assert(marks_2.take(marks.len() as int) =~= marks_2);
    assert forall|i: int| 0 <= i < fresh.len() implies #[trigger] states_2[i] == fresh[i] by {
        assert(state_repaired(fresh[i], states_2[i], marks, marks_2));
        assert(first_where(marks, bookmark_of(fresh[i].id)) < marks.len());
    }
    assert(states_2 =~= fresh);
    let needing = fresh.filter(needs_pointer(marks));
    lemma_filter_members(fresh, needs_pointer(marks));
    if needing.len() > 0 {
        assert(needs_pointer(marks)(needing[0]));
        assert(fresh.contains(needing[0]));
        let i = choose|i: int| 0 <= i < fresh.len() && fresh[i] == needing[0];
        assert(first_where(marks, bookmark_of(fresh[i].id)) < marks.len());
    }
}

/// Among the reading states of a user in a book there is a newest.
pub proof fn lemma_newest_of_pair(
    states: Seq<ReadingStateRow>,
    user: i64,
    book: i64,
    upto: int,
) -> (j: int)
    requires
        0 < upto <= states.len(),
        exists|i: int|
            0 <= i < upto && (#[trigger] states[i]).user_id == user && states[i].book_id == book,
    ensures
        0 <= j < upto,
        states[j].user_id == user,
        states[j].book_id == book,
        forall|k: int|
            0 <= k < upto && (#[trigger] states[k]).user_id == user && states[k].book_id == book
                ==> states[k].id <= states[j].id,
    decreases upto,
{
    let last = upto - 1;
    let here = states[last].user_id == user && states[last].book_id == book;
    if exists|i: int|
        0 <= i < last && (#[trigger] states[i]).user_id == user && states[i].book_id == book {
        let before = lemma_newest_of_pair(states, user, book, last);
        if here && states[last].id > states[before].id {
            last
        } else {
            before
        }
    } else {
        let i = choose|i: int|
            0 <= i < upto && (#[trigger] states[i]).user_id == user && states[i].book_id == book;
        assert(i == last);
        last
    }
}

} // verus!
