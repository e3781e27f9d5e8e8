//! The collection manager: putting a book on a user's shelf.
use vstd::prelude::*;
use vstd::string::*;
use crate::companion::{
    BookmarkRow, Companion, ReadingStateRow, ShelfLinkRow, ShelfRow, StatisticsRow, StoreError,
    SyncedBookRow, UserRow,
};
use crate::outside::{new_uuid, now_local_micro};
use crate::rows::{
    first_where, keep_marked, largest_id, largest_key, lemma_first_where,
    lemma_largest_key_bounds,
};

verus! {

/// The id of the user that owns a shelf when no user is named.
pub const DEFAULT_USER_ID: i64 = 1;

/// True when `o` holds the text `t`.
pub open spec fn text_is(o: Option<String>, t: Seq<char>) -> bool {
    o matches Some(s) && s@ == t
}

/// The characters of a name that may be absent.
pub open spec fn name_of(name: Option<&str>) -> Option<Seq<char>> {
    match name {
        Some(n) => Some(n@),
        None => None,
    }
}

/// The test that a user has the name.
pub open spec fn user_named(name: Seq<char>) -> spec_fn(UserRow) -> bool {
    |u: UserRow| u.name@ == name
}

/// The test that a shelf has the name and the owner.
pub open spec fn shelf_named(name: Seq<char>, owner: i64) -> spec_fn(ShelfRow) -> bool {
    |s: ShelfRow| s.name@ == name && s.user_id == owner
}

/// The test that a membership is that of the book in the shelf.
pub open spec fn link_between(book: i64, shelf: i64) -> spec_fn(ShelfLinkRow) -> bool {
    |l: ShelfLinkRow| l.book_id == book && l.shelf == shelf
}

/// The test that a reading state is that of the user in the book.
pub open spec fn state_of(book: i64, user: i64) -> spec_fn(ReadingStateRow) -> bool {
    |s: ReadingStateRow| s.book_id == book && s.user_id == user
}

/// The test that a device acknowledgment belongs to another user.
pub open spec fn not_of_user(user: i64) -> spec_fn(SyncedBookRow) -> bool {
    |s: SyncedBookRow| s.user_id != user
}

/// The owner that a user name stands for: the default user where no name is
/// given, the first user of that name otherwise, and nobody where no user
/// has it.
pub open spec fn owner_of(users: Seq<UserRow>, username: Option<Seq<char>>) -> Option<i64> {
    match username {
        None => Some(DEFAULT_USER_ID),
        Some(n) => {
            let i = first_where(users, user_named(n));
            if i < users.len() {
                Some(users[i].id)
            } else {
                None
            }
        },
    }
}

/// The largest position on a shelf, if the shelf holds a book.
pub open spec fn top_position(links: Seq<ShelfLinkRow>, shelf: i64) -> Option<int>
    decreases links.len(),
{
    if links.len() == 0 {
        None
    } else {
        let rest = top_position(links.drop_last(), shelf);
        let l = links.last();
        if l.shelf != shelf {
            rest
        } else if rest is Some && rest->0 >= l.order {
            rest
        } else {
            Some(l.order as int)
        }
    }
}

/// The position that the next book on a shelf takes: one above the largest,
/// and 1 on an empty shelf.
pub open spec fn next_position(links: Seq<ShelfLinkRow>, shelf: i64) -> int {
    match top_position(links, shelf) {
        Some(m) => m + 1,
        None => 1,
    }
}

/// True when the reading states, the bookmarks and the statistics can each
/// take one more id.
pub open spec fn has_room_for_state(store: Companion) -> bool {
    &&& largest_key(store.reading_states@) < i64::MAX
    &&& largest_key(store.bookmarks@) < i64::MAX
    &&& largest_key(store.statistics@) < i64::MAX
}

/// No position on `shelf` is above `top_position`.
pub proof fn lemma_top_position(links: Seq<ShelfLinkRow>, shelf: i64)
    ensures
        forall|i: int|
            0 <= i < links.len() && (#[trigger] links[i]).shelf == shelf ==> top_position(
                links,
                shelf,
            ) is Some && links[i].order <= top_position(links, shelf)->0,
        top_position(links, shelf) is Some ==> exists|i: int|
            0 <= i < links.len() && (#[trigger] links[i]).shelf == shelf && links[i].order
                == top_position(links, shelf)->0,
    decreases links.len(),
{
    if links.len() > 0 {
        let d = links.drop_last();
        lemma_top_position(d, shelf);
        assert forall|i: int| 0 <= i < links.len() && (#[trigger] links[i]).shelf
            == shelf implies top_position(links, shelf) is Some && links[i].order
            <= top_position(links, shelf)->0 by {
            if i < d.len() {
                assert(d[i] == links[i]);
            }
        }
        if top_position(links, shelf) is Some {
            if top_position(links, shelf) == top_position(d, shelf) && top_position(d, shelf) is Some {
                let k = choose|k: int|
                    0 <= k < d.len() && (#[trigger] d[k]).shelf == shelf && d[k].order
                        == top_position(d, shelf)->0;
                assert(links[k] == d[k]);
            } else {
                assert(links[links.len() - 1] == links.last());
            }
        }
    }
}

/// Resolves a user name to the id of its user; without a name the default
/// user owns the shelf.
pub fn resolve_user_id(store: &Companion, username: Option<&str>) -> (r: Result<i64, StoreError>)
    ensures
        match owner_of(store.users@, name_of(username)) {
            Some(id) => r == Ok::<i64, StoreError>(id),
            None => r is Err && r->Err_0 is UserNotFound && Some(r->Err_0->UserNotFound_name@)
                == name_of(username),
        },
{
    match username {
        None => Ok(DEFAULT_USER_ID),
        Some(name) => {
            let wanted = String::from_str(name);
            let mut i: usize = 0;
            while i < store.users.len()
                invariant
                    i <= store.users@.len(),
                    wanted@ == name@,
                    username == Some(name),
                    forall|j: int| 0 <= j < i ==> !user_named(name@)(#[trigger] store.users@[j]),
                decreases store.users@.len() - i,
            {
                if store.users[i].name == wanted {
                    proof {
                        lemma_first_where(store.users@, user_named(name@));
                        assert(user_named(name@)(store.users@[i as int]));
                    }
                    return Ok(store.users[i].id);
                }
                i += 1;
            }
            proof {
                lemma_first_where(store.users@, user_named(name@));
            }
            Err(StoreError::UserNotFound { name: wanted })
        },
    }
}

/// The index of the first shelf of that name and owner.
pub fn find_shelf(store: &Companion, shelf_name: &str, owner: i64) -> (i: usize)
    ensures
        i == first_where(store.shelves@, shelf_named(shelf_name@, owner)),
{
    let wanted = String::from_str(shelf_name);
    let mut i: usize = 0;
    while i < store.shelves.len()
        invariant
            i <= store.shelves@.len(),
            wanted@ == shelf_name@,
            forall|j: int|
                0 <= j < i ==> !shelf_named(shelf_name@, owner)(#[trigger] store.shelves@[j]),
        decreases store.shelves@.len() - i,
    {
        if store.shelves[i].user_id == owner && store.shelves[i].name == wanted {
            proof {
                lemma_first_where(store.shelves@, shelf_named(shelf_name@, owner));
                assert(shelf_named(shelf_name@, owner)(store.shelves@[i as int]));
            }
            return i;
        }
        i += 1;
    }
    proof {
        lemma_first_where(store.shelves@, shelf_named(shelf_name@, owner));
    }
    i
}

/// The index of the first membership of `book` in `shelf`.
pub fn find_link(store: &Companion, book: i64, shelf: i64) -> (i: usize)
    ensures
        i == first_where(store.links@, link_between(book, shelf)),
{
    let mut i: usize = 0;
    while i < store.links.len()
        invariant
            i <= store.links@.len(),
            forall|j: int| 0 <= j < i ==> !link_between(book, shelf)(#[trigger] store.links@[j]),
        decreases store.links@.len() - i,
    {
        if store.links[i].book_id == book && store.links[i].shelf == shelf {
            proof {
                lemma_first_where(store.links@, link_between(book, shelf));
                assert(link_between(book, shelf)(store.links@[i as int]));
            }
            return i;
        }
        i += 1;
    }
    proof {
        lemma_first_where(store.links@, link_between(book, shelf));
    }
    i
}

/// The index of the first reading state of `user` in `book`.
pub fn find_reading_state(store: &Companion, book: i64, user: i64) -> (i: usize)
    ensures
        i == first_where(store.reading_states@, state_of(book, user)),
{
    let mut i: usize = 0;
    while i < store.reading_states.len()
        invariant
            i <= store.reading_states@.len(),
            forall|j: int|
                0 <= j < i ==> !state_of(book, user)(#[trigger] store.reading_states@[j]),
        decreases store.reading_states@.len() - i,
    {
        if store.reading_states[i].book_id == book && store.reading_states[i].user_id == user {
            proof {
                lemma_first_where(store.reading_states@, state_of(book, user));
                assert(state_of(book, user)(store.reading_states@[i as int]));
            }
            return i;
        }
        i += 1;
    }
    proof {
        lemma_first_where(store.reading_states@, state_of(book, user));
    }
    i
}


/// The test that a shelf has the id.
pub open spec fn shelf_with_id(id: i64) -> spec_fn(ShelfRow) -> bool {
    |s: ShelfRow| s.id == id
}

/// Whether the first shelf with this id is synced to a reading device; a
/// shelf that does not exist is not.
pub open spec fn shelf_syncs(shelves: Seq<ShelfRow>, id: i64) -> bool {
    let i = first_where(shelves, shelf_with_id(id));
    i < shelves.len() && shelves[i].kobo_sync
}

/// `post` is `pre` with one row more at its end.
pub open spec fn grown_by_one<T>(post: Seq<T>, pre: Seq<T>) -> bool {
    post.len() == pre.len() + 1 && post.drop_last() == pre
}

/// True when `row` is the shelf that an addition creates: private, not
/// synced, with `now` as both its times.
pub open spec fn is_new_shelf(
    row: ShelfRow,
    id: int,
    name: Seq<char>,
    owner: i64,
    uuid: Seq<char>,
    now: Seq<char>,
) -> bool {
    &&& row.id == id
    &&& row.name@ == name
    &&& row.user_id == owner
    &&& row.uuid@ == uuid
    &&& !row.is_public
    &&& !row.kobo_sync
    &&& text_is(row.created, now)
    &&& text_is(row.last_modified, now)
}

/// `row` is `was` with `now` as the time of its last change.
pub open spec fn is_touched(row: ShelfRow, was: ShelfRow, now: Seq<char>) -> bool {
    &&& row == (ShelfRow { last_modified: row.last_modified, ..was })
    &&& text_is(row.last_modified, now)
}

/// True when `row` is the membership that an addition creates.
pub open spec fn is_new_link(
    row: ShelfLinkRow,
    id: int,
    book: i64,
    shelf: i64,
    order: int,
    now: Seq<char>,
) -> bool {
    &&& row.id == id
    &&& row.book_id == book
    &&& row.shelf == shelf
    &&& row.order == order
    &&& text_is(row.date_added, now)
}

/// True when `row` is the reading state that an addition to a synced shelf
/// creates: it points at its first bookmark.
pub open spec fn is_new_state(
    row: ReadingStateRow,
    id: int,
    user: i64,
    book: i64,
    bookmark: int,
    now: Seq<char>,
) -> bool {
    &&& row.id == id
    &&& row.user_id == user
    &&& row.book_id == book
    &&& row.current_bookmark matches Some(b) && b == bookmark
    &&& text_is(row.last_modified, now)
    &&& text_is(row.priority_timestamp, now)
}

/// True when `row` is the first bookmark of a new reading state.
pub open spec fn is_new_bookmark(row: BookmarkRow, id: int, state: int, now: Seq<char>) -> bool {
    row.id == id && row.reading_state_id == state && text_is(row.last_modified, now)
}

/// True when `row` is the statistics row of a new reading state: its
/// counters are empty.
pub open spec fn is_new_statistics(row: StatisticsRow, id: int, state: int, now: Seq<char>) -> bool {
    &&& row.id == id
    &&& row.reading_state_id == state
    &&& text_is(row.last_modified, now)
    &&& row.remaining_time_minutes is None
    &&& row.spent_reading_minutes is None
}

/// What `find_or_create_shelf` leaves: the store as it was where the owner
/// has a shelf of that name, and one new private, unsynced shelf otherwise.
pub open spec fn shelf_ensured(
    pre: Companion,
    post: Companion,
    name: Seq<char>,
    owner: i64,
    uuid: Seq<char>,
    now: Seq<char>,
) -> bool {
    let i = first_where(pre.shelves@, shelf_named(name, owner));
    if i < pre.shelves@.len() {
        post == pre
    } else {
        &&& post == (Companion { shelves: post.shelves, ..pre })
        &&& grown_by_one(post.shelves@, pre.shelves@)
        &&& is_new_shelf(post.shelves@.last(), largest_key(pre.shelves@) + 1, name, owner, uuid, now)
    }
}

/// The id of the shelf that `find_or_create_shelf` settles on.
pub open spec fn ensured_shelf_id(pre: Companion, name: Seq<char>, owner: i64) -> int {
    let i = first_where(pre.shelves@, shelf_named(name, owner));
    if i < pre.shelves@.len() {
        pre.shelves@[i].id as int
    } else {
        largest_key(pre.shelves@) + 1
    }
}

/// Finds the owner's shelf of that name, or creates it: private, not
/// synced, with a new id, the given UUID and `now` as both its times.
/// Returns the shelf's index.
pub fn find_or_create_shelf(
    store: &mut Companion,
    shelf_name: &str,
    owner: i64,
    uuid: &str,
    now: &str,
) -> (i: usize)
    requires
        first_where(old(store).shelves@, shelf_named(shelf_name@, owner)) >= old(
            store,
        ).shelves@.len() ==> largest_key(old(store).shelves@) < i64::MAX,
    ensures
        shelf_ensured(*old(store), *final(store), shelf_name@, owner, uuid@, now@),
        i < final(store).shelves@.len(),
        i == first_where(old(store).shelves@, shelf_named(shelf_name@, owner)),
        final(store).shelves@[i as int].id == ensured_shelf_id(*old(store), shelf_name@, owner),
        shelf_named(shelf_name@, owner)(final(store).shelves@[i as int]),
{
    let i = find_shelf(store, shelf_name, owner);
    proof {
        lemma_first_where(store.shelves@, shelf_named(shelf_name@, owner));
    }
    if i < store.shelves.len() {
        return i;
    }
    let id: i64 = largest_id(&store.shelves) + 1;
    store.shelves.push(
        ShelfRow {
            id,
            name: String::from_str(shelf_name),
            user_id: owner,
            uuid: String::from_str(uuid),
            is_public: false,
            kobo_sync: false,
            created: Some(String::from_str(now)),
            last_modified: Some(String::from_str(now)),
        },
    );
    proof {
        assert(store.shelves@.drop_last() =~= old(store).shelves@);
    }
    i
}

/// What becomes of the reading states, bookmarks and statistics when a book
/// comes onto a shelf: where the shelf is synced and the user has no reading
/// state in the book, a new reading state with its statistics and a first
/// bookmark that it points to; otherwise the three tables stay.
pub open spec fn states_prepared(
    pre: Companion,
    post: Companion,
    syncs: bool,
    book: i64,
    user: i64,
    now: Seq<char>,
) -> bool {
    if syncs && first_where(pre.reading_states@, state_of(book, user))
        >= pre.reading_states@.len() {
        let state = largest_key(pre.reading_states@) + 1;
        let mark = largest_key(pre.bookmarks@) + 1;
        &&& grown_by_one(post.reading_states@, pre.reading_states@)
        &&& grown_by_one(post.bookmarks@, pre.bookmarks@)
        &&& grown_by_one(post.statistics@, pre.statistics@)
        &&& is_new_state(post.reading_states@.last(), state, user, book, mark, now)
        &&& is_new_bookmark(post.bookmarks@.last(), mark, state, now)
        &&& is_new_statistics(
            post.statistics@.last(),
            largest_key(pre.statistics@) + 1,
            state,
            now,
        )
    } else {
        &&& post.reading_states == pre.reading_states
        &&& post.bookmarks == pre.bookmarks
        &&& post.statistics == pre.statistics
    }
}

/// What `handle_kobo_sync` leaves: the three tables as `states_prepared`
/// says, and every other table as it was.
pub open spec fn sync_prepared(
    pre: Companion,
    post: Companion,
    shelf_id: i64,
    book: i64,
    user: i64,
    now: Seq<char>,
) -> bool {
    &&& post == (Companion {
        reading_states: post.reading_states,
        bookmarks: post.bookmarks,
        statistics: post.statistics,
        ..pre
    })
    &&& states_prepared(pre, post, shelf_syncs(pre.shelves@, shelf_id), book, user, now)
}

fn shelf_is_synced(shelves: &Vec<ShelfRow>, shelf_id: i64) -> (r: bool)
    ensures
        r == shelf_syncs(shelves@, shelf_id),
{
    let mut i: usize = 0;
    while i < shelves.len() && shelves[i].id != shelf_id
        invariant
            i <= shelves@.len(),
            forall|j: int| 0 <= j < i ==> !shelf_with_id(shelf_id)(#[trigger] shelves@[j]),
        decreases shelves@.len() - i,
    {
        i += 1;
    }
    proof {
        lemma_first_where(shelves@, shelf_with_id(shelf_id));
        if i < shelves@.len() {
            assert(shelf_with_id(shelf_id)(shelves@[i as int]));
        }
    }
    i < shelves.len() && shelves[i].kobo_sync
}

fn make_reading_state(store: &mut Companion, book_id: i64, user_id: i64, now: &str)
    requires
        has_room_for_state(*old(store)),
        first_where(old(store).reading_states@, state_of(book_id, user_id)) >= old(
            store,
        ).reading_states@.len(),
    ensures
        *final(store) == (Companion {
            reading_states: final(store).reading_states,
            bookmarks: final(store).bookmarks,
            statistics: final(store).statistics,
            ..*old(store)
        }),
        states_prepared(*old(store), *final(store), true, book_id, user_id, now@),
{
    let state: i64 = largest_id(&store.reading_states) + 1;
    let mark: i64 = largest_id(&store.bookmarks) + 1;
    let stat: i64 = largest_id(&store.statistics) + 1;
    store.reading_states.push(
        ReadingStateRow {
            id: state,
            user_id,
            book_id,
            current_bookmark: Some(mark),
            last_modified: Some(String::from_str(now)),
            priority_timestamp: Some(String::from_str(now)),
        },
    );
    store.statistics.push(
        StatisticsRow {
            id: stat,
            reading_state_id: state,
            last_modified: Some(String::from_str(now)),
            remaining_time_minutes: None,
            spent_reading_minutes: None,
        },
    );
    store.bookmarks.push(
        BookmarkRow { id: mark, reading_state_id: state, last_modified: Some(String::from_str(now)) },
    );
    proof {
        assert(store.reading_states@.drop_last() =~= old(store).reading_states@);
        assert(store.bookmarks@.drop_last() =~= old(store).bookmarks@);
        assert(store.statistics@.drop_last() =~= old(store).statistics@);
    }
}

/// Prepares the sync bookkeeping for a book that has come onto a shelf.
/// Room for new ids is needed only where a reading state has to be made.
pub fn handle_kobo_sync(store: &mut Companion, shelf_id: i64, book_id: i64, user_id: i64, now: &str)
    requires
        shelf_syncs(old(store).shelves@, shelf_id) && first_where(
            old(store).reading_states@,
            state_of(book_id, user_id),
        ) >= old(store).reading_states@.len() ==> has_room_for_state(*old(store)),
    ensures
        sync_prepared(*old(store), *final(store), shelf_id, book_id, user_id, now@),
{
    if !shelf_is_synced(&store.shelves, shelf_id) {
        return ;
    }
    let at = find_reading_state(store, book_id, user_id);
    if at < store.reading_states.len() {
        return ;
    }
    make_reading_state(store, book_id, user_id, now);
}

/// True when an addition finds room for every row that it has to insert: a
/// shelf where the owner has none of the name; a membership, with its
/// position, where the book is not on the shelf; and a reading state with
/// bookmark and statistics where the shelf is synced and the owner has none
/// in the book. An addition that inserts nothing needs no room.
pub open spec fn has_room_for(store: Companion, book: i64, name: Seq<char>, owner: i64) -> bool {
    let created = first_where(store.shelves@, shelf_named(name, owner)) >= store.shelves@.len();
    let shelf = ensured_shelf_id(store, name, owner);
    if created && largest_key(store.shelves@) >= i64::MAX {
        false
    } else if first_where(store.links@, link_between(book, shelf as i64)) < store.links@.len() {
        true
    } else {
        &&& largest_key(store.links@) < i64::MAX
        &&& next_position(store.links@, shelf as i64) <= i64::MAX
        &&& shelf_syncs(store.shelves@, shelf as i64) && first_where(
            store.reading_states@,
            state_of(book, owner),
        ) >= store.reading_states@.len() ==> has_room_for_state(store)
    }
}

/// What adding a book to a shelf leaves behind, table by table. `newly` says
/// whether the book came onto the shelf by this addition.
pub open spec fn book_added(
    pre: Companion,
    post: Companion,
    book: i64,
    name: Seq<char>,
    owner: i64,
    uuid: Seq<char>,
    now: Seq<char>,
    newly: bool,
) -> bool {
    let i = first_where(pre.shelves@, shelf_named(name, owner));
    let created = i >= pre.shelves@.len();
    let shelf_id = ensured_shelf_id(pre, name, owner);
    let linked = first_where(pre.links@, link_between(book, shelf_id as i64)) < pre.links@.len();
    &&& newly == !linked
    &&& post.users == pre.users
    &&& post.downloads == pre.downloads
    &&& post.archived_books == pre.archived_books
    &&& post.shelves@.len() == pre.shelves@.len() + if created {
        1int
    } else {
        0int
    }
    &&& forall|j: int|
        0 <= j < pre.shelves@.len() && (j != i || linked) ==> #[trigger] post.shelves@[j]
            == pre.shelves@[j]
    &&& created ==> is_new_shelf(post.shelves@[i], shelf_id, name, owner, uuid, now)
    &&& !created && !linked ==> is_touched(post.shelves@[i], pre.shelves@[i], now)
    &&& if linked {
        &&& post.links == pre.links
        &&& post.synced_books == pre.synced_books
        &&& post.reading_states == pre.reading_states
        &&& post.bookmarks == pre.bookmarks
        &&& post.statistics == pre.statistics
    } else {
        &&& grown_by_one(post.links@, pre.links@)
        &&& is_new_link(
            post.links@.last(),
            largest_key(pre.links@) + 1,
            book,
            shelf_id as i64,
            next_position(pre.links@, shelf_id as i64),
            now,
        )
        &&& post.synced_books@ == pre.synced_books@.filter(not_of_user(owner))
        &&& states_prepared(
            pre,
            post,
            shelf_syncs(pre.shelves@, shelf_id as i64),
            book,
            owner,
            now,
        )
    }
}

fn position_after(links: &Vec<ShelfLinkRow>, shelf: i64) -> (r: Option<i64>)
    ensures
        match r {
            Some(p) => p == next_position(links@, shelf),
            None => next_position(links@, shelf) > i64::MAX,
        },
{
    let mut top: Option<i64> = None;
    let mut i: usize = 0;
    while i < links.len()
        invariant
            i <= links@.len(),
            match top {
                Some(m) => top_position(links@.take(i as int), shelf) == Some(m as int),
                None => top_position(links@.take(i as int), shelf) is None,
            },
        decreases links@.len() - i,
    {
        proof {
            assert(links@.take(i + 1).drop_last() =~= links@.take(i as int));
        }
        if links[i].shelf == shelf {
            let here = links[i].order;
            top = match top {
                Some(m) => if m >= here {
                    Some(m)
                } else {
                    Some(here)
                },
                None => Some(here),
            };
        }
        i += 1;
    }
    proof {
        assert(links@.take(links@.len() as int) =~= links@);
    }
    match top {
        Some(m) => if m < i64::MAX {
            Some(m + 1)
        } else {
            None
        },
        None => Some(1),
    }
}

fn clear_synced_books(store: &mut Companion, user: i64)
    ensures
        *final(store) == (Companion { synced_books: final(store).synced_books, ..*old(store) }),
        final(store).synced_books@ == old(store).synced_books@.filter(not_of_user(user)),
{
    let n: usize = store.synced_books.len();
    let mut marks: Vec<bool> = Vec::new();
    let mut i: usize = 0;
    while i < n
        invariant
            i <= n == store.synced_books@.len(),
            *store == *old(store),
            marks@.len() == i,
            forall|j: int|
                0 <= j < i ==> marks@[j] == not_of_user(user)(#[trigger] store.synced_books@[j]),
        decreases n - i,
    {
        marks.push(store.synced_books[i].user_id != user);
        i += 1;
    }
    keep_marked(&mut store.synced_books, &marks, Ghost(not_of_user(user)));
}

fn touch_shelf(store: &mut Companion, i: usize, now: &str)
    requires
        i < old(store).shelves@.len(),
    ensures
        *final(store) == (Companion { shelves: final(store).shelves, ..*old(store) }),
        final(store).shelves@ == old(store).shelves@.update(i as int, final(store).shelves@[i as int]),
        is_touched(final(store).shelves@[i as int], old(store).shelves@[i as int], now@),
{
    let mut row = store.shelves.remove(i);
    row.last_modified = Some(String::from_str(now));
    store.shelves.insert(i, row);
    proof {
        assert(store.shelves@ =~= old(store).shelves@.update(i as int, row));
    }
}

/// Puts a book on a user's shelf, creating the shelf where the user has
/// none of that name, inside one unit of work: on an error the store is as
/// it was.
///
/// A book that is on the shelf already stays where it is and the answer is
/// `false`. Otherwise the book takes the position after the last one, the
/// shelf's time of last change becomes `now`, a synced shelf gets the
/// reading state that the device expects, and what the owner's device had
/// acknowledged is forgotten, so that it looks at the shelf again.
pub fn add_book_to_shelf_core(
    store: &mut Companion,
    book_id: i64,
    shelf_name: &str,
    username: Option<&str>,
    uuid: &str,
    now: &str,
) -> (r: Result<bool, StoreError>)
    ensures
        match owner_of(old(store).users@, name_of(username)) {
            None => r is Err && r->Err_0 is UserNotFound && Some(r->Err_0->UserNotFound_name@)
                == name_of(username) && *final(store) == *old(store),
            Some(owner) => if has_room_for(*old(store), book_id, shelf_name@, owner) {
                r is Ok && book_added(
                    *old(store),
                    *final(store),
                    book_id,
                    shelf_name@,
                    owner,
                    uuid@,
                    now@,
                    r->Ok_0,
                )
            } else {
                r is Err && r->Err_0 is IdsExhausted && *final(store) == *old(store)
            },
        },
{
    let owner = match resolve_user_id(store, username) {
        Ok(id) => id,
        Err(e) => {
            return Err(e);
        },
    };
    proof {
        lemma_largest_key_bounds(store.shelves@);
    }
    let found = find_shelf(store, shelf_name, owner);
    let created = found >= store.shelves.len();
    if created && largest_id(&store.shelves) == i64::MAX {
        return Err(StoreError::IdsExhausted);
    }
    let shelf_id: i64 = if created {
        largest_id(&store.shelves) + 1
    } else {
        store.shelves[found].id
    };
    let link_at = find_link(store, book_id, shelf_id);
    if link_at < store.links.len() {
        find_or_create_shelf(store, shelf_name, owner, uuid, now);
        return Ok(false);
    }
    if largest_id(&store.links) == i64::MAX {
        return Err(StoreError::IdsExhausted);
    }
    let order: i64 = match position_after(&store.links, shelf_id) {
        Some(p) => p,
        None => {
            return Err(StoreError::IdsExhausted);
        },
    };
    let needs_state = shelf_is_synced(&store.shelves, shelf_id) && find_reading_state(
        store,
        book_id,
        owner,
    ) >= store.reading_states.len();
    if needs_state && (largest_id(&store.reading_states) == i64::MAX || largest_id(&store.bookmarks)
        == i64::MAX || largest_id(&store.statistics) == i64::MAX) {
        return Err(StoreError::IdsExhausted);
    }
    let at = find_or_create_shelf(store, shelf_name, owner, uuid, now);
    let link_id: i64 = largest_id(&store.links) + 1;
    store.links.push(
        ShelfLinkRow {
            id: link_id,
            book_id,
            shelf: shelf_id,
            order,
            date_added: Some(String::from_str(now)),
        },
    );
    proof {
        assert(store.links@.drop_last() =~= old(store).links@);
    }
    touch_shelf(store, at, now);
    let ghost touched = *store;
    if needs_state {
        make_reading_state(store, book_id, owner, now);
    }
    clear_synced_books(store, owner);
    proof {
        assert(store.shelves@ == touched.shelves@);
        assert(store.links@ == touched.links@);
    }
    Ok(true)
}


/// Puts a book on a user's shelf at the present time, with a new random
/// UUID for a shelf that has to be created. The answer says whether the book
/// came onto the shelf by this call. The store is left as
/// `add_book_to_shelf_core` leaves it for some time and some UUID.
pub fn add_book_to_shelf_in_appdb(
    store: &mut Companion,
    book_id: i64,
    shelf_name: &str,
    username: Option<&str>,
) -> (r: Result<bool, StoreError>)
    ensures
        match owner_of(old(store).users@, name_of(username)) {
            None => r is Err && r->Err_0 is UserNotFound && Some(r->Err_0->UserNotFound_name@)
                == name_of(username) && *final(store) == *old(store),
            Some(owner) => if has_room_for(*old(store), book_id, shelf_name@, owner) {
                r is Ok && exists|uuid: Seq<char>, now: Seq<char>| #[trigger]
                    book_added(
                        *old(store),
                        *final(store),
                        book_id,
                        shelf_name@,
                        owner,
                        uuid,
                        now,
                        r->Ok_0,
                    )
            } else {
                r is Err && r->Err_0 is IdsExhausted && *final(store) == *old(store)
            },
        },
{
    let uuid = new_uuid();
    let now = now_local_micro();
    add_book_to_shelf_core(store, book_id, shelf_name, username, uuid.as_str(), now.as_str())
}

/// Puts a book that the catalog holds already on a user's shelf; the same
/// operation as `add_book_to_shelf_in_appdb`, under the name that the
/// command for it uses.
pub fn add_existing_book_to_shelf(
    store: &mut Companion,
    book_id: i64,
    shelf_name: &str,
    username: Option<&str>,
) -> (r: Result<bool, StoreError>)
    ensures
        match owner_of(old(store).users@, name_of(username)) {
            None => r is Err && r->Err_0 is UserNotFound && Some(r->Err_0->UserNotFound_name@)
                == name_of(username) && *final(store) == *old(store),
            Some(owner) => if has_room_for(*old(store), book_id, shelf_name@, owner) {
                r is Ok && exists|uuid: Seq<char>, now: Seq<char>| #[trigger]
                    book_added(
                        *old(store),
                        *final(store),
                        book_id,
                        shelf_name@,
                        owner,
                        uuid,
                        now,
                        r->Ok_0,
                    )
            } else {
                r is Err && r->Err_0 is IdsExhausted && *final(store) == *old(store)
            },
        },
{
    add_book_to_shelf_in_appdb(store, book_id, shelf_name, username)
}

/// No shelf holds one book twice.
pub open spec fn memberships_unique(links: Seq<ShelfLinkRow>) -> bool {
    forall|i: int, j: int|
        0 <= i < j < links.len() ==> !((#[trigger] links[i]).book_id == (#[trigger] links[j]).book_id
            && links[i].shelf == links[j].shelf)
}

/// The memberships of `book` in `shelf`.
pub open spec fn memberships(links: Seq<ShelfLinkRow>, book: i64, shelf: i64) -> Seq<ShelfLinkRow> {
    links.filter(link_between(book, shelf))
}

proof fn lemma_one_membership(links: Seq<ShelfLinkRow>, book: i64, shelf: i64)
    requires
        memberships_unique(links),
    ensures
        memberships(links, book, shelf).len() <= 1,
        first_where(links, link_between(book, shelf)) < links.len() ==> memberships(
            links,
            book,
            shelf,
        ) == seq![links[first_where(links, link_between(book, shelf))]],
        first_where(links, link_between(book, shelf)) >= links.len() ==> memberships(
            links,
            book,
            shelf,
        ).len() == 0,
    decreases links.len(),
{
    reveal(Seq::filter);
    let p = link_between(book, shelf);
    lemma_first_where(links, p);
    if links.len() > 0 {
        let d = links.drop_last();
        assert forall|i: int, j: int| 0 <= i < j < d.len() implies !((#[trigger] d[i]).book_id == (
        #[trigger] d[j]).book_id && d[i].shelf == d[j].shelf) by {
            assert(d[i] == links[i] && d[j] == links[j]);
        }
        lemma_one_membership(d, book, shelf);
        lemma_first_where(d, p);
        let f = first_where(d, p);
        if f < d.len() {
            assert(d[f] == links[f]);
            assert(links[links.len() - 1] == links.last());
            assert(!p(links.last()));
        } else if p(links.last()) {
            assert(d.filter(p) =~= Seq::<ShelfLinkRow>::empty());
            assert(links.filter(p) =~= seq![links.last()]);
        }
    }
}

/// Adding a book to a shelf, and then adding the same book to the same shelf
/// again, leaves one membership of the book in the shelf, and the second
/// addition changes neither the memberships nor the position: it answers
/// that the book was there.
pub proof fn law_membership_idempotent(
    start: Companion,
    once: Companion,
    twice: Companion,
    book: i64,
    name: Seq<char>,
    owner: i64,
    uuid_1: Seq<char>,
    now_1: Seq<char>,
    newly_1: bool,
    uuid_2: Seq<char>,
    now_2: Seq<char>,
    newly_2: bool,
)
    requires
        memberships_unique(start.links@),
        book_added(start, once, book, name, owner, uuid_1, now_1, newly_1),
        book_added(once, twice, book, name, owner, uuid_2, now_2, newly_2),
    ensures
        !newly_2,
        twice.links == once.links,
        ensured_shelf_id(once, name, owner) == ensured_shelf_id(start, name, owner),
        memberships(twice.links@, book, ensured_shelf_id(start, name, owner) as i64).len() == 1,
        memberships_unique(twice.links@),
{
    let p = shelf_named(name, owner);
    let shelf = ensured_shelf_id(start, name, owner) as i64;
    lemma_first_where(start.shelves@, p);
    lemma_first_where(once.shelves@, p);
    lemma_largest_key_bounds(start.shelves@);
    let i = first_where(start.shelves@, p);
    assert(p(once.shelves@[i]));
    assert forall|j: int| 0 <= j < i implies !p(#[trigger] once.shelves@[j]) by {
        assert(once.shelves@[j] == start.shelves@[j]);
    }
    assert(first_where(once.shelves@, p) == i);
    let q = link_between(book, shelf);
    lemma_first_where(start.links@, q);
    lemma_first_where(once.links@, q);
    lemma_one_membership(start.links@, book, shelf);
    if newly_1 {
        assert(q(once.links@.last()));
        assert(once.links@[once.links@.len() - 1] == once.links@.last());
        assert forall|a: int, b: int| 0 <= a < b < once.links@.len() implies !((
        #[trigger] once.links@[a]).book_id == (#[trigger] once.links@[b]).book_id
            && once.links@[a].shelf == once.links@[b].shelf) by {
            assert(once.links@[a] == once.links@.drop_last()[a]);
            if b < start.links@.len() {
                assert(once.links@[b] == once.links@.drop_last()[b]);
            } else {
                assert(!q(start.links@[a]));
            }
        }
    }
    lemma_one_membership(once.links@, book, shelf);
}

/// A book that comes onto a shelf takes the position after the largest of
/// the shelf, and 1 on an empty shelf: a position above that of every book
/// that the shelf holds, so that positions grow in the order of insertion.
/// The memberships that were there keep their rows.
pub proof fn law_positions_increase(
    start: Companion,
    after: Companion,
    book: i64,
    name: Seq<char>,
    owner: i64,
    uuid: Seq<char>,
    now: Seq<char>,
)
    requires
        book_added(start, after, book, name, owner, uuid, now, true),
    ensures
        after.links@.len() == start.links@.len() + 1,
        after.links@.last().shelf == ensured_shelf_id(start, name, owner),
        after.links@.last().book_id == book,
        after.links@.last().order == next_position(start.links@, after.links@.last().shelf),
        top_position(start.links@, after.links@.last().shelf) is None
            ==> after.links@.last().order == 1,
        forall|i: int|
            0 <= i < start.links@.len() ==> #[trigger] after.links@[i] == start.links@[i],
        forall|i: int|
            0 <= i < start.links@.len() && (#[trigger] start.links@[i]).shelf
                == after.links@.last().shelf ==> start.links@[i].order
                < after.links@.last().order,
{
    let shelf = ensured_shelf_id(start, name, owner) as i64;
    lemma_top_position(start.links@, shelf);
    assert forall|i: int| 0 <= i < start.links@.len() implies #[trigger] after.links@[i]
        == start.links@[i] by {
        assert(after.links@.drop_last()[i] == after.links@[i]);
    }
}


/// No user has two shelves of one name.
pub open spec fn shelf_names_differ(shelves: Seq<ShelfRow>) -> bool {
    forall|i: int, j: int|
        0 <= i < j < shelves.len() ==> !((#[trigger] shelves[i]).name@ == (#[trigger] shelves[j]).name@
            && shelves[i].user_id == shelves[j].user_id)
}

/// The current bookmark of every reading state that has one is a bookmark
/// of that reading state.
pub open spec fn bookmarks_point_home(store: Companion) -> bool {
    forall|i: int|
        0 <= i < store.reading_states@.len() && (#[trigger] store.reading_states@[i]).current_bookmark is Some
            ==> exists|k: int|
            0 <= k < store.bookmarks@.len() && (#[trigger] store.bookmarks@[k]).id
                == store.reading_states@[i].current_bookmark->0
                && store.bookmarks@[k].reading_state_id == store.reading_states@[i].id
}

/// An addition keeps what holds of a sound store: no user gets two shelves
/// of one name, no shelf holds a book twice, and every reading state that
/// points at a bookmark points at one of its own.
pub proof fn law_addition_keeps_the_store_sound(
    pre: Companion,
    post: Companion,
    book: i64,
    name: Seq<char>,
    owner: i64,
    uuid: Seq<char>,
    now: Seq<char>,
    newly: bool,
)
    requires
        book_added(pre, post, book, name, owner, uuid, now, newly),
        shelf_names_differ(pre.shelves@),
        memberships_unique(pre.links@),
        bookmarks_point_home(pre),
    ensures
        shelf_names_differ(post.shelves@),
        memberships_unique(post.links@),
        bookmarks_point_home(post),
{
    let p = shelf_named(name, owner);
    lemma_first_where(pre.shelves@, p);
    let at = first_where(pre.shelves@, p);
    assert forall|i: int, j: int| 0 <= i < j < post.shelves@.len() implies !((
    #[trigger] post.shelves@[i]).name@ == (#[trigger] post.shelves@[j]).name@
        && post.shelves@[i].user_id == post.shelves@[j].user_id) by {
        assert(i < pre.shelves@.len());
        assert(post.shelves@[i].name@ == pre.shelves@[i].name@ && post.shelves@[i].user_id
            == pre.shelves@[i].user_id) by {
            if i == at && newly {
                assert(is_touched(post.shelves@[i], pre.shelves@[i], now));
            }
        }
        if j < pre.shelves@.len() {
            assert(post.shelves@[j].name@ == pre.shelves@[j].name@ && post.shelves@[j].user_id
                == pre.shelves@[j].user_id) by {
                if j == at && newly {
                    assert(is_touched(post.shelves@[j], pre.shelves@[j], now));
                }
            }
        } else {
            assert(!p(pre.shelves@[i]));
        }
    }
    let shelf = ensured_shelf_id(pre, name, owner) as i64;
    let q = link_between(book, shelf);
    lemma_first_where(pre.links@, q);
    if newly {
        assert forall|a: int, b: int| 0 <= a < b < post.links@.len() implies !((
        #[trigger] post.links@[a]).book_id == (#[trigger] post.links@[b]).book_id
            && post.links@[a].shelf == post.links@[b].shelf) by {
            assert(post.links@[a] == post.links@.drop_last()[a]);
            if b < pre.links@.len() {
                assert(post.links@[b] == post.links@.drop_last()[b]);
            } else {
                assert(!q(pre.links@[a]));
            }
        }
        assert forall|i: int|
            0 <= i < post.reading_states@.len() && (
            #[trigger] post.reading_states@[i]).current_bookmark is Some implies exists|k: int|
            0 <= k < post.bookmarks@.len() && (#[trigger] post.bookmarks@[k]).id
                == post.reading_states@[i].current_bookmark->0
                && post.bookmarks@[k].reading_state_id == post.reading_states@[i].id by {
            if post.reading_states@.len() == pre.reading_states@.len() {
                assert(post.reading_states == pre.reading_states);
                assert(post.bookmarks == pre.bookmarks);
            } else if i < pre.reading_states@.len() {
                assert(post.reading_states@[i] == post.reading_states@.drop_last()[i]);
                let k = choose|k: int|
                    0 <= k < pre.bookmarks@.len() && (#[trigger] pre.bookmarks@[k]).id
                        == pre.reading_states@[i].current_bookmark->0
                        && pre.bookmarks@[k].reading_state_id == pre.reading_states@[i].id;
                assert(post.bookmarks@[k] == post.bookmarks@.drop_last()[k]);
            } else {
                let k = post.bookmarks@.len() - 1;
                assert(post.bookmarks@[k] == post.bookmarks@.last());
            }
        }
    }
}


/// A book that is on the owner's shelf already stays as it is: the addition
/// needs no room, answers that the book was there, and leaves every table
/// as it was, the position and the time of the membership among them.
pub proof fn law_book_on_shelf_stays(
    pre: Companion,
    post: Companion,
    book: i64,
    name: Seq<char>,
    owner: i64,
    uuid: Seq<char>,
    now: Seq<char>,
    newly: bool,
)
    requires
        first_where(pre.shelves@, shelf_named(name, owner)) < pre.shelves@.len(),
        first_where(
            pre.links@,
            link_between(book, ensured_shelf_id(pre, name, owner) as i64),
        ) < pre.links@.len(),
        book_added(pre, post, book, name, owner, uuid, now, newly),
    ensures
        has_room_for(pre, book, name, owner),
        !newly,
        post.users == pre.users,
        post.shelves@ == pre.shelves@,
        post.links == pre.links,
        post.synced_books == pre.synced_books,
        post.reading_states == pre.reading_states,
        post.bookmarks == pre.bookmarks,
        post.statistics == pre.statistics,
        post.downloads == pre.downloads,
        post.archived_books == pre.archived_books,
{
    assert(post.shelves@ =~= pre.shelves@);
}

/// After an addition the owner has one shelf of the name, wherever no user
/// had two shelves of one name before.
pub proof fn law_one_shelf_of_a_name(
    pre: Companion,
    post: Companion,
    book: i64,
    name: Seq<char>,
    owner: i64,
    uuid: Seq<char>,
    now: Seq<char>,
    newly: bool,
)
    requires
        shelf_names_differ(pre.shelves@),
        book_added(pre, post, book, name, owner, uuid, now, newly),
    ensures
        post.shelves@.filter(shelf_named(name, owner)).len() == 1,
{
    let p = shelf_named(name, owner);
    let s = post.shelves@;
    lemma_first_where(pre.shelves@, p);
    lemma_first_where(s, p);
    let at = first_where(pre.shelves@, p);
    assert forall|j: int| 0 <= j < pre.shelves@.len() implies (#[trigger] s[j]).name@
        == pre.shelves@[j].name@ && s[j].user_id == pre.shelves@[j].user_id by {
        if j == at && newly {
            assert(is_touched(s[j], pre.shelves@[j], now));
        }
    }
    assert(p(s[at]));
    assert forall|i: int, j: int| 0 <= i < j < s.len() implies !(p(#[trigger] s[i]) && p(
        #[trigger] s[j],
    )) by {
        if j < pre.shelves@.len() {
            assert(p(s[i]) == p(pre.shelves@[i]));
            assert(p(s[j]) == p(pre.shelves@[j]));
        } else {
            assert(p(s[i]) == p(pre.shelves@[i]));
        }
    }
    crate::rows::lemma_single_match(s, p);
}

} // verus!
