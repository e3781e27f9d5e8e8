//! The orphan pass of the consistency sweep: what has lost its parent, or
//! its files, goes.
use vstd::prelude::*;
use vstd::string::*;
use crate::catalog::{AttributeRow, BookLinkRow, BookRow, Catalog, DirtiedRow, EntityRow};
use crate::companion::{
    BookmarkRow, Companion, ReadingStateRow, ShelfLinkRow, ShelfRow, StatisticsRow,
};
use crate::outside::now_local_micro;
use crate::rows::{
    book_is_among, drop_rows_of_books, first_where, lemma_first_where,
    drop_rows_of_missing_books, holds, ids_of, keep_marked, drop_rows_of_states, keys,
    keys_of_unmarked, lemma_filter_keeps_all, lemma_filter_members, lemma_filter_twice,
    BookRef, StateRef,
};

use crate::paths::{components, is_absolute, is_among_paths, path_key, same_key, same_path, PathKey};
use crate::shelves::shelf_with_id;
use crate::text::views;
use crate::times::{lemma_times_settled, misses_a_time, stamp_all, times_repaired};
use crate::times::Stamped;

verus! {

/// The texts of `v`, in order.
pub open spec fn texts(v: Seq<String>) -> Seq<Seq<char>> {
    Seq::new(v.len(), |i: int| v[i]@)
}

/// The test that a book's directory is, by its components, one of `dirs`.
pub open spec fn has_directory(dirs: Seq<Seq<char>>) -> spec_fn(BookRow) -> bool {
    |b: BookRow| is_among_paths(dirs, b.path@)
}

/// True when `id` is the id of a book of `books` whose directory is none of
/// `dirs`.
pub open spec fn is_orphan(books: Seq<BookRow>, dirs: Seq<Seq<char>>, id: i64) -> bool {
    exists|i: int| 0 <= i < books.len() && (#[trigger] books[i]).id == id && !is_among_paths(dirs, books[i].path@)
}

/// The test that a row hangs on no orphaned book.
pub open spec fn not_orphaned<T: BookRef>(books: Seq<BookRow>, dirs: Seq<Seq<char>>) -> spec_fn(
    T,
) -> bool {
    |row: T| !is_orphan(books, dirs, row.book())
}

/// The test that a link leads to the entity.
pub open spec fn is_linked(links: Seq<BookLinkRow>) -> spec_fn(EntityRow) -> bool {
    |e: EntityRow| exists|i: int| 0 <= i < links.len() && (#[trigger] links[i]).item == e.id
}

/// How many rows the orphan pass took out of the catalog.
#[derive(Debug, Clone, Copy, PartialEq, Eq, Structural)]
pub struct CatalogSweepReport {
    pub books: usize,
    pub dependent_rows: u128,
    pub authors: usize,
    pub publishers: usize,
    pub series: usize,
    pub tags: usize,
}

/// What the orphan pass leaves of the catalog: the books whose directory
/// holds content, the dependent rows of no orphaned book, and the authors,
/// publishers, series and tags that a link still leads to.
pub open spec fn catalog_swept(pre: Catalog, post: Catalog, dirs: Seq<Seq<char>>) -> bool {
    let b = pre.books@;
    &&& post.languages == pre.languages
    &&& post.books@ == b.filter(has_directory(dirs))
    &&& post.books_authors_link@ == pre.books_authors_link@.filter(not_orphaned(b, dirs))
    &&& post.books_publishers_link@ == pre.books_publishers_link@.filter(not_orphaned(b, dirs))
    &&& post.books_series_link@ == pre.books_series_link@.filter(not_orphaned(b, dirs))
    &&& post.books_tags_link@ == pre.books_tags_link@.filter(not_orphaned(b, dirs))
    &&& post.books_languages_link@ == pre.books_languages_link@.filter(not_orphaned(b, dirs))
    &&& post.books_ratings_link@ == pre.books_ratings_link@.filter(not_orphaned(b, dirs))
    &&& post.comments@ == pre.comments@.filter(not_orphaned(b, dirs))
    &&& post.identifiers@ == pre.identifiers@.filter(not_orphaned(b, dirs))
    &&& post.data@ == pre.data@.filter(not_orphaned(b, dirs))
    &&& post.metadata_dirtied@ == pre.metadata_dirtied@.filter(not_orphaned(b, dirs))
    &&& post.annotations_dirtied@ == pre.annotations_dirtied@.filter(not_orphaned(b, dirs))
    &&& post.authors@ == pre.authors@.filter(is_linked(post.books_authors_link@))
    &&& post.publishers@ == pre.publishers@.filter(is_linked(post.books_publishers_link@))
    &&& post.series@ == pre.series@.filter(is_linked(post.books_series_link@))
    &&& post.tags@ == pre.tags@.filter(is_linked(post.books_tags_link@))
}

/// The counts that belong to a pass from `pre` to `post`.
pub open spec fn catalog_report(pre: Catalog, post: Catalog) -> CatalogSweepReport {
    CatalogSweepReport {
        books: (pre.books@.len() - post.books@.len()) as usize,
        dependent_rows: (dependent_rows(pre) - dependent_rows(post)) as u128,
        authors: (pre.authors@.len() - post.authors@.len()) as usize,
        publishers: (pre.publishers@.len() - post.publishers@.len()) as usize,
        series: (pre.series@.len() - post.series@.len()) as usize,
        tags: (pre.tags@.len() - post.tags@.len()) as usize,
    }
}

/// The number of rows that hang on books.
pub open spec fn dependent_rows(c: Catalog) -> nat {
    c.books_authors_link@.len() + c.books_publishers_link@.len() + c.books_series_link@.len()
        + c.books_tags_link@.len() + c.books_languages_link@.len() + c.books_ratings_link@.len()
        + c.comments@.len() + c.identifiers@.len() + c.data@.len() + c.metadata_dirtied@.len()
        + c.annotations_dirtied@.len()
}

/// The keys of the directories, one for each.
pub open spec fn are_keys_of(keys: Seq<PathKey>, dirs: Seq<Seq<char>>) -> bool {
    &&& keys.len() == dirs.len()
    &&& forall|i: int|
        0 <= i < keys.len() ==> (#[trigger] keys[i]).absolute == is_absolute(dirs[i]) && views(
            keys[i].parts@,
        ) == components(dirs[i])
}

fn keys_of_dirs(dirs: &Vec<String>) -> (keys: Vec<PathKey>)
    ensures
        are_keys_of(keys@, texts(dirs@)),
{
    let mut keys: Vec<PathKey> = Vec::new();
    let mut i: usize = 0;
    while i < dirs.len()
        invariant
            i <= dirs@.len(),
            keys@.len() == i,
            forall|j: int|
                0 <= j < i ==> (#[trigger] keys@[j]).absolute == is_absolute(texts(dirs@)[j])
                    && views(keys@[j].parts@) == components(texts(dirs@)[j]),
        decreases dirs@.len() - i,
    {
        keys.push(path_key(dirs[i].as_str()));
        i += 1;
    }
    keys
}

fn is_one_of(keys: &Vec<PathKey>, Ghost(dirs): Ghost<Seq<Seq<char>>>, path: &String) -> (r: bool)
    requires
        are_keys_of(keys@, dirs),
    ensures
        r == is_among_paths(dirs, path@),
{
    let key = path_key(path.as_str());
    let mut i: usize = 0;
    while i < keys.len()
        invariant
            i <= keys@.len(),
            are_keys_of(keys@, dirs),
            key.absolute == is_absolute(path@),
            views(key.parts@) == components(path@),
            forall|j: int| 0 <= j < i ==> !same_path(#[trigger] dirs[j], path@),
        decreases keys@.len() - i,
    {
        if same_key(&keys[i], &key) {
            proof {
                assert(same_path(dirs[i as int], path@));
            }
            return true;
        }
        i += 1;
    }
    false
}

fn drop_books_without_directory(books: &mut Vec<BookRow>, dirs: &Vec<String>) -> (gone: Vec<i64>)
    ensures
        final(books)@ == old(books)@.filter(has_directory(texts(dirs@))),
        forall|id: i64| gone@.contains(id) <==> is_orphan(old(books)@, texts(dirs@), id),
        final(books)@.len() <= old(books)@.len(),
{
    let n: usize = books.len();
    let keys = keys_of_dirs(dirs);
    let mut marks: Vec<bool> = Vec::new();
    let mut gone: Vec<i64> = Vec::new();
    let mut i: usize = 0;
    while i < n
        invariant
            i <= n == books@.len(),
            books@ == old(books)@,
            are_keys_of(keys@, texts(dirs@)),
            marks@.len() == i,
            forall|j: int|
                0 <= j < i ==> marks@[j] == has_directory(texts(dirs@))(#[trigger] books@[j]),
            forall|id: i64|
                gone@.contains(id) <==> is_orphan(books@.take(i as int), texts(dirs@), id),
        decreases n - i,
    {
        let kept = is_one_of(&keys, Ghost(texts(dirs@)), &books[i].path);
        marks.push(kept);
        let ghost before = gone@;
        if !kept {
            gone.push(books[i].id);
        }
        proof {
            let d = texts(dirs@);
            let now = books@.take(i + 1);
            let was = books@.take(i as int);
            assert forall|id: i64| gone@.contains(id) <==> is_orphan(now, d, id) by {
                if gone@.contains(id) {
                    if before.contains(id) {
                        let k = choose|k: int|
                            0 <= k < was.len() && (#[trigger] was[k]).id == id && !is_among_paths(d, was[k].path@);
                        assert(now[k] == was[k]);
                    } else {
                        let k = choose|k: int| 0 <= k < gone@.len() && gone@[k] == id;
                        if k < before.len() {
                            assert(before[k] == id);
                        }
                        assert(now[i as int].id == id);
                    }
                }
                if is_orphan(now, d, id) {
                    let k = choose|k: int|
                        0 <= k < now.len() && (#[trigger] now[k]).id == id && !is_among_paths(d, now[k].path@);
                    if k < i {
                        assert(was[k] == now[k]);
                        assert(before.contains(id));
                        let m = choose|m: int| 0 <= m < before.len() && before[m] == id;
                        assert(gone@[m] == id);
                    } else {
                        assert(gone@[gone@.len() - 1] == id);
                    }
                }
            }
        }
        i += 1;
    }
    proof {
        assert(books@.take(n as int) =~= books@);
        lemma_filter_members(books@, has_directory(texts(dirs@)));
    }
    keep_marked(books, &marks, Ghost(has_directory(texts(dirs@))));
    gone
}

fn has_link_to(links: &Vec<BookLinkRow>, item: i64) -> (r: bool)
    ensures
        r == exists|i: int| 0 <= i < links@.len() && (#[trigger] links@[i]).item == item,
{
    let mut i: usize = 0;
    while i < links.len()
        invariant
            i <= links@.len(),
            forall|j: int| 0 <= j < i ==> (#[trigger] links@[j]).item != item,
        decreases links@.len() - i,
    {
        if links[i].item == item {
            return true;
        }
        i += 1;
    }
    false
}

/// Removes the entities that no link leads to, and says how many left.
pub fn drop_unlinked(entities: &mut Vec<EntityRow>, links: &Vec<BookLinkRow>) -> (removed: usize)
    ensures
        final(entities)@ == old(entities)@.filter(is_linked(links@)),
        removed == old(entities)@.len() - final(entities)@.len(),
{
    let n: usize = entities.len();
    let mut marks: Vec<bool> = Vec::new();
    let mut i: usize = 0;
    while i < n
        invariant
            i <= n == entities@.len(),
            entities@ == old(entities)@,
            marks@.len() == i,
            forall|j: int| 0 <= j < i ==> marks@[j] == is_linked(links@)(#[trigger] entities@[j]),
        decreases n - i,
    {
        marks.push(has_link_to(links, entities[i].id));
        i += 1;
    }
    keep_marked(entities, &marks, Ghost(is_linked(links@)));
    proof {
        lemma_filter_members(old(entities)@, is_linked(links@));
    }
    n - entities.len()
}

/// The orphan pass over the catalog. `book_dirs` are the directories of the
/// library tree that hold a book file. A book whose directory is not among
/// them goes, its dependent rows first; then the authors, publishers, series
/// and tags that no book is linked to any more.
pub fn sweep_catalog(catalog: &mut Catalog, book_dirs: &Vec<String>) -> (report: CatalogSweepReport)
    ensures
        catalog_swept(*old(catalog), *final(catalog), texts(book_dirs@)),
        report == catalog_report(*old(catalog), *final(catalog)),
{
    let ghost b = catalog.books@;
    let ghost d = texts(book_dirs@);
    let before: usize = catalog.books.len();
    let gone = drop_books_without_directory(&mut catalog.books, book_dirs);
    let a = drop_rows_of_books(
        &mut catalog.books_authors_link,
        &gone,
        Ghost(not_orphaned::<BookLinkRow>(b, d)),
    );
    let p = drop_rows_of_books(
        &mut catalog.books_publishers_link,
        &gone,
        Ghost(not_orphaned::<BookLinkRow>(b, d)),
    );
    let s = drop_rows_of_books(
        &mut catalog.books_series_link,
        &gone,
        Ghost(not_orphaned::<BookLinkRow>(b, d)),
    );
    let t = drop_rows_of_books(
        &mut catalog.books_tags_link,
        &gone,
        Ghost(not_orphaned::<BookLinkRow>(b, d)),
    );
    let l = drop_rows_of_books(
        &mut catalog.books_languages_link,
        &gone,
        Ghost(not_orphaned::<BookLinkRow>(b, d)),
    );
    let r = drop_rows_of_books(
        &mut catalog.books_ratings_link,
        &gone,
        Ghost(not_orphaned::<BookLinkRow>(b, d)),
    );
    let c = drop_rows_of_books(&mut catalog.comments, &gone, Ghost(not_orphaned::<AttributeRow>(b, d)));
    let i = drop_rows_of_books(
        &mut catalog.identifiers,
        &gone,
        Ghost(not_orphaned::<AttributeRow>(b, d)),
    );
    let f = drop_rows_of_books(&mut catalog.data, &gone, Ghost(not_orphaned::<AttributeRow>(b, d)));
    let m = drop_rows_of_books(
        &mut catalog.metadata_dirtied,
        &gone,
        Ghost(not_orphaned::<DirtiedRow>(b, d)),
    );
    let n = drop_rows_of_books(
        &mut catalog.annotations_dirtied,
        &gone,
        Ghost(not_orphaned::<DirtiedRow>(b, d)),
    );
    let authors = drop_unlinked(&mut catalog.authors, &catalog.books_authors_link);
    let publishers = drop_unlinked(&mut catalog.publishers, &catalog.books_publishers_link);
    let series = drop_unlinked(&mut catalog.series, &catalog.books_series_link);
    let tags = drop_unlinked(&mut catalog.tags, &catalog.books_tags_link);
    let dependent_rows: u128 = count_sum(a, p, s, t, l, r, c, i, f) + m as u128 + n as u128;
    CatalogSweepReport {
        books: before - catalog.books.len(),
        dependent_rows,
        authors,
        publishers,
        series,
        tags,
    }
}

fn count_sum(
    a: usize,
    b: usize,
    c: usize,
    d: usize,
    e: usize,
    f: usize,
    g: usize,
    h: usize,
    i: usize,
) -> (r: u128)
    ensures
        r == a + b + c + d + e + f + g + h + i,
{
    a as u128 + b as u128 + c as u128 + d as u128 + e as u128 + f as u128 + g as u128 + h as u128
        + i as u128
}


/// True when `id` is the id of a reading state whose book is none of
/// `valid`.
pub open spec fn is_doomed_state(states: Seq<ReadingStateRow>, valid: Seq<i64>, id: i64) -> bool {
    exists|i: int|
        0 <= i < states.len() && (#[trigger] states[i]).id == id && !valid.contains(
            states[i].book_id,
        )
}

/// The test that a row belongs to no reading state that has lost its book.
pub open spec fn state_stays<T: StateRef>(states: Seq<ReadingStateRow>, valid: Seq<i64>) -> spec_fn(
    T,
) -> bool {
    |row: T| !is_doomed_state(states, valid, row.state())
}

/// The test that a shelf holds a book.
pub open spec fn has_member(links: Seq<ShelfLinkRow>) -> spec_fn(ShelfRow) -> bool {
    |s: ShelfRow| exists|i: int| 0 <= i < links.len() && (#[trigger] links[i]).shelf == s.id
}

/// How many rows the orphan pass took out of the companion store.
#[derive(Debug, Clone, Copy, PartialEq, Eq, Structural)]
pub struct CompanionSweepReport {
    pub downloads: usize,
    pub archived_books: usize,
    pub bookmarks: usize,
    pub statistics: usize,
    pub reading_states: usize,
    pub synced_books: usize,
    pub links: usize,
    pub shelves: usize,
}

/// What the orphan pass leaves of the companion store, given the ids of the
/// books that the catalog holds: the rows that refer to one of them, the
/// bookmarks and statistics of the reading states that stay, and the shelves
/// that still hold a book.
pub open spec fn companion_swept(pre: Companion, post: Companion, valid: Seq<i64>) -> bool {
    &&& post.users@ == pre.users@
    &&& post.downloads@ == pre.downloads@.filter(book_is_among(valid))
    &&& post.archived_books@ == pre.archived_books@.filter(book_is_among(valid))
    &&& post.bookmarks@ == pre.bookmarks@.filter(state_stays(pre.reading_states@, valid))
    &&& post.statistics@ == pre.statistics@.filter(state_stays(pre.reading_states@, valid))
    &&& post.reading_states@ == pre.reading_states@.filter(book_is_among(valid))
    &&& post.synced_books@ == pre.synced_books@.filter(book_is_among(valid))
    &&& post.links@ == pre.links@.filter(book_is_among(valid))
    &&& post.shelves@ == pre.shelves@.filter(has_member(post.links@))
}

/// The counts that belong to a pass from `pre` to `post`.
pub open spec fn companion_report(pre: Companion, post: Companion) -> CompanionSweepReport {
    CompanionSweepReport {
        downloads: (pre.downloads@.len() - post.downloads@.len()) as usize,
        archived_books: (pre.archived_books@.len() - post.archived_books@.len()) as usize,
        bookmarks: (pre.bookmarks@.len() - post.bookmarks@.len()) as usize,
        statistics: (pre.statistics@.len() - post.statistics@.len()) as usize,
        reading_states: (pre.reading_states@.len() - post.reading_states@.len()) as usize,
        synced_books: (pre.synced_books@.len() - post.synced_books@.len()) as usize,
        links: (pre.links@.len() - post.links@.len()) as usize,
        shelves: (pre.shelves@.len() - post.shelves@.len()) as usize,
    }
}

fn has_link_in(links: &Vec<ShelfLinkRow>, shelf: i64) -> (r: bool)
    ensures
        r == exists|i: int| 0 <= i < links@.len() && (#[trigger] links@[i]).shelf == shelf,
{
    let mut i: usize = 0;
    while i < links.len()
        invariant
            i <= links@.len(),
            forall|j: int| 0 <= j < i ==> (#[trigger] links@[j]).shelf != shelf,
        decreases links@.len() - i,
    {
        if links[i].shelf == shelf {
            return true;
        }
        i += 1;
    }
    false
}

/// Removes the shelves that hold no book, and says how many left.
pub fn drop_empty_shelves(store: &mut Companion) -> (removed: usize)
    ensures
        *final(store) == (Companion { shelves: final(store).shelves, ..*old(store) }),
        final(store).shelves@ == old(store).shelves@.filter(has_member(old(store).links@)),
        removed == old(store).shelves@.len() - final(store).shelves@.len(),
{
    let n: usize = store.shelves.len();
    let mut marks: Vec<bool> = Vec::new();
    let mut i: usize = 0;
    while i < n
        invariant
            i <= n == store.shelves@.len(),
            *store == *old(store),
            marks@.len() == i,
            forall|j: int|
                0 <= j < i ==> marks@[j] == has_member(store.links@)(#[trigger] store.shelves@[j]),
        decreases n - i,
    {
        marks.push(has_link_in(&store.links, store.shelves[i].id));
        i += 1;
    }
    keep_marked(&mut store.shelves, &marks, Ghost(has_member(store.links@)));
    proof {
        lemma_filter_members(old(store).shelves@, has_member(old(store).links@));
    }
    n - store.shelves.len()
}

fn doomed_states(states: &Vec<ReadingStateRow>, valid: &Vec<i64>) -> (r: Vec<i64>)
    ensures
        forall|id: i64| r@.contains(id) <==> is_doomed_state(states@, valid@, id),
{
    let mut marks: Vec<bool> = Vec::new();
    let mut i: usize = 0;
    while i < states.len()
        invariant
            i <= states@.len(),
            marks@.len() == i,
            forall|j: int| 0 <= j < i ==> marks@[j] == valid@.contains((#[trigger] states@[j]).book_id),
        decreases states@.len() - i,
    {
        marks.push(holds(valid, states[i].book_id));
        i += 1;
    }
    keys_of_unmarked(states, &marks)
}

/// The orphan pass over the companion store. `valid_books` are the ids of
/// the books that the catalog holds. What refers to another book goes, the
/// leaves first: downloads and archived books, the bookmarks and statistics
/// of reading states that go, those reading states, what devices
/// acknowledged, the memberships, and last the shelves that are left empty.
pub fn sweep_companion(store: &mut Companion, valid_books: &Vec<i64>) -> (report:
    CompanionSweepReport)
    ensures
        companion_swept(*old(store), *final(store), valid_books@),
        report == companion_report(*old(store), *final(store)),
{
    let ghost states = store.reading_states@;
    let downloads = drop_rows_of_missing_books(&mut store.downloads, valid_books);
    let archived_books = drop_rows_of_missing_books(&mut store.archived_books, valid_books);
    let doomed = doomed_states(&store.reading_states, valid_books);
    let bookmarks = drop_rows_of_states(
        &mut store.bookmarks,
        &doomed,
        Ghost(state_stays::<BookmarkRow>(states, valid_books@)),
    );
    let statistics = drop_rows_of_states(
        &mut store.statistics,
        &doomed,
        Ghost(state_stays::<StatisticsRow>(states, valid_books@)),
    );
    let reading_states = drop_rows_of_missing_books(&mut store.reading_states, valid_books);
    let synced_books = drop_rows_of_missing_books(&mut store.synced_books, valid_books);
    let links = drop_rows_of_missing_books(&mut store.links, valid_books);
    let shelves = drop_empty_shelves(store);
    CompanionSweepReport {
        downloads,
        archived_books,
        bookmarks,
        statistics,
        reading_states,
        synced_books,
        links,
        shelves,
    }
}


/// True when a book of `books` has the id.
pub open spec fn has_book(books: Seq<BookRow>, id: i64) -> bool {
    exists|k: int| 0 <= k < books.len() && (#[trigger] books[k]).id == id
}

/// Every row of `rows` refers to a book of `books`.
pub open spec fn refer_to_books<T: BookRef>(rows: Seq<T>, books: Seq<BookRow>) -> bool {
    forall|i: int| 0 <= i < rows.len() ==> has_book(books, (#[trigger] rows[i]).book())
}

/// Every dependent row of the catalog refers to a book that the catalog
/// holds.
pub open spec fn dependents_have_books(c: Catalog) -> bool {
    &&& refer_to_books(c.books_authors_link@, c.books@)
    &&& refer_to_books(c.books_publishers_link@, c.books@)
    &&& refer_to_books(c.books_series_link@, c.books@)
    &&& refer_to_books(c.books_tags_link@, c.books@)
    &&& refer_to_books(c.books_languages_link@, c.books@)
    &&& refer_to_books(c.books_ratings_link@, c.books@)
    &&& refer_to_books(c.comments@, c.books@)
    &&& refer_to_books(c.identifiers@, c.books@)
    &&& refer_to_books(c.data@, c.books@)
    &&& refer_to_books(c.metadata_dirtied@, c.books@)
    &&& refer_to_books(c.annotations_dirtied@, c.books@)
}

/// The dependent rows that stay after the orphan pass refer to books that
/// stay, where each referred to a book before.
pub proof fn lemma_dependents_keep_their_book<T: BookRef>(
    rows: Seq<T>,
    books: Seq<BookRow>,
    dirs: Seq<Seq<char>>,
)
    requires
        refer_to_books(rows, books),
    ensures
        refer_to_books(rows.filter(not_orphaned(books, dirs)), books.filter(has_directory(dirs))),
{
    let kept = rows.filter(not_orphaned(books, dirs));
    let left = books.filter(has_directory(dirs));
    lemma_filter_members(rows, not_orphaned(books, dirs));
    lemma_filter_members(books, has_directory(dirs));
    assert forall|i: int| 0 <= i < kept.len() implies has_book(left, (#[trigger] kept[i]).book()) by {
        assert(not_orphaned::<T>(books, dirs)(kept[i]));
        assert(rows.contains(kept[i]));
        let j = choose|j: int| 0 <= j < rows.len() && rows[j] == kept[i];
        assert(has_book(books, rows[j].book()));
        let k = choose|k: int| 0 <= k < books.len() && (#[trigger] books[k]).id == rows[j].book();
        assert(has_directory(dirs)(books[k]));
        assert(left.contains(books[k]));
        let m = choose|m: int| 0 <= m < left.len() && left[m] == books[k];
        assert(left[m].id == kept[i].book());
    }
}

/// After the orphan pass every book of the catalog has a directory that
/// holds content, and every dependent row refers to a book of the
/// catalog, provided that each did before the pass.
pub proof fn law_catalog_sweep_is_complete(pre: Catalog, post: Catalog, dirs: Seq<Seq<char>>)
    requires
        catalog_swept(pre, post, dirs),
        dependents_have_books(pre),
    ensures
        forall|i: int| 0 <= i < post.books@.len() ==> is_among_paths(dirs, (#[trigger] post.books@[i]).path@),
        dependents_have_books(post),
{
    lemma_filter_members(pre.books@, has_directory(dirs));
    assert forall|i: int| 0 <= i < post.books@.len() implies is_among_paths(dirs, (#[trigger] post.books@[i]).path@) by {
        assert(has_directory(dirs)(post.books@[i]));
    }
    lemma_dependents_keep_their_book(pre.books_authors_link@, pre.books@, dirs);
    lemma_dependents_keep_their_book(pre.books_publishers_link@, pre.books@, dirs);
    lemma_dependents_keep_their_book(pre.books_series_link@, pre.books@, dirs);
    lemma_dependents_keep_their_book(pre.books_tags_link@, pre.books@, dirs);
    lemma_dependents_keep_their_book(pre.books_languages_link@, pre.books@, dirs);
    lemma_dependents_keep_their_book(pre.books_ratings_link@, pre.books@, dirs);
    lemma_dependents_keep_their_book(pre.comments@, pre.books@, dirs);
    lemma_dependents_keep_their_book(pre.identifiers@, pre.books@, dirs);
    lemma_dependents_keep_their_book(pre.data@, pre.books@, dirs);
    lemma_dependents_keep_their_book(pre.metadata_dirtied@, pre.books@, dirs);
    lemma_dependents_keep_their_book(pre.annotations_dirtied@, pre.books@, dirs);
}

/// Once the books without a directory are gone, no row hangs on an
/// orphaned book.
pub proof fn lemma_no_orphans_left<T: BookRef>(
    rows: Seq<T>,
    books: Seq<BookRow>,
    dirs: Seq<Seq<char>>,
)
    ensures
        rows.filter(not_orphaned(books.filter(has_directory(dirs)), dirs)) == rows,
{
    let left = books.filter(has_directory(dirs));
    lemma_filter_members(books, has_directory(dirs));
    assert forall|i: int| 0 <= i < rows.len() implies not_orphaned::<T>(left, dirs)(
        #[trigger] rows[i],
    ) by {
        if is_orphan(left, dirs, rows[i].book()) {
            let k = choose|k: int|
                0 <= k < left.len() && (#[trigger] left[k]).id == rows[i].book() && !is_among_paths(dirs, left[k].path@);
            assert(has_directory(dirs)(left[k]));
        }
    }
    lemma_filter_keeps_all(rows, not_orphaned(left, dirs));
}

/// The orphan pass over the catalog, run a second time on what the first
/// left, removes nothing: every table stays and every count is zero.
pub proof fn law_catalog_sweep_settles(
    start: Catalog,
    once: Catalog,
    twice: Catalog,
    dirs: Seq<Seq<char>>,
)
    requires
        catalog_swept(start, once, dirs),
        catalog_swept(once, twice, dirs),
    ensures
        twice.books@ == once.books@,
        twice.books_authors_link@ == once.books_authors_link@,
        twice.books_publishers_link@ == once.books_publishers_link@,
        twice.books_series_link@ == once.books_series_link@,
        twice.books_tags_link@ == once.books_tags_link@,
        twice.books_languages_link@ == once.books_languages_link@,
        twice.books_ratings_link@ == once.books_ratings_link@,
        twice.comments@ == once.comments@,
        twice.identifiers@ == once.identifiers@,
        twice.data@ == once.data@,
        twice.metadata_dirtied@ == once.metadata_dirtied@,
        twice.annotations_dirtied@ == once.annotations_dirtied@,
        twice.authors@ == once.authors@,
        twice.publishers@ == once.publishers@,
        twice.series@ == once.series@,
        twice.tags@ == once.tags@,
        twice.languages == once.languages,
        catalog_report(once, twice) == (CatalogSweepReport {
            books: 0,
            dependent_rows: 0,
            authors: 0,
            publishers: 0,
            series: 0,
            tags: 0,
        }),
{
    lemma_filter_twice(start.books@, has_directory(dirs));
    lemma_no_orphans_left(once.books_authors_link@, start.books@, dirs);
    lemma_no_orphans_left(once.books_publishers_link@, start.books@, dirs);
    lemma_no_orphans_left(once.books_series_link@, start.books@, dirs);
    lemma_no_orphans_left(once.books_tags_link@, start.books@, dirs);
    lemma_no_orphans_left(once.books_languages_link@, start.books@, dirs);
    lemma_no_orphans_left(once.books_ratings_link@, start.books@, dirs);
    lemma_no_orphans_left(once.comments@, start.books@, dirs);
    lemma_no_orphans_left(once.identifiers@, start.books@, dirs);
    lemma_no_orphans_left(once.data@, start.books@, dirs);
    lemma_no_orphans_left(once.metadata_dirtied@, start.books@, dirs);
    lemma_no_orphans_left(once.annotations_dirtied@, start.books@, dirs);
    lemma_filter_twice(start.authors@, is_linked(once.books_authors_link@));
    lemma_filter_twice(start.publishers@, is_linked(once.books_publishers_link@));
    lemma_filter_twice(start.series@, is_linked(once.books_series_link@));
    lemma_filter_twice(start.tags@, is_linked(once.books_tags_link@));
}

/// Every row of `rows` refers to a book of `valid`.
pub open spec fn refer_to_valid<T: BookRef>(rows: Seq<T>, valid: Seq<i64>) -> bool {
    forall|i: int| 0 <= i < rows.len() ==> valid.contains((#[trigger] rows[i]).book())
}

proof fn lemma_kept_are_valid<T: BookRef>(rows: Seq<T>, valid: Seq<i64>)
    ensures
        refer_to_valid(rows.filter(book_is_among(valid)), valid),
{
    let kept = rows.filter(book_is_among(valid));
    lemma_filter_members(rows, book_is_among(valid));
    assert forall|i: int| 0 <= i < kept.len() implies valid.contains((#[trigger] kept[i]).book()) by {
        assert(book_is_among::<T>(valid)(kept[i]));
    }
}

/// After the orphan pass no row of the companion store refers to a book
/// that the catalog does not hold, no bookmark and no statistics row belongs
/// to a reading state that the pass removed, and no shelf is empty.
pub proof fn law_companion_sweep_is_complete(pre: Companion, post: Companion, valid: Seq<i64>)
    requires
        companion_swept(pre, post, valid),
    ensures
        refer_to_valid(post.downloads@, valid),
        refer_to_valid(post.archived_books@, valid),
        refer_to_valid(post.reading_states@, valid),
        refer_to_valid(post.synced_books@, valid),
        refer_to_valid(post.links@, valid),
        forall|i: int|
            0 <= i < post.bookmarks@.len() ==> !is_doomed_state(
                pre.reading_states@,
                valid,
                (#[trigger] post.bookmarks@[i]).reading_state_id,
            ),
        forall|i: int|
            0 <= i < post.statistics@.len() ==> !is_doomed_state(
                pre.reading_states@,
                valid,
                (#[trigger] post.statistics@[i]).reading_state_id,
            ),
        forall|i: int|
            0 <= i < post.shelves@.len() ==> has_member(post.links@)(#[trigger] post.shelves@[i]),
{
    lemma_kept_are_valid(pre.downloads@, valid);
    lemma_kept_are_valid(pre.archived_books@, valid);
    lemma_kept_are_valid(pre.reading_states@, valid);
    lemma_kept_are_valid(pre.synced_books@, valid);
    lemma_kept_are_valid(pre.links@, valid);
    lemma_filter_members(pre.bookmarks@, state_stays(pre.reading_states@, valid));
    lemma_filter_members(pre.statistics@, state_stays(pre.reading_states@, valid));
    lemma_filter_members(pre.shelves@, has_member(post.links@));
    assert forall|i: int| 0 <= i < post.bookmarks@.len() implies !is_doomed_state(
        pre.reading_states@,
        valid,
        (#[trigger] post.bookmarks@[i]).reading_state_id,
    ) by {
        assert(state_stays::<BookmarkRow>(pre.reading_states@, valid)(post.bookmarks@[i]));
    }
    assert forall|i: int| 0 <= i < post.statistics@.len() implies !is_doomed_state(
        pre.reading_states@,
        valid,
        (#[trigger] post.statistics@[i]).reading_state_id,
    ) by {
        assert(state_stays::<StatisticsRow>(pre.reading_states@, valid)(post.statistics@[i]));
    }
}

proof fn lemma_no_doomed_left<T: StateRef>(
    rows: Seq<T>,
    states: Seq<ReadingStateRow>,
    valid: Seq<i64>,
)
    ensures
        rows.filter(state_stays(states.filter(book_is_among(valid)), valid)) == rows,
{
    let left = states.filter(book_is_among(valid));
    lemma_filter_members(states, book_is_among(valid));
    assert forall|i: int| 0 <= i < rows.len() implies state_stays::<T>(left, valid)(
        #[trigger] rows[i],
    ) by {
        if is_doomed_state(left, valid, rows[i].state()) {
            let k = choose|k: int|
                0 <= k < left.len() && (#[trigger] left[k]).id == rows[i].state()
                    && !valid.contains(left[k].book_id);
            assert(book_is_among::<ReadingStateRow>(valid)(left[k]));
        }
    }
    lemma_filter_keeps_all(rows, state_stays(left, valid));
}

/// The orphan pass over the companion store, run a second time on what the
/// first left and with the same books, removes nothing: every table stays
/// and every count is zero.
pub proof fn law_companion_sweep_settles(
    start: Companion,
    once: Companion,
    twice: Companion,
    valid: Seq<i64>,
)
    requires
        companion_swept(start, once, valid),
        companion_swept(once, twice, valid),
    ensures
        twice.users@ == once.users@,
        twice.downloads@ == once.downloads@,
        twice.archived_books@ == once.archived_books@,
        twice.bookmarks@ == once.bookmarks@,
        twice.statistics@ == once.statistics@,
        twice.reading_states@ == once.reading_states@,
        twice.synced_books@ == once.synced_books@,
        twice.links@ == once.links@,
        twice.shelves@ == once.shelves@,
        companion_report(once, twice) == (CompanionSweepReport {
            downloads: 0,
            archived_books: 0,
            bookmarks: 0,
            statistics: 0,
            reading_states: 0,
            synced_books: 0,
            links: 0,
            shelves: 0,
        }),
{
    lemma_filter_twice(start.downloads@, book_is_among(valid));
    lemma_filter_twice(start.archived_books@, book_is_among(valid));
    lemma_filter_twice(start.reading_states@, book_is_among(valid));
    lemma_filter_twice(start.synced_books@, book_is_among(valid));
    lemma_filter_twice(start.links@, book_is_among(valid));
    lemma_no_doomed_left(once.bookmarks@, start.reading_states@, valid);
    lemma_no_doomed_left(once.statistics@, start.reading_states@, valid);
    lemma_filter_twice(start.shelves@, has_member(once.links@));
}


/// What the orphan pass found, pass by pass.
#[derive(Debug, Clone, Copy, PartialEq, Eq, Structural)]
pub struct CleanupReport {
    pub catalog: CatalogSweepReport,
    pub shelf_times_filled: usize,
    pub membership_times_filled: usize,
    pub companion: CompanionSweepReport,
}

/// What the orphan pass does to the times of the companion store before it
/// removes anything: a shelf that misses one of its two times gets it from
/// the other, or `now` where both are missing, and a membership without a
/// time gets `now`.
pub open spec fn shelf_times_filled(pre: Companion, post: Companion, now: Seq<char>) -> bool {
    &&& post == (Companion { shelves: post.shelves, links: post.links, ..pre })
    &&& times_repaired(pre.shelves@, post.shelves@, now, true)
    &&& times_repaired(pre.links@, post.links@, now, true)
}

/// What the whole orphan pass leaves of both stores.
pub open spec fn stores_swept(
    pre_catalog: Catalog,
    post_catalog: Catalog,
    pre: Companion,
    post: Companion,
    dirs: Seq<Seq<char>>,
    now: Seq<char>,
    report: CleanupReport,
) -> bool {
    &&& catalog_swept(pre_catalog, post_catalog, dirs)
    &&& report.catalog == catalog_report(pre_catalog, post_catalog)
    &&& report.shelf_times_filled == pre.shelves@.filter(misses_a_time::<ShelfRow>()).len()
    &&& report.membership_times_filled == pre.links@.filter(misses_a_time::<ShelfLinkRow>()).len()
    &&& exists|mid: Companion| #[trigger]
        shelf_times_filled(pre, mid, now) && companion_swept(mid, post, keys(post_catalog.books@))
            && report.companion == companion_report(mid, post)
}

/// The orphan pass over both stores at a given time: first the catalog,
/// then the times of shelves and memberships, then the companion store
/// against the books that the catalog still holds.
pub fn sweep_stores(
    catalog: &mut Catalog,
    store: &mut Companion,
    book_dirs: &Vec<String>,
    now: &str,
) -> (report: CleanupReport)
    ensures
        stores_swept(
            *old(catalog),
            *final(catalog),
            *old(store),
            *final(store),
            texts(book_dirs@),
            now@,
            report,
        ),
{
    let swept = sweep_catalog(catalog, book_dirs);
    let shelves = stamp_all(&mut store.shelves, now, true);
    let memberships = stamp_all(&mut store.links, now, true);
    let ghost mid = *store;
    let valid = ids_of(&catalog.books);
    let companion = sweep_companion(store, &valid);
    proof {
        assert(shelf_times_filled(*old(store), mid, now@) && companion == companion_report(
            mid,
            *store,
        ));
    }
    CleanupReport {
        catalog: swept,
        shelf_times_filled: shelves,
        membership_times_filled: memberships,
        companion,
    }
}

/// The orphan pass over both stores at the present time. `book_dirs` are
/// the directories of the library tree that hold a book file. The stores
/// are left as `sweep_stores` leaves them for some time.
pub fn cleanup_databases(catalog: &mut Catalog, store: &mut Companion, book_dirs: &Vec<String>) -> (report:
    CleanupReport)
    ensures
        exists|now: Seq<char>| #[trigger]
            stores_swept(
                *old(catalog),
                *final(catalog),
                *old(store),
                *final(store),
                texts(book_dirs@),
                now,
                report,
            ),
{
    let now = now_local_micro();
    sweep_stores(catalog, store, book_dirs, now.as_str())
}

/// The test that a membership is of a book that the catalog holds, or of a
/// shelf that does not exist.
pub open spec fn is_sound_membership(shelves: Seq<ShelfRow>, valid: Seq<i64>) -> spec_fn(
    ShelfLinkRow,
) -> bool {
    |l: ShelfLinkRow|
        valid.contains(l.book_id) || first_where(shelves, shelf_with_id(l.shelf)) >= shelves.len()
}

/// What `clean_empty_shelves` leaves: the memberships of books that the
/// catalog holds, and the shelves that still hold a book.
pub open spec fn shelves_cleaned(pre: Companion, post: Companion, valid: Seq<i64>) -> bool {
    &&& post == (Companion { links: post.links, shelves: post.shelves, ..pre })
    &&& post.links@ == pre.links@.filter(is_sound_membership(pre.shelves@, valid))
    &&& post.shelves@ == pre.shelves@.filter(has_member(post.links@))
}

/// Takes from every shelf the books that the catalog no longer holds, and
/// removes the shelves that hold nothing then. Says how many memberships
/// and how many shelves went.
pub fn clean_empty_shelves(store: &mut Companion, catalog: &Catalog) -> (removed: (usize, usize))
    ensures
        shelves_cleaned(*old(store), *final(store), keys(catalog.books@)),
        removed.0 == old(store).links@.len() - final(store).links@.len(),
        removed.1 == old(store).shelves@.len() - final(store).shelves@.len(),
{
    let valid = ids_of(&catalog.books);
    let n: usize = store.links.len();
    let ghost test = is_sound_membership(store.shelves@, valid@);
    let mut marks: Vec<bool> = Vec::new();
    let mut i: usize = 0;
    while i < n
        invariant
            i <= n == store.links@.len(),
            *store == *old(store),
            test == is_sound_membership(store.shelves@, valid@),
            marks@.len() == i,
            forall|j: int| 0 <= j < i ==> marks@[j] == test(#[trigger] store.links@[j]),
        decreases n - i,
    {
        let shelf = store.links[i].shelf;
        let mut at: usize = 0;
        while at < store.shelves.len() && store.shelves[at].id != shelf
            invariant
                at <= store.shelves@.len(),
                forall|j: int| 0 <= j < at ==> !shelf_with_id(shelf)(#[trigger] store.shelves@[j]),
            decreases store.shelves@.len() - at,
        {
            at += 1;
        }
        proof {
            lemma_first_where(store.shelves@, shelf_with_id(shelf));
            if at < store.shelves@.len() {
                assert(shelf_with_id(shelf)(store.shelves@[at as int]));
            }
        }
        marks.push(holds(&valid, store.links[i].book_id) || at >= store.shelves.len());
        i += 1;
    }
    keep_marked(&mut store.links, &marks, Ghost(test));
    proof {
        lemma_filter_members(old(store).links@, test);
    }
    let links = n - store.links.len();
    let shelves = drop_empty_shelves(store);
    (links, shelves)
}


/// The whole orphan pass, run a second time on what the first left and
/// with the same library tree, finds nothing: every count of its report is
/// zero, and both stores keep their rows.
pub proof fn law_whole_sweep_settles(
    catalog_0: Catalog,
    catalog_1: Catalog,
    catalog_2: Catalog,
    store_0: Companion,
    store_1: Companion,
    store_2: Companion,
    dirs: Seq<Seq<char>>,
    now_1: Seq<char>,
    report_1: CleanupReport,
    now_2: Seq<char>,
    report_2: CleanupReport,
)
    requires
        stores_swept(catalog_0, catalog_1, store_0, store_1, dirs, now_1, report_1),
        stores_swept(catalog_1, catalog_2, store_1, store_2, dirs, now_2, report_2),
    ensures
        catalog_2.books@ == catalog_1.books@,
        store_2.shelves@ == store_1.shelves@,
        store_2.links@ == store_1.links@,
        store_2.reading_states@ == store_1.reading_states@,
        store_2.bookmarks@ == store_1.bookmarks@,
        store_2.statistics@ == store_1.statistics@,
        store_2.synced_books@ == store_1.synced_books@,
        store_2.downloads@ == store_1.downloads@,
        store_2.archived_books@ == store_1.archived_books@,
        report_2 == (CleanupReport {
            catalog: CatalogSweepReport {
                books: 0,
                dependent_rows: 0,
                authors: 0,
                publishers: 0,
                series: 0,
                tags: 0,
            },
            shelf_times_filled: 0,
            membership_times_filled: 0,
            companion: CompanionSweepReport {
                downloads: 0,
                archived_books: 0,
                bookmarks: 0,
                statistics: 0,
                reading_states: 0,
                synced_books: 0,
                links: 0,
                shelves: 0,
            },
        }),
{
    law_catalog_sweep_settles(catalog_0, catalog_1, catalog_2, dirs);
    let valid = keys(catalog_1.books@);
    assert(keys(catalog_2.books@) == valid);
    let mid_1 = choose|mid: Companion| #[trigger]
        shelf_times_filled(store_0, mid, now_1) && companion_swept(mid, store_1, valid)
            && report_1.companion == companion_report(mid, store_1);
    let mid_2 = choose|mid: Companion| #[trigger]
        shelf_times_filled(store_1, mid, now_2) && companion_swept(mid, store_2, valid)
            && report_2.companion == companion_report(mid, store_2);
    lemma_filter_members(mid_1.shelves@, has_member(store_1.links@));
    lemma_filter_members(mid_1.links@, book_is_among::<ShelfLinkRow>(valid));
    assert forall|i: int| 0 <= i < store_1.shelves@.len() implies (
    #[trigger] store_1.shelves@[i]).missing() == 0 by {
        assert(mid_1.shelves@.contains(store_1.shelves@[i]));
        let k = choose|k: int| 0 <= k < mid_1.shelves@.len() && mid_1.shelves@[k]
            == store_1.shelves@[i];
        assert(mid_1.shelves@[k].missing() == 0);
    }
    assert forall|i: int| 0 <= i < store_1.links@.len() implies (
    #[trigger] store_1.links@[i]).missing() == 0 by {
        assert(mid_1.links@.contains(store_1.links@[i]));
        let k = choose|k: int| 0 <= k < mid_1.links@.len() && mid_1.links@[k] == store_1.links@[i];
        assert(mid_1.links@[k].missing() == 0);
    }
    lemma_times_settled(store_1.shelves@, mid_2.shelves@, now_2, true);
    lemma_times_settled(store_1.links@, mid_2.links@, now_2, true);
    assert(companion_swept(store_1, store_2, valid));
    law_companion_sweep_settles(mid_1, store_1, store_2, valid);
}

} // verus!
