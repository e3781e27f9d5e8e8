//! The cascade deletion engine: a book leaves the catalog, and what hung on
//! it leaves both stores.
use vstd::prelude::*;
use vstd::string::*;
use crate::catalog::{book_with_id, AttributeRow, BookLinkRow, BookRow, Catalog, DirtiedRow};
use crate::companion::{Companion, ShelfLinkRow, ShelfRow};
use crate::rows::{
    book_is_not, drop_rows_of_book, first_where, holds, keep_marked, lemma_filter_members,
    lemma_first_where,
};
use crate::rows::BookRef;
use crate::sweep::{dependents_have_books, has_book, has_member, refer_to_books};
use crate::upsert::find_book_by_id;

verus! {

/// The test that a book has another id.
pub open spec fn is_other_book(id: i64) -> spec_fn(BookRow) -> bool {
    |b: BookRow| b.id != id
}

/// True when the shelf with this id holds the book.
pub open spec fn held(links: Seq<ShelfLinkRow>, book: i64, shelf: i64) -> bool {
    exists|i: int|
        0 <= i < links.len() && (#[trigger] links[i]).book_id == book && links[i].shelf == shelf
}

/// The test that a shelf did not hold the book, or still holds a book.
pub open spec fn outlives(pre: Seq<ShelfLinkRow>, post: Seq<ShelfLinkRow>, book: i64) -> spec_fn(
    ShelfRow,
) -> bool {
    |s: ShelfRow| !held(pre, book, s.id) || has_member(post)(s)
}

/// True when the catalog holds a book with the id.
pub open spec fn is_in_catalog(catalog: Catalog, book: i64) -> bool {
    first_where(catalog.books@, book_with_id(book)) < catalog.books@.len()
}

/// What the deletion of a book leaves of the catalog. Where the catalog
/// holds no book of the id, it stays as it is. Otherwise every book with
/// another id stays, and of every table that hangs on books the rows of the
/// other books; the entities stay.
pub open spec fn book_deleted(pre: Catalog, post: Catalog, book: i64) -> bool {
    if !is_in_catalog(pre, book) {
        post == pre
    } else {
        &&& post.authors == pre.authors
        &&& post.publishers == pre.publishers
        &&& post.series == pre.series
        &&& post.tags == pre.tags
        &&& post.languages == pre.languages
        &&& post.books@ == pre.books@.filter(is_other_book(book))
        &&& post.books_authors_link@ == pre.books_authors_link@.filter(book_is_not::<BookLinkRow>(book))
        &&& post.books_publishers_link@ == pre.books_publishers_link@.filter(book_is_not::<BookLinkRow>(book))
        &&& post.books_series_link@ == pre.books_series_link@.filter(book_is_not::<BookLinkRow>(book))
        &&& post.books_tags_link@ == pre.books_tags_link@.filter(book_is_not::<BookLinkRow>(book))
        &&& post.books_languages_link@ == pre.books_languages_link@.filter(book_is_not::<BookLinkRow>(book))
        &&& post.books_ratings_link@ == pre.books_ratings_link@.filter(book_is_not::<BookLinkRow>(book))
        &&& post.comments@ == pre.comments@.filter(book_is_not::<AttributeRow>(book))
        &&& post.identifiers@ == pre.identifiers@.filter(book_is_not::<AttributeRow>(book))
        &&& post.data@ == pre.data@.filter(book_is_not::<AttributeRow>(book))
        &&& post.metadata_dirtied@ == pre.metadata_dirtied@.filter(book_is_not::<DirtiedRow>(book))
        &&& post.annotations_dirtied@ == pre.annotations_dirtied@.filter(
            book_is_not::<DirtiedRow>(book),
        )
    }
}

/// What the deletion of a book leaves of the companion store: the
/// memberships of the other books, and the shelves that did not hold the
/// book or still hold another.
pub open spec fn book_unshelved(pre: Companion, post: Companion, book: i64) -> bool {
    &&& post == (Companion { links: post.links, shelves: post.shelves, ..pre })
    &&& post.links@ == pre.links@.filter(book_is_not::<ShelfLinkRow>(book))
    &&& post.shelves@ == pre.shelves@.filter(outlives(pre.links@, post.links@, book))
}

/// What is left to do in the library tree once a book is deleted.
#[derive(Debug, Clone, PartialEq, Eq)]
pub struct DeletionPlan {
    /// The title of the book, where the catalog held it.
    pub title: Option<String>,
    /// The directory of the book, relative to the library root, where the
    /// catalog named one: its cover and the directory itself are to go, and
    /// the author's directory above it where that is left empty.
    pub book_dir: Option<String>,
    /// The number of shelves that were removed because the book was their
    /// last.
    pub shelves_removed: usize,
}

/// What the plan says of a deletion that started from `pre`.
pub open spec fn is_plan_for(pre: Catalog, book: i64, plan: DeletionPlan) -> bool {
    let i = first_where(pre.books@, book_with_id(book));
    if i < pre.books@.len() {
        &&& plan.title is Some && plan.title->0@ == pre.books@[i].title@
        &&& if pre.books@[i].path@.len() > 0 {
            plan.book_dir is Some && plan.book_dir->0@ == pre.books@[i].path@
        } else {
            plan.book_dir is None
        }
    } else {
        plan.title is None && plan.book_dir is None
    }
}

fn drop_book_row(books: &mut Vec<BookRow>, book: i64)
    ensures
        final(books)@ == old(books)@.filter(is_other_book(book)),
{
    let n: usize = books.len();
    let mut marks: Vec<bool> = Vec::new();
    let mut i: usize = 0;
    while i < n
        invariant
            i <= n == books@.len(),
            books@ == old(books)@,
            marks@.len() == i,
            forall|j: int| 0 <= j < i ==> marks@[j] == is_other_book(book)(#[trigger] books@[j]),
        decreases n - i,
    {
        marks.push(books[i].id != book);
        i += 1;
    }
    keep_marked(books, &marks, Ghost(is_other_book(book)));
}

/// Removes a book from the catalog, together with the rows that hang on
/// it. The entities that the book was linked to stay. A catalog that holds
/// no book of the id is left as it is.
pub fn delete_from_catalog(catalog: &mut Catalog, book_id: i64)
    ensures
        book_deleted(*old(catalog), *final(catalog), book_id),
{
    if find_book_by_id(catalog, book_id) >= catalog.books.len() {
        return ;
    }
    drop_book_row(&mut catalog.books, book_id);
    drop_rows_of_book(&mut catalog.books_authors_link, book_id);
    drop_rows_of_book(&mut catalog.books_publishers_link, book_id);
    drop_rows_of_book(&mut catalog.books_series_link, book_id);
    drop_rows_of_book(&mut catalog.books_tags_link, book_id);
    drop_rows_of_book(&mut catalog.books_languages_link, book_id);
    drop_rows_of_book(&mut catalog.books_ratings_link, book_id);
    drop_rows_of_book(&mut catalog.comments, book_id);
    drop_rows_of_book(&mut catalog.identifiers, book_id);
    drop_rows_of_book(&mut catalog.data, book_id);
    drop_rows_of_book(&mut catalog.metadata_dirtied, book_id);
    drop_rows_of_book(&mut catalog.annotations_dirtied, book_id);
}

fn shelves_of(links: &Vec<ShelfLinkRow>, book: i64) -> (r: Vec<i64>)
    ensures
        forall|shelf: i64| r@.contains(shelf) <==> held(links@, book, shelf),
{
    let mut out: Vec<i64> = Vec::new();
    let mut i: usize = 0;
    while i < links.len()
        invariant
            i <= links@.len(),
            forall|shelf: i64| out@.contains(shelf) <==> held(links@.take(i as int), book, shelf),
        decreases links@.len() - i,
    {
        let ghost before = out@;
        if links[i].book_id == book {
            out.push(links[i].shelf);
        }
        proof {
            let now = links@.take(i + 1);
            let was = links@.take(i as int);
            assert forall|shelf: i64| out@.contains(shelf) <==> held(now, book, shelf) by {
                if out@.contains(shelf) {
                    if before.contains(shelf) {
                        let k = choose|k: int|
                            0 <= k < was.len() && (#[trigger] was[k]).book_id == book
                                && was[k].shelf == shelf;
                        assert(now[k] == was[k]);
                    } else {
                        let k = choose|k: int| 0 <= k < out@.len() && out@[k] == shelf;
                        if k < before.len() {
                            assert(before[k] == shelf);
                        }
                        assert(now[i as int].shelf == shelf);
                    }
                }
                if held(now, book, shelf) {
                    let k = choose|k: int|
                        0 <= k < now.len() && (#[trigger] now[k]).book_id == book && now[k].shelf
                            == shelf;
                    if k < i {
                        assert(was[k] == now[k]);
                        assert(before.contains(shelf));
                        let m = choose|m: int| 0 <= m < before.len() && before[m] == shelf;
                        assert(out@[m] == shelf);
                    } else {
                        assert(out@[out@.len() - 1] == shelf);
                    }
                }
            }
        }
        i += 1;
    }
    proof {
        assert(links@.take(links@.len() as int) =~= links@);
    }
    out
}

fn shelf_has_member(links: &Vec<ShelfLinkRow>, shelf: &ShelfRow) -> (r: bool)
    ensures
        r == has_member(links@)(*shelf),
{
    let mut i: usize = 0;
    while i < links.len()
        invariant
            i <= links@.len(),
            forall|j: int| 0 <= j < i ==> (#[trigger] links@[j]).shelf != shelf.id,
        decreases links@.len() - i,
    {
        if links[i].shelf == shelf.id {
            return true;
        }
        i += 1;
    }
    false
}

/// Takes a book off every shelf, and removes the shelves that held it and
/// hold nothing now. Says how many shelves went.
pub fn remove_from_shelves(store: &mut Companion, book_id: i64) -> (removed: usize)
    ensures
        book_unshelved(*old(store), *final(store), book_id),
        removed == old(store).shelves@.len() - final(store).shelves@.len(),
{
    let held_by = shelves_of(&store.links, book_id);
    drop_rows_of_book(&mut store.links, book_id);
    let n: usize = store.shelves.len();
    let ghost test = outlives(old(store).links@, store.links@, book_id);
    let mut marks: Vec<bool> = Vec::new();
    let mut i: usize = 0;
    while i < n
        invariant
            i <= n == store.shelves@.len(),
            store.shelves@ == old(store).shelves@,
            test == outlives(old(store).links@, store.links@, book_id),
            forall|shelf: i64| held_by@.contains(shelf) <==> held(old(store).links@, book_id, shelf),
            marks@.len() == i,
            forall|j: int| 0 <= j < i ==> marks@[j] == test(#[trigger] store.shelves@[j]),
        decreases n - i,
    {
        let stays = !holds(&held_by, store.shelves[i].id) || shelf_has_member(
            &store.links,
            &store.shelves[i],
        );
        marks.push(stays);
        i += 1;
    }
    keep_marked(&mut store.shelves, &marks, Ghost(test));
    proof {
        lemma_filter_members(old(store).shelves@, test);
    }
    n - store.shelves.len()
}

fn plan_for(catalog: &Catalog, book_id: i64) -> (plan: DeletionPlan)
    ensures
        is_plan_for(*catalog, book_id, plan),
        plan.shelves_removed == 0,
{
    let i = find_book_by_id(catalog, book_id);
    if i < catalog.books.len() {
        let path = catalog.books[i].path.clone();
        let book_dir = if path.as_str().unicode_len() > 0 {
            Some(path)
        } else {
            None
        };
        DeletionPlan { title: Some(catalog.books[i].title.clone()), book_dir, shelves_removed: 0 }
    } else {
        DeletionPlan { title: None, book_dir: None, shelves_removed: 0 }
    }
}

/// Deletes a book: from the catalog with its dependent rows, and from the
/// shelves of the companion store, where a shelf that is left empty goes
/// too. A book that the catalog does not hold is no error: the catalog is
/// left as it is and the shelves are cleaned all the same. The answer says what is left to remove from the
/// library tree.
pub fn delete_book(catalog: &mut Catalog, store: &mut Companion, book_id: i64) -> (plan:
    DeletionPlan)
    ensures
        book_deleted(*old(catalog), *final(catalog), book_id),
        book_unshelved(*old(store), *final(store), book_id),
        is_plan_for(*old(catalog), book_id, plan),
        plan.shelves_removed == old(store).shelves@.len() - final(store).shelves@.len(),
{
    let found = plan_for(catalog, book_id);
    delete_from_catalog(catalog, book_id);
    let shelves_removed = remove_from_shelves(store, book_id);
    DeletionPlan { title: found.title, book_dir: found.book_dir, shelves_removed }
}

/// After a deletion no book of the catalog has the id, no shelf holds the
/// book, and a shelf that held it is there only if it holds another book.
/// Where the catalog held the book, no row of a table that hangs on books
/// is a row of the book any more.
pub proof fn law_deletion_is_complete(
    pre_catalog: Catalog,
    post_catalog: Catalog,
    pre: Companion,
    post: Companion,
    book: i64,
)
    requires
        book_deleted(pre_catalog, post_catalog, book),
        book_unshelved(pre, post, book),
    ensures
        forall|i: int|
            0 <= i < post_catalog.books@.len() ==> (#[trigger] post_catalog.books@[i]).id != book,
        forall|i: int| 0 <= i < post.links@.len() ==> (#[trigger] post.links@[i]).book_id != book,
        forall|i: int|
            0 <= i < post.shelves@.len() && held(pre.links@, book, (#[trigger] post.shelves@[i]).id)
                ==> has_member(post.links@)(post.shelves@[i]),
        !is_in_catalog(pre_catalog, book) ==> post_catalog == pre_catalog,
        is_in_catalog(pre_catalog, book) ==> forall|i: int|
            0 <= i < post_catalog.books_authors_link@.len() ==> (#[trigger] post_catalog.books_authors_link@[i]).book != book,
        is_in_catalog(pre_catalog, book) ==> forall|i: int|
            0 <= i < post_catalog.books_publishers_link@.len() ==> (#[trigger] post_catalog.books_publishers_link@[i]).book != book,
        is_in_catalog(pre_catalog, book) ==> forall|i: int|
            0 <= i < post_catalog.books_series_link@.len() ==> (#[trigger] post_catalog.books_series_link@[i]).book != book,
        is_in_catalog(pre_catalog, book) ==> forall|i: int|
            0 <= i < post_catalog.books_tags_link@.len() ==> (#[trigger] post_catalog.books_tags_link@[i]).book != book,
        is_in_catalog(pre_catalog, book) ==> forall|i: int|
            0 <= i < post_catalog.books_languages_link@.len() ==> (#[trigger] post_catalog.books_languages_link@[i]).book != book,
        is_in_catalog(pre_catalog, book) ==> forall|i: int|
            0 <= i < post_catalog.books_ratings_link@.len() ==> (#[trigger] post_catalog.books_ratings_link@[i]).book != book,
        is_in_catalog(pre_catalog, book) ==> forall|i: int|
            0 <= i < post_catalog.comments@.len() ==> (#[trigger] post_catalog.comments@[i]).book != book,
        is_in_catalog(pre_catalog, book) ==> forall|i: int|
            0 <= i < post_catalog.identifiers@.len() ==> (#[trigger] post_catalog.identifiers@[i]).book != book,
        is_in_catalog(pre_catalog, book) ==> forall|i: int|
            0 <= i < post_catalog.data@.len() ==> (#[trigger] post_catalog.data@[i]).book != book,
        is_in_catalog(pre_catalog, book) ==> forall|i: int|
            0 <= i < post_catalog.metadata_dirtied@.len() ==> (
            #[trigger] post_catalog.metadata_dirtied@[i]).book != book,
        is_in_catalog(pre_catalog, book) ==> forall|i: int|
            0 <= i < post_catalog.annotations_dirtied@.len() ==> (
            #[trigger] post_catalog.annotations_dirtied@[i]).book != book,
{
    lemma_filter_members(pre_catalog.books@, is_other_book(book));
    lemma_first_where(pre_catalog.books@, book_with_id(book));
    lemma_filter_members(pre.links@, book_is_not::<ShelfLinkRow>(book));
    lemma_filter_members(pre.shelves@, outlives(pre.links@, post.links@, book));
    assert forall|i: int| 0 <= i < post_catalog.books@.len() implies (
    #[trigger] post_catalog.books@[i]).id != book by {
        if is_in_catalog(pre_catalog, book) {
            assert(is_other_book(book)(post_catalog.books@[i]));
        } else {
            assert(!book_with_id(book)(pre_catalog.books@[i]));
        }
    }
    assert forall|i: int| 0 <= i < post.links@.len() implies (#[trigger] post.links@[i]).book_id
        != book by {
        assert(book_is_not::<ShelfLinkRow>(book)(post.links@[i]));
    }
    assert forall|i: int|
        0 <= i < post.shelves@.len() && held(
            pre.links@,
            book,
            (#[trigger] post.shelves@[i]).id,
        ) implies has_member(post.links@)(post.shelves@[i]) by {
        assert(outlives(pre.links@, post.links@, book)(post.shelves@[i]));
    }
    if is_in_catalog(pre_catalog, book) {
        lemma_filter_members(pre_catalog.books_authors_link@, book_is_not::<BookLinkRow>(book));
        assert forall|i: int| 0 <= i < post_catalog.books_authors_link@.len() implies (
        #[trigger] post_catalog.books_authors_link@[i]).book != book by {
            assert(book_is_not::<BookLinkRow>(book)(post_catalog.books_authors_link@[i]));
        }
        lemma_filter_members(pre_catalog.books_publishers_link@, book_is_not::<BookLinkRow>(book));
        assert forall|i: int| 0 <= i < post_catalog.books_publishers_link@.len() implies (
        #[trigger] post_catalog.books_publishers_link@[i]).book != book by {
            assert(book_is_not::<BookLinkRow>(book)(post_catalog.books_publishers_link@[i]));
        }
        lemma_filter_members(pre_catalog.books_series_link@, book_is_not::<BookLinkRow>(book));
        assert forall|i: int| 0 <= i < post_catalog.books_series_link@.len() implies (
        #[trigger] post_catalog.books_series_link@[i]).book != book by {
            assert(book_is_not::<BookLinkRow>(book)(post_catalog.books_series_link@[i]));
        }
        lemma_filter_members(pre_catalog.books_tags_link@, book_is_not::<BookLinkRow>(book));
        assert forall|i: int| 0 <= i < post_catalog.books_tags_link@.len() implies (
        #[trigger] post_catalog.books_tags_link@[i]).book != book by {
            assert(book_is_not::<BookLinkRow>(book)(post_catalog.books_tags_link@[i]));
        }
        lemma_filter_members(pre_catalog.books_languages_link@, book_is_not::<BookLinkRow>(book));
        assert forall|i: int| 0 <= i < post_catalog.books_languages_link@.len() implies (
        #[trigger] post_catalog.books_languages_link@[i]).book != book by {
            assert(book_is_not::<BookLinkRow>(book)(post_catalog.books_languages_link@[i]));
        }
        lemma_filter_members(pre_catalog.books_ratings_link@, book_is_not::<BookLinkRow>(book));
        assert forall|i: int| 0 <= i < post_catalog.books_ratings_link@.len() implies (
        #[trigger] post_catalog.books_ratings_link@[i]).book != book by {
            assert(book_is_not::<BookLinkRow>(book)(post_catalog.books_ratings_link@[i]));
        }
        lemma_filter_members(pre_catalog.comments@, book_is_not::<AttributeRow>(book));
        assert forall|i: int| 0 <= i < post_catalog.comments@.len() implies (
        #[trigger] post_catalog.comments@[i]).book != book by {
            assert(book_is_not::<AttributeRow>(book)(post_catalog.comments@[i]));
        }
        lemma_filter_members(pre_catalog.identifiers@, book_is_not::<AttributeRow>(book));
        assert forall|i: int| 0 <= i < post_catalog.identifiers@.len() implies (
        #[trigger] post_catalog.identifiers@[i]).book != book by {
            assert(book_is_not::<AttributeRow>(book)(post_catalog.identifiers@[i]));
        }
        lemma_filter_members(pre_catalog.data@, book_is_not::<AttributeRow>(book));
        assert forall|i: int| 0 <= i < post_catalog.data@.len() implies (
        #[trigger] post_catalog.data@[i]).book != book by {
            assert(book_is_not::<AttributeRow>(book)(post_catalog.data@[i]));
        }
        lemma_filter_members(pre_catalog.metadata_dirtied@, book_is_not::<DirtiedRow>(book));
        assert forall|i: int| 0 <= i < post_catalog.metadata_dirtied@.len() implies (
        #[trigger] post_catalog.metadata_dirtied@[i]).book != book by {
            assert(book_is_not::<DirtiedRow>(book)(post_catalog.metadata_dirtied@[i]));
        }
        lemma_filter_members(pre_catalog.annotations_dirtied@, book_is_not::<DirtiedRow>(book));
        assert forall|i: int| 0 <= i < post_catalog.annotations_dirtied@.len() implies (
        #[trigger] post_catalog.annotations_dirtied@[i]).book != book by {
            assert(book_is_not::<DirtiedRow>(book)(post_catalog.annotations_dirtied@[i]));
        }
    }
}


proof fn lemma_rows_keep_their_book<T: BookRef>(rows: Seq<T>, books: Seq<BookRow>, book: i64)
    requires
        refer_to_books(rows, books),
    ensures
        refer_to_books(rows.filter(book_is_not::<T>(book)), books.filter(is_other_book(book))),
{
    let kept = rows.filter(book_is_not::<T>(book));
    let left = books.filter(is_other_book(book));
    lemma_filter_members(rows, book_is_not::<T>(book));
    lemma_filter_members(books, is_other_book(book));
    assert forall|i: int| 0 <= i < kept.len() implies has_book(left, (#[trigger] kept[i]).book()) by {
        assert(book_is_not::<T>(book)(kept[i]));
        assert(rows.contains(kept[i]));
        let j = choose|j: int| 0 <= j < rows.len() && rows[j] == kept[i];
        assert(has_book(books, rows[j].book()));
        let k = choose|k: int| 0 <= k < books.len() && (#[trigger] books[k]).id == rows[j].book();
        assert(is_other_book(book)(books[k]));
        assert(left.contains(books[k]));
        let m = choose|m: int| 0 <= m < left.len() && left[m] == books[k];
        assert(left[m].id == kept[i].book());
    }
}

/// A deletion keeps the catalog whole: where every dependent row referred
/// to a book of the catalog before, every dependent row does so after.
pub proof fn law_deletion_keeps_dependents_sound(pre: Catalog, post: Catalog, book: i64)
    requires
        book_deleted(pre, post, book),
        dependents_have_books(pre),
    ensures
        dependents_have_books(post),
{
    if is_in_catalog(pre, book) {
        lemma_rows_keep_their_book(pre.books_authors_link@, pre.books@, book);
        lemma_rows_keep_their_book(pre.books_publishers_link@, pre.books@, book);
        lemma_rows_keep_their_book(pre.books_series_link@, pre.books@, book);
        lemma_rows_keep_their_book(pre.books_tags_link@, pre.books@, book);
        lemma_rows_keep_their_book(pre.books_languages_link@, pre.books@, book);
        lemma_rows_keep_their_book(pre.books_ratings_link@, pre.books@, book);
        lemma_rows_keep_their_book(pre.comments@, pre.books@, book);
        lemma_rows_keep_their_book(pre.identifiers@, pre.books@, book);
        lemma_rows_keep_their_book(pre.data@, pre.books@, book);
        lemma_rows_keep_their_book(pre.metadata_dirtied@, pre.books@, book);
        lemma_rows_keep_their_book(pre.annotations_dirtied@, pre.books@, book);
    }
}

} // verus!
