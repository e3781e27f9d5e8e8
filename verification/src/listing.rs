//! What the listings select: the books on a shelf, the books on no shelf,
//! the memberships of books that are gone, and the names that a book is
//! linked to.
use vstd::prelude::*;
use vstd::string::*;
use crate::catalog::{entity_with_id, BookLinkRow, Catalog, EntityRow};
use crate::companion::{Companion, ShelfLinkRow, ShelfRow};
use crate::rows::BookRef;
use crate::rows::{first_where, holds, ids_of, keys, lemma_first_where};
use crate::sweep::texts;

verus! {

/// The books of the memberships, in order.
pub open spec fn books_of(links: Seq<ShelfLinkRow>) -> Seq<i64> {
    Seq::new(links.len(), |i: int| links[i].book_id)
}

/// The test that a membership is one of a shelf of the name.
pub open spec fn is_on_shelf_named(shelves: Seq<ShelfRow>, name: Seq<char>) -> spec_fn(
    ShelfLinkRow,
) -> bool {
    |l: ShelfLinkRow|
        exists|j: int|
            0 <= j < shelves.len() && (#[trigger] shelves[j]).id == l.shelf && shelves[j].name@
                == name
}

/// The test that a membership is of a book that is none of `valid`.
pub open spec fn is_of_missing_book(valid: Seq<i64>) -> spec_fn(ShelfLinkRow) -> bool {
    |l: ShelfLinkRow| !valid.contains(l.book_id)
}

/// The test that no membership is of the book with this id.
pub open spec fn is_unshelved(links: Seq<ShelfLinkRow>) -> spec_fn(i64) -> bool {
    |id: i64| forall|i: int| 0 <= i < links.len() ==> (#[trigger] links[i]).book_id != id
}

fn shelf_is_named(shelves: &Vec<ShelfRow>, shelf: i64, name: &String) -> (r: bool)
    ensures
        r == exists|j: int|
            0 <= j < shelves@.len() && (#[trigger] shelves@[j]).id == shelf && shelves@[j].name@
                == name@,
{
    let mut j: usize = 0;
    while j < shelves.len()
        invariant
            j <= shelves@.len(),
            forall|k: int|
                0 <= k < j ==> !((#[trigger] shelves@[k]).id == shelf && shelves@[k].name@ == name@),
        decreases shelves@.len() - j,
    {
        if shelves[j].id == shelf && shelves[j].name == *name {
            return true;
        }
        j += 1;
    }
    false
}

/// The books on the shelves of a name, in the order of their memberships.
pub fn books_on_shelf(store: &Companion, shelf_name: &str) -> (r: Vec<i64>)
    ensures
        r@ == books_of(store.links@.filter(is_on_shelf_named(store.shelves@, shelf_name@))),
{
    let name = String::from_str(shelf_name);
    let ghost p = is_on_shelf_named(store.shelves@, shelf_name@);
    let mut out: Vec<i64> = Vec::new();
    let mut i: usize = 0;
    proof {
        reveal(Seq::filter);
        assert(store.links@.take(0).filter(p) =~= Seq::<ShelfLinkRow>::empty());
        assert(out@ =~= books_of(store.links@.take(0).filter(p)));
    }
    while i < store.links.len()
        invariant
            i <= store.links@.len(),
            name@ == shelf_name@,
            p == is_on_shelf_named(store.shelves@, shelf_name@),
            out@ == books_of(store.links@.take(i as int).filter(p)),
        decreases store.links@.len() - i,
    {
        proof {
            reveal(Seq::filter);
            assert(store.links@.take(i + 1).drop_last() =~= store.links@.take(i as int));
            assert(store.links@.take(i + 1).last() == store.links@[i as int]);
        }
        if shelf_is_named(&store.shelves, store.links[i].shelf, &name) {
            out.push(store.links[i].book_id);
        }
        proof {
            assert(out@ =~= books_of(store.links@.take(i + 1).filter(p)));
        }
        i += 1;
    }
    proof {
        assert(store.links@.take(store.links@.len() as int) =~= store.links@);
    }
    out
}

/// The books of memberships whose book the catalog does not hold, in the
/// order of the memberships.
pub fn books_missing_from_catalog(store: &Companion, catalog: &Catalog) -> (r: Vec<i64>)
    ensures
        r@ == books_of(store.links@.filter(is_of_missing_book(keys(catalog.books@)))),
{
    let valid = ids_of(&catalog.books);
    let ghost p = is_of_missing_book(valid@);
    let mut out: Vec<i64> = Vec::new();
    let mut i: usize = 0;
    proof {
        reveal(Seq::filter);
        assert(store.links@.take(0).filter(p) =~= Seq::<ShelfLinkRow>::empty());
        assert(out@ =~= books_of(store.links@.take(0).filter(p)));
    }
    while i < store.links.len()
        invariant
            i <= store.links@.len(),
            p == is_of_missing_book(valid@),
            out@ == books_of(store.links@.take(i as int).filter(p)),
        decreases store.links@.len() - i,
    {
        proof {
            reveal(Seq::filter);
            assert(store.links@.take(i + 1).drop_last() =~= store.links@.take(i as int));
            assert(store.links@.take(i + 1).last() == store.links@[i as int]);
        }
        if !holds(&valid, store.links[i].book_id) {
            out.push(store.links[i].book_id);
        }
        proof {
            assert(out@ =~= books_of(store.links@.take(i + 1).filter(p)));
        }
        i += 1;
    }
    proof {
        assert(store.links@.take(store.links@.len() as int) =~= store.links@);
    }
    out
}

fn on_no_shelf(links: &Vec<ShelfLinkRow>, id: i64) -> (r: bool)
    ensures
        r == is_unshelved(links@)(id),
{
    let mut i: usize = 0;
    while i < links.len()
        invariant
            i <= links@.len(),
            forall|k: int| 0 <= k < i ==> (#[trigger] links@[k]).book_id != id,
        decreases links@.len() - i,
    {
        if links[i].book_id == id {
            return false;
        }
        i += 1;
    }
    true
}

/// The books of the catalog that are on no shelf, in the order of the
/// catalog.
pub fn unshelved_books(catalog: &Catalog, store: &Companion) -> (r: Vec<i64>)
    ensures
        r@ == keys(catalog.books@).filter(is_unshelved(store.links@)),
{
    let ids = ids_of(&catalog.books);
    let ghost p = is_unshelved(store.links@);
    let mut out: Vec<i64> = Vec::new();
    let mut i: usize = 0;
    proof {
        reveal(Seq::filter);
        assert(ids@.take(0).filter(p) =~= Seq::<i64>::empty());
    }
    while i < ids.len()
        invariant
            i <= ids@.len(),
            p == is_unshelved(store.links@),
            out@ == ids@.take(i as int).filter(p),
        decreases ids@.len() - i,
    {
        proof {
            reveal(Seq::filter);
            assert(ids@.take(i + 1).drop_last() =~= ids@.take(i as int));
            assert(ids@.take(i + 1).last() == ids@[i as int]);
        }
        if on_no_shelf(&store.links, ids[i]) {
            out.push(ids[i]);
        }
        i += 1;
    }
    proof {
        assert(ids@.take(ids@.len() as int) =~= ids@);
    }
    out
}

/// The names of the entities that the links of a book lead to, in the order
/// of the links. A link to an entity that does not exist gives no name.
pub open spec fn names_linked(entities: Seq<EntityRow>, links: Seq<BookLinkRow>, book: i64) -> Seq<
    Seq<char>,
>
    decreases links.len(),
{
    if links.len() == 0 {
        Seq::empty()
    } else {
        let rest = names_linked(entities, links.drop_last(), book);
        let at = first_where(entities, entity_with_id(links.last().item));
        if links.last().book == book && at < entities.len() {
            rest.push(entities[at].name@)
        } else {
            rest
        }
    }
}

/// The authors, tags, series or publishers of a book, by the table of
/// entities and the table of links that are handed in.
pub fn get_linked_items(entities: &Vec<EntityRow>, links: &Vec<BookLinkRow>, book_id: i64) -> (r:
    Vec<String>)
    ensures
        texts(r@) == names_linked(entities@, links@, book_id),
{
    let mut out: Vec<String> = Vec::new();
    let mut i: usize = 0;
    proof {
        assert(texts(out@) =~= names_linked(entities@, links@.take(0), book_id));
    }
    while i < links.len()
        invariant
            i <= links@.len(),
            texts(out@) == names_linked(entities@, links@.take(i as int), book_id),
        decreases links@.len() - i,
    {
        proof {
            assert(links@.take(i + 1).drop_last() =~= links@.take(i as int));
            assert(links@.take(i + 1).last() == links@[i as int]);
        }
        if links[i].book == book_id {
            let item = links[i].item;
            let mut at: usize = 0;
            while at < entities.len() && entities[at].id != item
                invariant
                    at <= entities@.len(),
                    forall|j: int| 0 <= j < at ==> !entity_with_id(item)(#[trigger] entities@[j]),
                decreases entities@.len() - at,
            {
                at += 1;
            }
            proof {
                lemma_first_where(entities@, entity_with_id(item));
                if at < entities@.len() {
                    assert(entity_with_id(item)(entities@[at as int]));
                }
            }
            if at < entities.len() {
                let ghost before = texts(out@);
                out.push(entities[at].name.clone());
                proof {
                    assert(texts(out@) =~= before.push(entities@[at as int].name@));
                }
            }
        }
        i += 1;
    }
    proof {
        assert(links@.take(links@.len() as int) =~= links@);
    }
    out
}


/// How far a book is set up for the sync with a reading device.
#[derive(Debug, Clone, Copy, PartialEq, Eq, Structural)]
pub enum SyncStatus {
    /// A device has acknowledged the book and a reading state exists.
    Full,
    /// A device has acknowledged the book, but no reading state exists.
    MissingReadingState,
    /// A reading state exists, but no device has acknowledged the book.
    MissingSyncEntry,
    /// Neither exists.
    NoSetup,
}

/// True when a row of the table refers to the book.
pub open spec fn mentions<T: BookRef>(rows: Seq<T>, book: i64) -> bool {
    exists|i: int| 0 <= i < rows.len() && (#[trigger] rows[i]).book() == book
}

/// The sync status of a book, by whether any device has acknowledged it and
/// whether anybody has a reading state in it.
pub open spec fn status_of(store: Companion, book: i64) -> SyncStatus {
    let acknowledged = mentions(store.synced_books@, book);
    let read = mentions(store.reading_states@, book);
    if acknowledged && read {
        SyncStatus::Full
    } else if acknowledged {
        SyncStatus::MissingReadingState
    } else if read {
        SyncStatus::MissingSyncEntry
    } else {
        SyncStatus::NoSetup
    }
}

fn refers_to<T: BookRef>(rows: &Vec<T>, book: i64) -> (r: bool)
    ensures
        r == mentions(rows@, book),
{
    let mut i: usize = 0;
    while i < rows.len()
        invariant
            i <= rows@.len(),
            forall|j: int| 0 <= j < i ==> (#[trigger] rows@[j]).book() != book,
        decreases rows@.len() - i,
    {
        if rows[i].book_id() == book {
            return true;
        }
        i += 1;
    }
    false
}

/// Says how far a book is set up for the sync with a reading device.
pub fn sync_status(store: &Companion, book_id: i64) -> (r: SyncStatus)
    ensures
        r == status_of(*store, book_id),
{
    let acknowledged = refers_to(&store.synced_books, book_id);
    let read = refers_to(&store.reading_states, book_id);
    if acknowledged && read {
        SyncStatus::Full
    } else if acknowledged {
        SyncStatus::MissingReadingState
    } else if read {
        SyncStatus::MissingSyncEntry
    } else {
        SyncStatus::NoSetup
    }
}

} // verus!
