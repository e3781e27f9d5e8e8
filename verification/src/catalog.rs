//! The catalog store: books, the entities that books share, the links
//! between them and the attribute rows that hang on a book.
use vstd::prelude::*;
use vstd::string::*;
use crate::companion::StoreError;
use crate::rows::{first_where, largest_id, largest_key, lemma_first_where, BookRef, Keyed};

verus! {

/// A book of the catalog. `series_index` is the bit pattern of a 64-bit
/// float; the three times and `pubdate` are text as the store holds it.
#[derive(Debug, Clone, PartialEq, Eq)]
pub struct BookRow {
    pub id: i64,
    pub title: String,
    pub sort: String,
    pub author_sort: String,
    pub timestamp: Option<String>,
    pub pubdate: Option<String>,
    pub last_modified: Option<String>,
    pub path: String,
    pub series_index: u64,
    pub uuid: String,
    pub has_cover: bool,
}

/// An author, a publisher, a series, a tag or a language: a row that books
/// share, found by its name (for a language, its code).
#[derive(Debug, Clone, PartialEq, Eq)]
pub struct EntityRow {
    pub id: i64,
    pub name: String,
    pub sort: Option<String>,
}

/// A link from a book to an entity.
#[derive(Debug, Clone, Copy, PartialEq, Eq)]
pub struct BookLinkRow {
    pub book: i64,
    pub item: i64,
}

/// A row that hangs on one book: its comment (`text`), an identifier
/// (`label` and `text`), or a file format (`label`, the display name in
/// `text`, and `size`).
#[derive(Debug, Clone, PartialEq, Eq)]
pub struct AttributeRow {
    pub book: i64,
    pub label: String,
    pub text: String,
    pub size: u64,
}

/// A note that something of a book awaits writing out: its metadata, or
/// its annotations.
#[derive(Debug, Clone, Copy, PartialEq, Eq)]
pub struct DirtiedRow {
    pub id: i64,
    pub book: i64,
}

/// The catalog store, table by table.
#[derive(Debug, Clone, PartialEq, Eq)]
pub struct Catalog {
    pub books: Vec<BookRow>,
    pub authors: Vec<EntityRow>,
    pub publishers: Vec<EntityRow>,
    pub series: Vec<EntityRow>,
    pub tags: Vec<EntityRow>,
    pub languages: Vec<EntityRow>,
    pub books_authors_link: Vec<BookLinkRow>,
    pub books_publishers_link: Vec<BookLinkRow>,
    pub books_series_link: Vec<BookLinkRow>,
    pub books_tags_link: Vec<BookLinkRow>,
    pub books_languages_link: Vec<BookLinkRow>,
    pub books_ratings_link: Vec<BookLinkRow>,
    pub comments: Vec<AttributeRow>,
    pub identifiers: Vec<AttributeRow>,
    pub data: Vec<AttributeRow>,
    pub metadata_dirtied: Vec<DirtiedRow>,
    pub annotations_dirtied: Vec<DirtiedRow>,
}

impl Catalog {
    /// A catalog without rows.
    pub fn new() -> (r: Self)
        ensures
            r.books@.len() == 0,
            r.authors@.len() == 0,
            r.publishers@.len() == 0,
            r.series@.len() == 0,
            r.tags@.len() == 0,
            r.languages@.len() == 0,
            r.books_authors_link@.len() == 0,
            r.books_publishers_link@.len() == 0,
            r.books_series_link@.len() == 0,
            r.books_tags_link@.len() == 0,
            r.books_languages_link@.len() == 0,
            r.books_ratings_link@.len() == 0,
            r.comments@.len() == 0,
            r.identifiers@.len() == 0,
            r.data@.len() == 0,
            r.metadata_dirtied@.len() == 0,
            r.annotations_dirtied@.len() == 0,
    {
        Catalog {
            books: Vec::new(),
            authors: Vec::new(),
            publishers: Vec::new(),
            series: Vec::new(),
            tags: Vec::new(),
            languages: Vec::new(),
            books_authors_link: Vec::new(),
            books_publishers_link: Vec::new(),
            books_series_link: Vec::new(),
            books_tags_link: Vec::new(),
            books_languages_link: Vec::new(),
            books_ratings_link: Vec::new(),
            comments: Vec::new(),
            identifiers: Vec::new(),
            data: Vec::new(),
            metadata_dirtied: Vec::new(),
            annotations_dirtied: Vec::new(),
        }
    }
}

impl Keyed for BookRow {
    open spec fn key(&self) -> i64 {
        self.id
    }

    fn id(&self) -> (r: i64) {
        self.id
    }
}

impl Keyed for EntityRow {
    open spec fn key(&self) -> i64 {
        self.id
    }

    fn id(&self) -> (r: i64) {
        self.id
    }
}

impl BookRef for BookLinkRow {
    open spec fn book(&self) -> i64 {
        self.book
    }

    fn book_id(&self) -> (r: i64) {
        self.book
    }
}

impl BookRef for DirtiedRow {
    open spec fn book(&self) -> i64 {
        self.book
    }

    fn book_id(&self) -> (r: i64) {
        self.book
    }
}

impl BookRef for AttributeRow {
    open spec fn book(&self) -> i64 {
        self.book
    }

    fn book_id(&self) -> (r: i64) {
        self.book
    }
}

/// The characters of a text that may be absent.
pub open spec fn text_of(o: Option<String>) -> Option<Seq<char>> {
    match o {
        Some(s) => Some(s@),
        None => None,
    }
}

/// The test that an entity has the name.
pub open spec fn entity_named(name: Seq<char>) -> spec_fn(EntityRow) -> bool {
    |e: EntityRow| e.name@ == name
}

/// The test that an entity has the id.
pub open spec fn entity_with_id(id: i64) -> spec_fn(EntityRow) -> bool {
    |e: EntityRow| e.id == id
}

/// The test that a link is one of the book.
pub open spec fn link_of_book(book: i64) -> spec_fn(BookLinkRow) -> bool {
    |l: BookLinkRow| l.book == book
}

/// The test that a book has the id.
pub open spec fn book_with_id(id: i64) -> spec_fn(BookRow) -> bool {
    |b: BookRow| b.id == id
}

/// The test that a book has the title and the author sort key: its natural
/// key.
pub open spec fn book_named(title: Seq<char>, author_sort: Seq<char>) -> spec_fn(BookRow) -> bool {
    |b: BookRow| b.title@ == title && b.author_sort@ == author_sort
}

/// The id that `find_or_create` settles on: that of the first row of the
/// name, or one above the largest id.
pub open spec fn resolved_id(rows: Seq<EntityRow>, name: Seq<char>) -> int {
    let i = first_where(rows, entity_named(name));
    if i < rows.len() {
        rows[i].id as int
    } else {
        largest_key(rows) + 1
    }
}

/// What `find_or_create` leaves of a table: the table as it was where a row
/// has the name, and one new row of that name and sort key at its end
/// otherwise. A row that is found is not touched.
pub open spec fn resolved(
    pre: Seq<EntityRow>,
    post: Seq<EntityRow>,
    name: Seq<char>,
    sort: Option<Seq<char>>,
) -> bool {
    if first_where(pre, entity_named(name)) < pre.len() {
        post == pre
    } else {
        &&& post.len() == pre.len() + 1
        &&& post.drop_last() == pre
        &&& post.last().id == largest_key(pre) + 1
        &&& post.last().name@ == name
        &&& text_of(post.last().sort) == sort
    }
}

/// The index of the first row of that name.
pub fn find_entity(rows: &Vec<EntityRow>, name: &str) -> (i: usize)
    ensures
        i == first_where(rows@, entity_named(name@)),
{
    let wanted = String::from_str(name);
    let mut i: usize = 0;
    while i < rows.len()
        invariant
            i <= rows@.len(),
            wanted@ == name@,
            forall|j: int| 0 <= j < i ==> !entity_named(name@)(#[trigger] rows@[j]),
        decreases rows@.len() - i,
    {
        if rows[i].name == wanted {
            proof {
                lemma_first_where(rows@, entity_named(name@));
                assert(entity_named(name@)(rows@[i as int]));
            }
            return i;
        }
        i += 1;
    }
    proof {
        lemma_first_where(rows@, entity_named(name@));
    }
    i
}

/// Looks a row up by its name and creates it where there is none; the
/// answer is the row's id. A row that exists keeps its other columns. The
/// table is full, and stays as it is, where a row is missing and the
/// largest id is taken.
pub fn find_or_create(rows: &mut Vec<EntityRow>, name: &str, sort: Option<&str>) -> (r: Result<
    i64,
    StoreError,
>)
    ensures
        r is Ok <==> first_where(old(rows)@, entity_named(name@)) < old(rows)@.len()
            || largest_key(old(rows)@) < i64::MAX,
        r is Ok ==> r->Ok_0 == resolved_id(old(rows)@, name@) && resolved(
            old(rows)@,
            final(rows)@,
            name@,
            crate::shelves::name_of(sort),
        ),
        r is Err ==> r->Err_0 is IdsExhausted,
        r is Err || first_where(old(rows)@, entity_named(name@)) < old(rows)@.len() ==> *final(rows)
            == *old(rows),
{
    let i = find_entity(rows, name);
    if i < rows.len() {
        return Ok(rows[i].id);
    }
    let top = largest_id(rows);
    if top == i64::MAX {
        return Err(StoreError::IdsExhausted);
    }
    let sort_text = match sort {
        Some(s) => Some(String::from_str(s)),
        None => None,
    };
    rows.push(EntityRow { id: top + 1, name: String::from_str(name), sort: sort_text });
    proof {
        assert(rows@.drop_last() =~= old(rows)@);
    }
    Ok(top + 1)
}

/// `find_or_create` for a table whose rows have a name only.
pub fn find_or_create_by_name(rows: &mut Vec<EntityRow>, name: &str) -> (r: Result<i64, StoreError>)
    ensures
        r is Ok <==> first_where(old(rows)@, entity_named(name@)) < old(rows)@.len()
            || largest_key(old(rows)@) < i64::MAX,
        r is Ok ==> r->Ok_0 == resolved_id(old(rows)@, name@) && resolved(
            old(rows)@,
            final(rows)@,
            name@,
            None,
        ),
        r is Err ==> r->Err_0 is IdsExhausted,
        r is Err || first_where(old(rows)@, entity_named(name@)) < old(rows)@.len() ==> *final(rows)
            == *old(rows),
{
    find_or_create(rows, name, None)
}

/// `find_or_create` for a table whose rows have a name and a sort key.
pub fn find_or_create_by_name_and_sort(rows: &mut Vec<EntityRow>, name: &str, sort: &str) -> (r:
    Result<i64, StoreError>)
    ensures
        r is Ok <==> first_where(old(rows)@, entity_named(name@)) < old(rows)@.len()
            || largest_key(old(rows)@) < i64::MAX,
        r is Ok ==> r->Ok_0 == resolved_id(old(rows)@, name@) && resolved(
            old(rows)@,
            final(rows)@,
            name@,
            Some(sort@),
        ),
        r is Err ==> r->Err_0 is IdsExhausted,
        r is Err || first_where(old(rows)@, entity_named(name@)) < old(rows)@.len() ==> *final(rows)
            == *old(rows),
{
    find_or_create(rows, name, Some(sort))
}

/// `find_or_create` for the languages of a catalog, by language code.
pub fn find_or_create_language(catalog: &mut Catalog, lang_code: &str) -> (r: Result<
    i64,
    StoreError,
>)
    ensures
        r is Ok <==> first_where(old(catalog).languages@, entity_named(lang_code@)) < old(
            catalog,
        ).languages@.len() || largest_key(old(catalog).languages@) < i64::MAX,
        r is Ok ==> r->Ok_0 == resolved_id(old(catalog).languages@, lang_code@) && resolved(
            old(catalog).languages@,
            final(catalog).languages@,
            lang_code@,
            None,
        ),
        r is Err ==> r->Err_0 is IdsExhausted,
        *final(catalog) == (Catalog { languages: final(catalog).languages, ..*old(catalog) }),
        r is Err || first_where(old(catalog).languages@, entity_named(lang_code@)) < old(
            catalog,
        ).languages@.len() ==> *final(catalog) == *old(catalog),
{
    find_or_create(&mut catalog.languages, lang_code, None)
}

/// Resolving a name twice gives the id that it gave first, and the second
/// time the table stays as it is: no name gets two rows.
pub proof fn law_resolve_once(
    start: Seq<EntityRow>,
    once: Seq<EntityRow>,
    name: Seq<char>,
    sort: Option<Seq<char>>,
)
    requires
        resolved(start, once, name, sort),
    ensures
        resolved_id(once, name) == resolved_id(start, name),
        first_where(once, entity_named(name)) < once.len(),
        forall|twice: Seq<EntityRow>, other: Option<Seq<char>>| #[trigger]
            resolved(once, twice, name, other) ==> twice == once,
{
    let p = entity_named(name);
    lemma_first_where(start, p);
    lemma_first_where(once, p);
    let i = first_where(start, p);
    if i >= start.len() {
        assert(p(once[once.len() - 1]));
        assert forall|j: int| 0 <= j < start.len() implies !p(#[trigger] once[j]) by {
            assert(once.drop_last()[j] == once[j]);
        }
    }
}


/// No two rows of the table share a name.
pub open spec fn names_differ(rows: Seq<EntityRow>) -> bool {
    forall|i: int, j: int|
        0 <= i < j < rows.len() ==> (#[trigger] rows[i]).name@ != (#[trigger] rows[j]).name@
}

/// A table in which no name occurs twice stays so when a name is resolved:
/// a row is created only for a name that no row has.
pub proof fn law_resolve_keeps_names_apart(
    pre: Seq<EntityRow>,
    post: Seq<EntityRow>,
    name: Seq<char>,
    sort: Option<Seq<char>>,
)
    requires
        names_differ(pre),
        resolved(pre, post, name, sort),
    ensures
        names_differ(post),
{
    lemma_first_where(pre, entity_named(name));
    if first_where(pre, entity_named(name)) >= pre.len() {
        assert forall|i: int, j: int| 0 <= i < j < post.len() implies (#[trigger] post[i]).name@ != (
        #[trigger] post[j]).name@ by {
            assert(post[i] == post.drop_last()[i]);
            if j < pre.len() {
                assert(post[j] == post.drop_last()[j]);
            } else {
                assert(!entity_named(name)(pre[i]));
            }
        }
    }
}

} // verus!
