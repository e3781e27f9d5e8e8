//! The catalog engine: deciding whether an incoming book is new, changed
//! or known as it is, and writing what the decision asks for.
use vstd::prelude::*;
use vstd::string::*;
use crate::catalog::{
    book_named, book_with_id, entity_with_id, find_or_create, link_of_book, resolved,
    resolved_id, text_of, AttributeRow, BookLinkRow, BookRow, Catalog, EntityRow,
};
use crate::companion::StoreError;
use crate::models::{BookMetadata, ExistingBookData, UpdateChanges, UpsertResult};
use crate::outside::{
    format_timestamp_micro, naive_timestamp_micros, new_uuid, now_utc_micro,
    parse_naive_timestamp, parse_zoned_timestamp, sha1_digest_hex, sha1_hex, timestamp_text,
    zoned_timestamp_micros,
};
use crate::rows::{
    book_is_not, drop_rows_of_book, first_where, largest_id, largest_key, lemma_first_where,
    lemma_largest_key_bounds,
};
use crate::shelves::{grown_by_one, text_is};
use crate::text::{
    author_sort_of, chars_of, get_author_sort, get_title_sort, has_prefix_exact,
    starts_with_exact, stored_title_sort_of,
};

verus! {

/// The bit pattern of the float 1.0: the series index of a book that names
/// none.
pub const DEFAULT_SERIES_INDEX: u64 = 0x3FF0_0000_0000_0000;

/// The decimal digit for `d`.
pub open spec fn digit_of(d: int) -> char {
    ((48 + d) as u8) as char
}

/// `n` in decimal digits.
pub open spec fn decimal_of(n: nat) -> Seq<char>
    decreases n,
{
    if n < 10 {
        seq![digit_of(n as int)]
    } else {
        decimal_of(n / 10).push(digit_of((n % 10) as int))
    }
}

/// Writes `n` in decimal digits.
pub fn decimal(n: u64) -> (r: String)
    ensures
        r@ == decimal_of(n as nat),
{
    let mut digits: Vec<char> = Vec::new();
    let mut m: u64 = n;
    while m >= 10
        invariant
            decimal_of(n as nat) == decimal_of(m as nat) + digits@,
        decreases m,
    {
        let d: u8 = (m % 10) as u8;
        let ghost before = digits@;
        digits.insert(0, (48u8 + d) as char);
        proof {
            assert(decimal_of(m as nat) == decimal_of((m / 10) as nat).push(digit_of(d as int)));
            assert(decimal_of((m / 10) as nat).push(digit_of(d as int)) + before =~= decimal_of(
                (m / 10) as nat,
            ) + digits@);
        }
        m = m / 10;
    }
    let d: u8 = m as u8;
    let ghost before = digits@;
    digits.insert(0, (48u8 + d) as char);
    proof {
        assert(decimal_of(m as nat) + before =~= digits@);
    }
    let mut out = String::new();
    crate::text::push_range(&mut out, &digits, 0, digits.len());
    proof {
        assert(digits@.subrange(0, digits@.len() as int) =~= digits@);
        assert(Seq::<char>::empty() + digits@ =~= digits@);
    }
    out
}

/// True when `s` ends with `suffix`.
pub open spec fn ends_with(s: Seq<char>, suffix: Seq<char>) -> bool {
    suffix.len() <= s.len() && starts_with_exact(s.skip(s.len() - suffix.len()), suffix)
}

/// The format that a book file's name stands for, if it is one that the
/// catalog takes.
pub open spec fn format_of(path: Seq<char>) -> Option<Seq<char>> {
    if ends_with(path, ".kepub.epub"@) || ends_with(path, ".kepub"@) {
        Some("KEPUB"@)
    } else if ends_with(path, ".epub"@) {
        Some("EPUB"@)
    } else {
        None
    }
}

fn has_suffix(s: &Vec<char>, suffix: &str) -> (r: bool)
    ensures
        r == ends_with(s@, suffix@),
{
    let n: usize = suffix.unicode_len();
    if s.len() < n {
        return false;
    }
    has_prefix_exact(s, s.len() - n, suffix)
}

/// The format of a book file, by the end of its name: `.kepub.epub` and
/// `.kepub` are KEPUB, `.epub` is EPUB, and nothing else is taken.
pub fn book_format(path: &str) -> (r: Option<String>)
    ensures
        text_of(r) == format_of(path@),
{
    let s = chars_of(path);
    if has_suffix(&s, ".kepub.epub") || has_suffix(&s, ".kepub") {
        Some(String::from_str("KEPUB"))
    } else if has_suffix(&s, ".epub") {
        Some(String::from_str("EPUB"))
    } else {
        None
    }
}

/// The storage path of a book: the author, a slash, the title, and the
/// book's id in round brackets.
pub open spec fn book_path_of(author: Seq<char>, title: Seq<char>, id: int) -> Seq<char> {
    author + seq!['/'] + title + seq![' ', '('] + decimal_of(id as nat) + seq![')']
}

/// The display name of a book's file: the title, a dash, the author.
pub open spec fn file_name_of(title: Seq<char>, author: Seq<char>) -> Seq<char> {
    title + seq![' ', '-', ' '] + author
}

/// `acc` with `part` on a new line, where there is a part.
pub open spec fn with_line(acc: Option<Seq<char>>, part: Option<Seq<char>>) -> Option<Seq<char>> {
    match part {
        None => acc,
        Some(p) => match acc {
            None => Some(p),
            Some(a) => Some(a + seq!['\n'] + p),
        },
    }
}

/// The subtitle as a heading.
pub open spec fn heading_of(subtitle: Option<Seq<char>>) -> Option<Seq<char>> {
    match subtitle {
        Some(s) => Some("<h3>"@ + s + "</h3>"@),
        None => None,
    }
}

/// The rights as a paragraph.
pub open spec fn rights_line_of(rights: Option<Seq<char>>) -> Option<Seq<char>> {
    match rights {
        Some(r) => Some("<p>Rights: "@ + r + "</p>"@),
        None => None,
    }
}

/// The comment of a new book: subtitle, description and rights, each on a
/// line of its own, as far as they are there.
pub open spec fn comment_of(m: BookMetadata) -> Option<Seq<char>> {
    with_line(
        with_line(with_line(None, heading_of(text_of(m.subtitle))), text_of(m.description)),
        rights_line_of(text_of(m.rights)),
    )
}

fn add_line(acc: Option<String>, part: Option<String>) -> (r: Option<String>)
    ensures
        text_of(r) == with_line(text_of(acc), text_of(part)),
{
    match part {
        None => acc,
        Some(p) => match acc {
            None => Some(p),
            Some(a) => {
                let mut out = a;
                out.append("\n");
                out.append(p.as_str());
                proof {
                    reveal_strlit("\n");
                    assert("\n"@ =~= seq!['\n']);
                }
                Some(out)
            },
        },
    }
}

fn wrapped(before: &str, inner: &Option<String>, after: &str) -> (r: Option<String>)
    ensures
        text_of(r) == match text_of(*inner) {
            Some(s) => Some(before@ + s + after@),
            None => None,
        },
{
    match inner {
        Some(s) => {
            let mut out = String::from_str(before);
            out.append(s.as_str());
            out.append(after);
            Some(out)
        },
        None => None,
    }
}

fn copy_text(text: &Option<String>) -> (r: Option<String>)
    ensures
        r == *text,
{
    match text {
        Some(s) => Some(s.clone()),
        None => None,
    }
}

/// Assembles the comment of a new book.
pub fn comment_text(metadata: &BookMetadata) -> (r: Option<String>)
    ensures
        text_of(r) == comment_of(*metadata),
{
    let heading = wrapped("<h3>", &metadata.subtitle, "</h3>");
    let rights = wrapped("<p>Rights: ", &metadata.rights, "</p>");
    let first = add_line(None, heading);
    let second = add_line(first, copy_text(&metadata.description));
    add_line(second, rights)
}

/// The time that a stored publication date stands for: the text is read
/// with a zone offset first, and as UTC without one where that fails.
pub open spec fn stored_pubdate(text: Option<Seq<char>>) -> Option<i64> {
    match text {
        None => None,
        Some(s) => if zoned_timestamp_micros(s) is Some {
            zoned_timestamp_micros(s)
        } else {
            naive_timestamp_micros(s)
        },
    }
}

/// The name of the entity that a book's first link leads to.
pub open spec fn linked_name(entities: Seq<EntityRow>, links: Seq<BookLinkRow>, book: i64) -> Option<
    Seq<char>,
> {
    let at = first_where(links, link_of_book(book));
    if at < links.len() {
        let e = first_where(entities, entity_with_id(links[at].item));
        if e < entities.len() {
            Some(entities[e].name@)
        } else {
            None
        }
    } else {
        None
    }
}

fn name_linked(entities: &Vec<EntityRow>, links: &Vec<BookLinkRow>, book: i64) -> (r: Option<String>)
    ensures
        text_of(r) == linked_name(entities@, links@, book),
{
    let mut at: usize = 0;
    while at < links.len() && links[at].book != book
        invariant
            at <= links@.len(),
            forall|j: int| 0 <= j < at ==> !link_of_book(book)(#[trigger] links@[j]),
        decreases links@.len() - at,
    {
        at += 1;
    }
    proof {
        lemma_first_where(links@, link_of_book(book));
        if at < links@.len() {
            assert(link_of_book(book)(links@[at as int]));
        }
    }
    if at >= links.len() {
        return None;
    }
    let item = links[at].item;
    let mut e: usize = 0;
    while e < entities.len() && entities[e].id != item
        invariant
            e <= entities@.len(),
            forall|j: int| 0 <= j < e ==> !entity_with_id(item)(#[trigger] entities@[j]),
        decreases entities@.len() - e,
    {
        e += 1;
    }
    proof {
        lemma_first_where(entities@, entity_with_id(item));
        if e < entities@.len() {
            assert(entity_with_id(item)(entities@[e as int]));
        }
    }
    if e >= entities.len() {
        return None;
    }
    Some(entities[e].name.clone())
}

/// What the comparator reads of a book of the catalog.
pub open spec fn is_existing_data(catalog: Catalog, book: BookRow, data: ExistingBookData) -> bool {
    &&& data.id == book.id
    &&& data.path@ == book.path@
    &&& data.pubdate == stored_pubdate(text_of(book.pubdate))
    &&& data.series_index == book.series_index
    &&& text_of(data.publisher) == linked_name(
        catalog.publishers@,
        catalog.books_publishers_link@,
        book.id,
    )
    &&& text_of(data.series) == linked_name(catalog.series@, catalog.books_series_link@, book.id)
}

/// The index of the first book with this id.
pub fn find_book_by_id(catalog: &Catalog, book_id: i64) -> (i: usize)
    ensures
        i == first_where(catalog.books@, book_with_id(book_id)),
{
    let mut i: usize = 0;
    while i < catalog.books.len() && catalog.books[i].id != book_id
        invariant
            i <= catalog.books@.len(),
            forall|j: int| 0 <= j < i ==> !book_with_id(book_id)(#[trigger] catalog.books@[j]),
        decreases catalog.books@.len() - i,
    {
        i += 1;
    }
    proof {
        lemma_first_where(catalog.books@, book_with_id(book_id));
        if i < catalog.books@.len() {
            assert(book_with_id(book_id)(catalog.books@[i as int]));
        }
    }
    i
}

/// Reads the comparable fields of a book: its path, its publication date
/// as a time, its series index, and the names of its publisher and series.
pub fn get_existing_book_data(catalog: &Catalog, book_id: i64) -> (r: Result<
    ExistingBookData,
    StoreError,
>)
    ensures
        match r {
            Ok(data) => {
                let i = first_where(catalog.books@, book_with_id(book_id));
                i < catalog.books@.len() && is_existing_data(*catalog, catalog.books@[i], data)
            },
            Err(e) => e == (StoreError::BookNotFound { id: book_id }) && first_where(
                catalog.books@,
                book_with_id(book_id),
            ) >= catalog.books@.len(),
        },
{
    let i = find_book_by_id(catalog, book_id);
    if i >= catalog.books.len() {
        return Err(StoreError::BookNotFound { id: book_id });
    }
    Ok(existing_data_at(catalog, i))
}

fn existing_data_at(catalog: &Catalog, i: usize) -> (data: ExistingBookData)
    requires
        i < catalog.books@.len(),
    ensures
        is_existing_data(*catalog, catalog.books@[i as int], data),
{
    let book = &catalog.books[i];
    let pubdate = match &book.pubdate {
        None => None,
        Some(text) => match parse_zoned_timestamp(text.as_str()) {
            Some(at) => Some(at),
            None => parse_naive_timestamp(text.as_str()),
        },
    };
    ExistingBookData {
        id: book.id,
        path: book.path.clone(),
        pubdate,
        series_index: book.series_index,
        publisher: name_linked(&catalog.publishers, &catalog.books_publishers_link, book.id),
        series: name_linked(&catalog.series, &catalog.books_series_link, book.id),
    }
}

/// The fields that differ between a book of the catalog and an incoming
/// one. Two absent values are equal, two texts are equal letter for letter,
/// and an absent value differs from a present one.
pub open spec fn changes_between(
    existing: ExistingBookData,
    metadata: BookMetadata,
    series_index_differs: bool,
) -> UpdateChanges {
    UpdateChanges {
        pubdate_changed: existing.pubdate != metadata.pubdate,
        series_index_changed: series_index_differs,
        publisher_changed: text_of(existing.publisher) != text_of(metadata.publisher),
        series_changed: text_of(existing.series) != text_of(metadata.series),
    }
}

fn same_optional_text(a: &Option<String>, b: &Option<String>) -> (r: bool)
    ensures
        r == (text_of(*a) == text_of(*b)),
{
    match a {
        None => b.is_none(),
        Some(x) => match b {
            None => false,
            Some(y) => *x == *y,
        },
    }
}

/// Compares an incoming book with the catalog's record of it, field by
/// field. Whether the series index differs by more than the tolerance is a
/// matter of floating point and comes from the caller.
pub fn determine_changes(
    existing: &ExistingBookData,
    new_metadata: &BookMetadata,
    series_index_differs: bool,
) -> (r: UpdateChanges)
    ensures
        r == changes_between(*existing, *new_metadata, series_index_differs),
{
    let pubdate_changed = match existing.pubdate {
        None => new_metadata.pubdate.is_some(),
        Some(a) => match new_metadata.pubdate {
            None => true,
            Some(b) => a != b,
        },
    };
    UpdateChanges {
        pubdate_changed,
        series_index_changed: series_index_differs,
        publisher_changed: !same_optional_text(&existing.publisher, &new_metadata.publisher),
        series_changed: !same_optional_text(&existing.series, &new_metadata.series),
    }
}


/// The series index that a book's metadata asks for.
pub open spec fn index_or_default(index: Option<u64>) -> u64 {
    match index {
        Some(bits) => bits,
        None => DEFAULT_SERIES_INDEX,
    }
}

/// The fields that differ between a book row and an incoming book.
pub open spec fn changes_for(
    catalog: Catalog,
    book: BookRow,
    metadata: BookMetadata,
    series_index_differs: bool,
) -> UpdateChanges {
    UpdateChanges {
        pubdate_changed: stored_pubdate(text_of(book.pubdate)) != metadata.pubdate,
        series_index_changed: series_index_differs,
        publisher_changed: linked_name(
            catalog.publishers@,
            catalog.books_publishers_link@,
            book.id,
        ) != text_of(metadata.publisher),
        series_changed: linked_name(catalog.series@, catalog.books_series_link@, book.id)
            != text_of(metadata.series),
    }
}

/// True when a table of entities has room for the name: there is no name,
/// or a row has it, or the table can take one more id.
pub open spec fn entity_has_room(rows: Seq<EntityRow>, name: Option<Seq<char>>) -> bool {
    name is Some && first_where(rows, crate::catalog::entity_named(name->0)) >= rows.len()
        ==> largest_key(rows) < i64::MAX
}

/// True when an update finds room for the publisher and the series that it
/// has to create. An update that creates nothing needs no room.
pub open spec fn update_has_room(c: Catalog, metadata: BookMetadata, changes: UpdateChanges) -> bool {
    &&& changes.publisher_changed ==> entity_has_room(c.publishers@, text_of(metadata.publisher))
    &&& changes.series_changed ==> entity_has_room(c.series@, text_of(metadata.series))
}

/// True when a creation finds room for the book and for the author, the
/// language, the publisher and the series that it has to create.
pub open spec fn creation_has_room(c: Catalog, metadata: BookMetadata) -> bool {
    &&& largest_key(c.books@) < i64::MAX
    &&& entity_has_room(c.authors@, Some(metadata.author@))
    &&& entity_has_room(c.languages@, text_of(metadata.language))
    &&& entity_has_room(c.publishers@, text_of(metadata.publisher))
    &&& entity_has_room(c.series@, text_of(metadata.series))
}

/// True when the publication date, if there is one, can be written.
pub open spec fn date_is_writable(pubdate: Option<i64>) -> bool {
    pubdate is Some ==> timestamp_text(pubdate->0) is Some
}

/// What becomes of a book's link to an entity on an update: nothing where
/// the field did not change; otherwise the book's old links go, and where a
/// new name is given the entity is found or created and linked.
pub open spec fn relinked(
    pre_entities: Seq<EntityRow>,
    post_entities: Seq<EntityRow>,
    pre_links: Seq<BookLinkRow>,
    post_links: Seq<BookLinkRow>,
    book: i64,
    changed: bool,
    name: Option<Seq<char>>,
    sort: Option<Seq<char>>,
) -> bool {
    if !changed {
        post_entities == pre_entities && post_links == pre_links
    } else {
        match name {
            None => post_entities == pre_entities && post_links == pre_links.filter(
                book_is_not::<BookLinkRow>(book),
            ),
            Some(n) => resolved(pre_entities, post_entities, n, sort) && post_links
                == pre_links.filter(book_is_not::<BookLinkRow>(book)).push(
                (BookLinkRow { book, item: resolved_id(pre_entities, n) as i64 }),
            ),
        }
    }
}

/// What becomes of an entity table and its links when a new book names an
/// entity: the entity is found or created, and the book linked to it.
pub open spec fn linked_new(
    pre_entities: Seq<EntityRow>,
    post_entities: Seq<EntityRow>,
    pre_links: Seq<BookLinkRow>,
    post_links: Seq<BookLinkRow>,
    book: i64,
    name: Option<Seq<char>>,
    sort: Option<Seq<char>>,
) -> bool {
    match name {
        None => post_entities == pre_entities && post_links == pre_links,
        Some(n) => resolved(pre_entities, post_entities, n, sort) && post_links == pre_links.push(
            (BookLinkRow { book, item: resolved_id(pre_entities, n) as i64 }),
        ),
    }
}

/// True when an attribute row holds these values.
pub open spec fn is_attribute(
    row: AttributeRow,
    book: i64,
    label: Seq<char>,
    text: Seq<char>,
    size: u64,
) -> bool {
    row.book == book && row.label@ == label && row.text@ == text && row.size == size
}

/// What becomes of an attribute table when a new book may bring a row.
pub open spec fn attribute_added(
    pre: Seq<AttributeRow>,
    post: Seq<AttributeRow>,
    book: i64,
    label: Seq<char>,
    text: Option<Seq<char>>,
    size: u64,
) -> bool {
    match text {
        None => post == pre,
        Some(t) => grown_by_one(post, pre) && is_attribute(post.last(), book, label, t, size),
    }
}

/// The row of a new book.
pub open spec fn is_new_book(
    row: BookRow,
    id: int,
    metadata: BookMetadata,
    uuid: Seq<char>,
    now: Seq<char>,
) -> bool {
    &&& row.id == id
    &&& row.title@ == metadata.title@
    &&& row.sort@ == stored_title_sort_of(metadata.title@)
    &&& row.author_sort@ == author_sort_of(metadata.author@)
    &&& text_is(row.timestamp, now)
    &&& text_of(row.pubdate) == match metadata.pubdate {
        Some(at) => timestamp_text(at),
        None => Some(now),
    }
    &&& text_is(row.last_modified, now)
    &&& row.path@ == book_path_of(metadata.author@, metadata.title@, id)
    &&& row.series_index == index_or_default(metadata.series_index)
    &&& row.uuid@ == uuid
    &&& !row.has_cover
}

/// What the creation of a book writes, table by table.
pub open spec fn book_created(
    pre: Catalog,
    post: Catalog,
    metadata: BookMetadata,
    format: Seq<char>,
    uuid: Seq<char>,
    now: Seq<char>,
) -> bool {
    let id = (largest_key(pre.books@) + 1) as i64;
    let author = metadata.author@;
    &&& post.tags == pre.tags
    &&& post.books_tags_link == pre.books_tags_link
    &&& post.books_ratings_link == pre.books_ratings_link
    &&& post.metadata_dirtied == pre.metadata_dirtied
    &&& post.annotations_dirtied == pre.annotations_dirtied
    &&& grown_by_one(post.books@, pre.books@)
    &&& is_new_book(post.books@.last(), id as int, metadata, uuid, now)
    &&& linked_new(
        pre.authors@,
        post.authors@,
        pre.books_authors_link@,
        post.books_authors_link@,
        id,
        Some(author),
        Some(author_sort_of(author)),
    )
    &&& attribute_added(
        pre.data@,
        post.data@,
        id,
        format,
        Some(file_name_of(metadata.title@, author)),
        metadata.file_size,
    )
    &&& attribute_added(pre.comments@, post.comments@, id, Seq::empty(), comment_of(metadata), 0)
    &&& attribute_added(
        pre.identifiers@,
        post.identifiers@,
        id,
        "ISBN"@,
        text_of(metadata.isbn),
        0,
    )
    &&& linked_new(
        pre.languages@,
        post.languages@,
        pre.books_languages_link@,
        post.books_languages_link@,
        id,
        text_of(metadata.language),
        None,
    )
    &&& linked_new(
        pre.publishers@,
        post.publishers@,
        pre.books_publishers_link@,
        post.books_publishers_link@,
        id,
        text_of(metadata.publisher),
        None,
    )
    &&& linked_new(
        pre.series@,
        post.series@,
        pre.books_series_link@,
        post.books_series_link@,
        id,
        text_of(metadata.series),
        text_of(metadata.series),
    )
}

/// What the update of the book at index `i` writes: the time of the last
/// change always, the publication date and the series index only where
/// they changed, and the links to publisher and series only where those
/// changed. Everything else stays.
pub open spec fn book_updated(
    pre: Catalog,
    post: Catalog,
    i: int,
    metadata: BookMetadata,
    changes: UpdateChanges,
    now: Seq<char>,
) -> bool {
    let was = pre.books@[i];
    let is = post.books@[i];
    &&& post == (Catalog {
        books: post.books,
        publishers: post.publishers,
        books_publishers_link: post.books_publishers_link,
        series: post.series,
        books_series_link: post.books_series_link,
        ..pre
    })
    &&& post.books@ == pre.books@.update(i, is)
    &&& is == (BookRow {
        last_modified: is.last_modified,
        pubdate: is.pubdate,
        series_index: is.series_index,
        ..was
    })
    &&& text_is(is.last_modified, now)
    &&& if changes.pubdate_changed && metadata.pubdate is Some {
        text_of(is.pubdate) == timestamp_text(metadata.pubdate->0)
    } else {
        is.pubdate == was.pubdate
    }
    &&& is.series_index == if changes.series_index_changed {
        index_or_default(metadata.series_index)
    } else {
        was.series_index
    }
    &&& relinked(
        pre.publishers@,
        post.publishers@,
        pre.books_publishers_link@,
        post.books_publishers_link@,
        was.id,
        changes.publisher_changed,
        text_of(metadata.publisher),
        None,
    )
    &&& relinked(
        pre.series@,
        post.series@,
        pre.books_series_link@,
        post.books_series_link@,
        was.id,
        changes.series_changed,
        text_of(metadata.series),
        text_of(metadata.series),
    )
}

/// What an import does to the catalog and what it answers.
///
/// A book is known by its title and its author's sort key. A known book
/// whose file is the one on disk, or whose comparable fields are all as
/// they were, is left alone; a known book with a changed field is updated;
/// an unknown book is created. On an error the catalog is as it was.
pub open spec fn upserted(
    pre: Catalog,
    post: Catalog,
    metadata: BookMetadata,
    identical_content: bool,
    series_index_differs: bool,
    uuid: Seq<char>,
    now: Seq<char>,
    r: Result<UpsertResult, StoreError>,
) -> bool {
    let i = first_where(
        pre.books@,
        book_named(metadata.title@, author_sort_of(metadata.author@)),
    );
    if i < pre.books@.len() {
        let was = pre.books@[i];
        let changes = changes_for(pre, was, metadata, series_index_differs);
        if identical_content || !changes.any() {
            &&& r is Ok
            &&& r->Ok_0 is NoChanges
            &&& r->Ok_0.id() == was.id
            &&& r->Ok_0.path() == was.path@
            &&& post == pre
        } else if !update_has_room(pre, metadata, changes) {
            r is Err && r->Err_0 is IdsExhausted && post == pre
        } else if changes.pubdate_changed && !date_is_writable(metadata.pubdate) {
            r is Err && r->Err_0 is InvalidDate && post == pre
        } else {
            &&& r is Ok
            &&& r->Ok_0 is Updated
            &&& r->Ok_0.id() == was.id
            &&& r->Ok_0.path() == was.path@
            &&& book_updated(pre, post, i, metadata, changes, now)
        }
    } else {
        match format_of(metadata.path@) {
            None => r is Err && r->Err_0 is UnsupportedExtension && post == pre,
            Some(format) => if !creation_has_room(pre, metadata) {
                r is Err && r->Err_0 is IdsExhausted && post == pre
            } else if !date_is_writable(metadata.pubdate) {
                r is Err && r->Err_0 is InvalidDate && post == pre
            } else {
                &&& r is Ok
                &&& r->Ok_0 is Created
                &&& r->Ok_0.id() == largest_key(pre.books@) + 1
                &&& r->Ok_0.path() == book_path_of(
                    metadata.author@,
                    metadata.title@,
                    largest_key(pre.books@) + 1,
                )
                &&& book_created(pre, post, metadata, format, uuid, now)
            },
        }
    }
}

fn room_for_entity(rows: &Vec<EntityRow>, name: &Option<String>) -> (r: bool)
    ensures
        r == entity_has_room(rows@, text_of(*name)),
{
    match name {
        None => true,
        Some(n) => crate::catalog::find_entity(rows, n.as_str()) < rows.len() || largest_id(rows)
            < i64::MAX,
    }
}

/// The index of the first book with this title and author sort key.
pub fn find_book(catalog: &Catalog, title: &str, author_sort: &str) -> (i: usize)
    ensures
        i == first_where(catalog.books@, book_named(title@, author_sort@)),
{
    let wanted_title = String::from_str(title);
    let wanted_sort = String::from_str(author_sort);
    let mut i: usize = 0;
    while i < catalog.books.len()
        invariant
            i <= catalog.books@.len(),
            wanted_title@ == title@,
            wanted_sort@ == author_sort@,
            forall|j: int|
                0 <= j < i ==> !book_named(title@, author_sort@)(#[trigger] catalog.books@[j]),
        decreases catalog.books@.len() - i,
    {
        if catalog.books[i].title == wanted_title && catalog.books[i].author_sort == wanted_sort {
            proof {
                lemma_first_where(catalog.books@, book_named(title@, author_sort@));
                assert(book_named(title@, author_sort@)(catalog.books@[i as int]));
            }
            return i;
        }
        i += 1;
    }
    proof {
        lemma_first_where(catalog.books@, book_named(title@, author_sort@));
    }
    i
}

fn write_date(pubdate: Option<i64>) -> (r: Option<Option<String>>)
    ensures
        r is Some <==> date_is_writable(pubdate),
        r is Some ==> match pubdate {
            Some(at) => text_of(r->0) == timestamp_text(at),
            None => r->0 is None,
        },
{
    match pubdate {
        None => Some(None),
        Some(at) => match format_timestamp_micro(at) {
            Some(text) => Some(Some(text)),
            None => None,
        },
    }
}

fn relink(
    entities: &mut Vec<EntityRow>,
    links: &mut Vec<BookLinkRow>,
    book: i64,
    name: &Option<String>,
    with_sort: bool,
)
    requires
        entity_has_room(old(entities)@, text_of(*name)),
    ensures
        relinked(
            old(entities)@,
            final(entities)@,
            old(links)@,
            final(links)@,
            book,
            true,
            text_of(*name),
            if with_sort {
                text_of(*name)
            } else {
                None
            },
        ),
{
    drop_rows_of_book(links, book);
    match name {
        None => {},
        Some(n) => {
            let sort = if with_sort {
                Some(n.as_str())
            } else {
                None
            };
            match find_or_create(entities, n.as_str(), sort) {
                Ok(item) => {
                    links.push(BookLinkRow { book, item });
                },
                Err(_) => {},
            }
        },
    }
}

fn link_new(
    entities: &mut Vec<EntityRow>,
    links: &mut Vec<BookLinkRow>,
    book: i64,
    name: &Option<String>,
    sort: &Option<String>,
)
    requires
        entity_has_room(old(entities)@, text_of(*name)),
    ensures
        linked_new(
            old(entities)@,
            final(entities)@,
            old(links)@,
            final(links)@,
            book,
            text_of(*name),
            text_of(*sort),
        ),
{
    match name {
        None => {},
        Some(n) => {
            let sort_text = match sort {
                Some(s) => Some(s.as_str()),
                None => None,
            };
            match find_or_create(entities, n.as_str(), sort_text) {
                Ok(item) => {
                    links.push(BookLinkRow { book, item });
                },
                Err(_) => {},
            }
        },
    }
}

fn add_attribute(
    rows: &mut Vec<AttributeRow>,
    book: i64,
    label: &str,
    text: Option<String>,
    size: u64,
)
    ensures
        attribute_added(old(rows)@, final(rows)@, book, label@, text_of(text), size),
        text is None ==> *final(rows) == *old(rows),
{
    match text {
        None => {},
        Some(t) => {
            rows.push(AttributeRow { book, label: String::from_str(label), text: t, size });
            proof {
                assert(rows@.drop_last() =~= old(rows)@);
            }
        },
    }
}

fn update_book(
    catalog: &mut Catalog,
    i: usize,
    metadata: &BookMetadata,
    changes: UpdateChanges,
    date: Option<String>,
    now: &str,
)
    requires
        i < old(catalog).books@.len(),
        update_has_room(*old(catalog), *metadata, changes),
        changes.pubdate_changed && metadata.pubdate is Some ==> date is Some && text_of(date)
            == timestamp_text(metadata.pubdate->0),
    ensures
        book_updated(*old(catalog), *final(catalog), i as int, *metadata, changes, now@),
{
    let mut row = catalog.books.remove(i);
    let book = row.id;
    row.last_modified = Some(String::from_str(now));
    if changes.pubdate_changed && metadata.pubdate.is_some() {
        row.pubdate = date;
    }
    if changes.series_index_changed {
        row.series_index = match metadata.series_index {
            Some(bits) => bits,
            None => DEFAULT_SERIES_INDEX,
        };
    }
    catalog.books.insert(i, row);
    proof {
        assert(catalog.books@ =~= old(catalog).books@.update(i as int, row));
    }
    if changes.publisher_changed {
        relink(
            &mut catalog.publishers,
            &mut catalog.books_publishers_link,
            book,
            &metadata.publisher,
            false,
        );
    }
    if changes.series_changed {
        relink(&mut catalog.series, &mut catalog.books_series_link, book, &metadata.series, true);
    }
}

fn create_book(
    catalog: &mut Catalog,
    metadata: &BookMetadata,
    format: &str,
    date: Option<String>,
    uuid: &str,
    now: &str,
) -> (r: (i64, String))
    requires
        creation_has_room(*old(catalog), *metadata),
        match metadata.pubdate {
            Some(at) => text_of(date) == timestamp_text(at) && date is Some,
            None => date is None,
        },
    ensures
        r.0 == largest_key(old(catalog).books@) + 1,
        r.1@ == book_path_of(metadata.author@, metadata.title@, r.0 as int),
        book_created(*old(catalog), *final(catalog), *metadata, format@, uuid@, now@),
{
    proof {
        lemma_largest_key_bounds(catalog.books@);
    }
    let id: i64 = largest_id(&catalog.books) + 1;
    let author_sort = get_author_sort(metadata.author.as_str());
    let mut path = metadata.author.clone();
    path.append("/");
    path.append(metadata.title.as_str());
    path.append(" (");
    path.append(decimal(id as u64).as_str());
    path.append(")");
    proof {
        reveal_strlit("/");
        reveal_strlit(" (");
        reveal_strlit(")");
        assert("/"@ =~= seq!['/']);
        assert(" ("@ =~= seq![' ', '(']);
        assert(")"@ =~= seq![')']);
    }
    let pubdate = match date {
        Some(text) => Some(text),
        None => Some(String::from_str(now)),
    };
    let row = BookRow {
        id,
        title: metadata.title.clone(),
        sort: get_title_sort(metadata.title.as_str()),
        author_sort: author_sort.clone(),
        timestamp: Some(String::from_str(now)),
        pubdate,
        last_modified: Some(String::from_str(now)),
        path: path.clone(),
        series_index: match metadata.series_index {
            Some(bits) => bits,
            None => DEFAULT_SERIES_INDEX,
        },
        uuid: String::from_str(uuid),
        has_cover: false,
    };
    catalog.books.push(row);
    proof {
        assert(catalog.books@.drop_last() =~= old(catalog).books@);
    }
    link_new(
        &mut catalog.authors,
        &mut catalog.books_authors_link,
        id,
        &Some(metadata.author.clone()),
        &Some(author_sort),
    );
    let mut name = metadata.title.clone();
    name.append(" - ");
    name.append(metadata.author.as_str());
    proof {
        reveal_strlit(" - ");
        assert(" - "@ =~= seq![' ', '-', ' ']);
    }
    add_attribute(&mut catalog.data, id, format, Some(name), metadata.file_size);
    add_attribute(&mut catalog.comments, id, "", comment_text(metadata), 0);
    add_attribute(&mut catalog.identifiers, id, "ISBN", copy_text(&metadata.isbn), 0);
    proof {
        reveal_strlit("");
        assert(""@ =~= Seq::<char>::empty());
    }
    link_new(
        &mut catalog.languages,
        &mut catalog.books_languages_link,
        id,
        &metadata.language,
        &None,
    );
    link_new(
        &mut catalog.publishers,
        &mut catalog.books_publishers_link,
        id,
        &metadata.publisher,
        &None,
    );
    link_new(
        &mut catalog.series,
        &mut catalog.books_series_link,
        id,
        &metadata.series,
        &metadata.series,
    );
    (id, path)
}

/// Imports a book into the catalog at the time `now`, with `uuid` for a book
/// that has to be created. `identical_content` says that the incoming file
/// is, byte for byte, the file that the library holds for the book of this
/// title and author; `series_index_differs` says that the incoming series
/// index is further than the tolerance from that book's.
pub fn upsert_book(
    catalog: &mut Catalog,
    metadata: &BookMetadata,
    identical_content: bool,
    series_index_differs: bool,
    uuid: &str,
    now: &str,
) -> (r: Result<UpsertResult, StoreError>)
    ensures
        upserted(
            *old(catalog),
            *final(catalog),
            *metadata,
            identical_content,
            series_index_differs,
            uuid@,
            now@,
            r,
        ),
{
    let author_sort = get_author_sort(metadata.author.as_str());
    let i = find_book(catalog, metadata.title.as_str(), author_sort.as_str());
    if i < catalog.books.len() {
        let book_id = catalog.books[i].id;
        let book_path = catalog.books[i].path.clone();
        if identical_content {
            return Ok(UpsertResult::NoChanges { book_id, book_path });
        }
        let existing = existing_data_at(catalog, i);
        let changes = determine_changes(&existing, metadata, series_index_differs);
        if !changes.has_any_changes() {
            return Ok(UpsertResult::NoChanges { book_id, book_path });
        }
        if (changes.publisher_changed && !room_for_entity(&catalog.publishers, &metadata.publisher))
            || (changes.series_changed && !room_for_entity(&catalog.series, &metadata.series)) {
            return Err(StoreError::IdsExhausted);
        }
        let date = if changes.pubdate_changed {
            match write_date(metadata.pubdate) {
                Some(date) => date,
                None => {
                    return Err(StoreError::InvalidDate);
                },
            }
        } else {
            None
        };
        update_book(catalog, i, metadata, changes, date, now);
        return Ok(UpsertResult::Updated { book_id, book_path });
    }
    let format = match book_format(metadata.path.as_str()) {
        Some(format) => format,
        None => {
            return Err(StoreError::UnsupportedExtension);
        },
    };
    let author = Some(metadata.author.clone());
    if largest_id(&catalog.books) == i64::MAX || !room_for_entity(&catalog.authors, &author)
        || !room_for_entity(&catalog.languages, &metadata.language) || !room_for_entity(
        &catalog.publishers,
        &metadata.publisher,
    ) || !room_for_entity(&catalog.series, &metadata.series) {
        return Err(StoreError::IdsExhausted);
    }
    let date = match write_date(metadata.pubdate) {
        Some(date) => date,
        None => {
            return Err(StoreError::InvalidDate);
        },
    };
    let (book_id, book_path) = create_book(catalog, metadata, format.as_str(), date, uuid, now);
    Ok(UpsertResult::Created { book_id, book_path })
}


/// The bytes of a file that may be absent.
pub open spec fn bytes_of(file: Option<Vec<u8>>) -> Option<Seq<u8>> {
    match file {
        Some(f) => Some(f@),
        None => None,
    }
}

/// True when the library holds a file for the book and it has the digest of
/// the incoming file.
pub open spec fn is_same_content(new_file: Seq<u8>, existing_file: Option<Seq<u8>>) -> bool {
    existing_file is Some && sha1_hex(new_file) == sha1_hex(existing_file->0)
}

/// Compares the incoming file with the file that the library holds for the
/// book, if it holds one, by their digests.
pub fn same_content(new_file: &Vec<u8>, existing_file: &Option<Vec<u8>>) -> (r: bool)
    ensures
        r == is_same_content(
            new_file@,
            bytes_of(*existing_file),
        ),
{
    match existing_file {
        None => false,
        Some(held) => sha1_digest_hex(new_file) == sha1_digest_hex(held),
    }
}

/// Imports a book into the catalog: creates it where no book has its title
/// and author, updates it where a comparable field changed, and leaves it
/// alone where the file or all the fields are as they were. The time is the
/// present time and the UUID of a new book is random, so the catalog is left
/// as `upsert_book` leaves it for some time and some UUID.
///
/// `existing_file` holds the bytes of the file that the library has for
/// the book of this title and author, where it has one.
pub fn add_book_to_db(
    catalog: &mut Catalog,
    metadata: &BookMetadata,
    new_file: &Vec<u8>,
    existing_file: &Option<Vec<u8>>,
    series_index_differs: bool,
) -> (r: Result<UpsertResult, StoreError>)
    ensures
        exists|uuid: Seq<char>, now: Seq<char>| #[trigger]
            upserted(
                *old(catalog),
                *final(catalog),
                *metadata,
                is_same_content(
                    new_file@,
                    bytes_of(*existing_file),
                ),
                series_index_differs,
                uuid,
                now,
                r,
            ),
{
    let identical = same_content(new_file, existing_file);
    let uuid = new_uuid();
    let now = now_utc_micro();
    upsert_book(catalog, metadata, identical, series_index_differs, uuid.as_str(), now.as_str())
}

/// After an import that succeeded, the catalog knows the book: the first
/// book of its title and author has the id and the path that the import
/// answered.
pub proof fn lemma_known_after_import(
    start: Catalog,
    once: Catalog,
    metadata: BookMetadata,
    identical_content: bool,
    series_index_differs: bool,
    uuid: Seq<char>,
    now: Seq<char>,
    r: Result<UpsertResult, StoreError>,
)
    requires
        upserted(start, once, metadata, identical_content, series_index_differs, uuid, now, r),
        r is Ok,
    ensures
        ({
            let k = first_where(
                once.books@,
                book_named(metadata.title@, author_sort_of(metadata.author@)),
            );
            &&& k < once.books@.len()
            &&& once.books@[k].id == r->Ok_0.id()
            &&& once.books@[k].path@ == r->Ok_0.path()
        }),
{
    let p = book_named(metadata.title@, author_sort_of(metadata.author@));
    lemma_first_where(start.books@, p);
    lemma_first_where(once.books@, p);
    let i = first_where(start.books@, p);
    if i < start.books@.len() {
        if r->Ok_0 is Updated {
            assert(p(once.books@[i]));
            assert forall|j: int| 0 <= j < i implies !p(#[trigger] once.books@[j]) by {
                assert(once.books@[j] == start.books@[j]);
            }
        }
    } else {
        assert(p(once.books@[once.books@.len() - 1]));
        assert forall|j: int| 0 <= j < start.books@.len() implies !p(#[trigger] once.books@[j]) by {
            assert(once.books@.drop_last()[j] == once.books@[j]);
        }
    }
}

/// Importing a file, and then importing it again while the library holds
/// that very file, answers the second time that nothing changed, with the
/// id and the path of the first import, and writes nothing to the catalog.
pub proof fn law_reimport_changes_nothing(
    start: Catalog,
    once: Catalog,
    twice: Catalog,
    metadata: BookMetadata,
    identical_1: bool,
    differs_1: bool,
    uuid_1: Seq<char>,
    now_1: Seq<char>,
    r_1: Result<UpsertResult, StoreError>,
    differs_2: bool,
    uuid_2: Seq<char>,
    now_2: Seq<char>,
    r_2: Result<UpsertResult, StoreError>,
)
    requires
        upserted(start, once, metadata, identical_1, differs_1, uuid_1, now_1, r_1),
        r_1 is Ok,
        upserted(once, twice, metadata, true, differs_2, uuid_2, now_2, r_2),
    ensures
        r_2 is Ok,
        r_2->Ok_0 is NoChanges,
        r_2->Ok_0.id() == r_1->Ok_0.id(),
        r_2->Ok_0.path() == r_1->Ok_0.path(),
        twice == once,
{
    lemma_known_after_import(start, once, metadata, identical_1, differs_1, uuid_1, now_1, r_1);
}

/// Two imports under one title and one author are imports of one book,
/// whatever else differs between them: the second never creates a book, and
/// where it succeeds it answers the id and the path of the first, and the
/// book's row keeps both.
pub proof fn law_natural_key_is_stable(
    start: Catalog,
    once: Catalog,
    twice: Catalog,
    first: BookMetadata,
    second: BookMetadata,
    identical_1: bool,
    differs_1: bool,
    uuid_1: Seq<char>,
    now_1: Seq<char>,
    r_1: Result<UpsertResult, StoreError>,
    identical_2: bool,
    differs_2: bool,
    uuid_2: Seq<char>,
    now_2: Seq<char>,
    r_2: Result<UpsertResult, StoreError>,
)
    requires
        first.title@ == second.title@,
        first.author@ == second.author@,
        upserted(start, once, first, identical_1, differs_1, uuid_1, now_1, r_1),
        r_1 is Ok,
        upserted(once, twice, second, identical_2, differs_2, uuid_2, now_2, r_2),
    ensures
        twice.books@.len() == once.books@.len(),
        r_2 is Ok ==> !(r_2->Ok_0 is Created) && r_2->Ok_0.id() == r_1->Ok_0.id()
            && r_2->Ok_0.path() == r_1->Ok_0.path(),
        ({
            let k = first_where(
                once.books@,
                book_named(first.title@, author_sort_of(first.author@)),
            );
            &&& k < once.books@.len()
            &&& twice.books@[k].id == r_1->Ok_0.id()
            &&& twice.books@[k].path@ == r_1->Ok_0.path()
        }),
{
    lemma_known_after_import(start, once, first, identical_1, differs_1, uuid_1, now_1, r_1);
    let k = first_where(once.books@, book_named(first.title@, author_sort_of(first.author@)));
    lemma_first_where(once.books@, book_named(first.title@, author_sort_of(first.author@)));
    assert(first_where(once.books@, book_named(second.title@, author_sort_of(second.author@)))
        == k);
    if r_2 is Ok && r_2->Ok_0 is Updated {
        assert(twice.books@ == once.books@.update(k, twice.books@[k]));
        assert(twice.books@.len() == once.books@.len());
    } else {
        assert(twice == once);
    }
}


/// No two books of the catalog share a title and an author sort key.
pub open spec fn natural_keys_differ(books: Seq<BookRow>) -> bool {
    forall|i: int, j: int|
        0 <= i < j < books.len() ==> !((#[trigger] books[i]).title@ == (#[trigger] books[j]).title@
            && books[i].author_sort@ == books[j].author_sort@)
}

/// A catalog in which no natural key occurs twice stays so through an
/// import, whatever the import does: a book is created only under a key that
/// no book has, and an update leaves title and author alone.
pub proof fn law_natural_keys_stay_apart(
    pre: Catalog,
    post: Catalog,
    metadata: BookMetadata,
    identical_content: bool,
    series_index_differs: bool,
    uuid: Seq<char>,
    now: Seq<char>,
    r: Result<UpsertResult, StoreError>,
)
    requires
        natural_keys_differ(pre.books@),
        upserted(pre, post, metadata, identical_content, series_index_differs, uuid, now, r),
    ensures
        natural_keys_differ(post.books@),
{
    let p = book_named(metadata.title@, author_sort_of(metadata.author@));
    lemma_first_where(pre.books@, p);
    let k = first_where(pre.books@, p);
    if r is Ok && r->Ok_0 is Created {
        assert forall|i: int, j: int| 0 <= i < j < post.books@.len() implies !((
        #[trigger] post.books@[i]).title@ == (#[trigger] post.books@[j]).title@
            && post.books@[i].author_sort@ == post.books@[j].author_sort@) by {
            assert(post.books@[i] == post.books@.drop_last()[i]);
            if j < pre.books@.len() {
                assert(post.books@[j] == post.books@.drop_last()[j]);
            } else {
                assert(!p(pre.books@[i]));
            }
        }
    } else if r is Ok && r->Ok_0 is Updated {
        assert(post.books@ == pre.books@.update(k, post.books@[k]));
        assert forall|i: int, j: int| 0 <= i < j < post.books@.len() implies !((
        #[trigger] post.books@[i]).title@ == (#[trigger] post.books@[j]).title@
            && post.books@[i].author_sort@ == post.books@[j].author_sort@) by {
            assert(post.books@[i].title@ == pre.books@[i].title@);
            assert(post.books@[j].title@ == pre.books@[j].title@);
            assert(post.books@[i].author_sort@ == pre.books@[i].author_sort@);
            assert(post.books@[j].author_sort@ == pre.books@[j].author_sort@);
        }
    } else {
        assert(post == pre);
    }
}


/// A book that the catalog does not know, whose file has an accepted name,
/// is created wherever the tables have room and the date can be written:
/// the catalog gains one book, with the title and a new id, and keeps the
/// others.
pub proof fn law_unknown_book_is_created(
    pre: Catalog,
    post: Catalog,
    metadata: BookMetadata,
    identical_content: bool,
    series_index_differs: bool,
    uuid: Seq<char>,
    now: Seq<char>,
    r: Result<UpsertResult, StoreError>,
)
    requires
        upserted(pre, post, metadata, identical_content, series_index_differs, uuid, now, r),
        first_where(pre.books@, book_named(metadata.title@, author_sort_of(metadata.author@)))
            >= pre.books@.len(),
        format_of(metadata.path@) is Some,
        creation_has_room(pre, metadata),
        date_is_writable(metadata.pubdate),
    ensures
        r is Ok,
        r->Ok_0 is Created,
        post.books@.len() == pre.books@.len() + 1,
        post.books@.last().id == r->Ok_0.id(),
        post.books@.last().title@ == metadata.title@,
        post.books@.last().path@ == r->Ok_0.path(),
        forall|i: int| 0 <= i < pre.books@.len() ==> #[trigger] post.books@[i] == pre.books@[i],
        forall|i: int| 0 <= i < pre.books@.len() ==> (#[trigger] pre.books@[i]).id != r->Ok_0.id(),
{
    lemma_largest_key_bounds(pre.books@);
    assert forall|i: int| 0 <= i < pre.books@.len() implies #[trigger] post.books@[i]
        == pre.books@[i] by {
        assert(post.books@.drop_last()[i] == post.books@[i]);
    }
}

/// A book that the catalog knows is never created anew: the catalog keeps
/// its number of books, an import that succeeds answers the id and the path
/// of the book, and an import that fails changes nothing. It succeeds
/// wherever there is room for what it creates and the date, if it changed,
/// can be written.
pub proof fn law_known_book_is_not_created(
    pre: Catalog,
    post: Catalog,
    metadata: BookMetadata,
    identical_content: bool,
    series_index_differs: bool,
    uuid: Seq<char>,
    now: Seq<char>,
    r: Result<UpsertResult, StoreError>,
)
    requires
        upserted(pre, post, metadata, identical_content, series_index_differs, uuid, now, r),
        first_where(pre.books@, book_named(metadata.title@, author_sort_of(metadata.author@)))
            < pre.books@.len(),
    ensures
        post.books@.len() == pre.books@.len(),
        ({
            let i = first_where(
                pre.books@,
                book_named(metadata.title@, author_sort_of(metadata.author@)),
            );
            let changes = changes_for(pre, pre.books@[i], metadata, series_index_differs);
            &&& r is Ok ==> !(r->Ok_0 is Created) && r->Ok_0.id() == pre.books@[i].id
                && r->Ok_0.path() == pre.books@[i].path@ && post.books@[i].id == pre.books@[i].id
                && post.books@[i].path == pre.books@[i].path
            &&& r is Err ==> post == pre
            &&& update_has_room(pre, metadata, changes) && (changes.pubdate_changed
                ==> date_is_writable(metadata.pubdate)) ==> r is Ok
            &&& identical_content ==> r is Ok && r->Ok_0 is NoChanges && post == pre
        }),
{
    lemma_first_where(
        pre.books@,
        book_named(metadata.title@, author_sort_of(metadata.author@)),
    );
}

} // verus!
