//! The decisions of the file placement driver: what a book's file is called
//! in the library tree, and whether a cover fits its budget.
use vstd::prelude::*;
use vstd::string::*;
use crate::catalog::{book_with_id, text_of, BookRow, Catalog};
use crate::rows::first_where;
use crate::text::{
    chars_of, has_prefix_folded, is_word, is_word_of, same_text, starts_with_folded,
};
use crate::upsert::{book_format, find_book_by_id, format_of};

verus! {

/// The largest cover, in bytes, that is stored as it comes.
pub const MAX_COVER_SIZE: u64 = 200 * 1024;

/// True when a cover of `size` bytes is stored as it comes, and false when
/// it has to be scaled down first.
pub fn fits_cover_budget(size: u64) -> (r: bool)
    ensures
        r == (size <= MAX_COVER_SIZE),
{
    size <= MAX_COVER_SIZE
}

/// The name of a book's file in its directory: title, dash, author, and
/// `.kepub` or `.epub` by the format of the source file.
pub open spec fn library_name_of(title: Seq<char>, author: Seq<char>, source: Seq<char>) -> Option<
    Seq<char>,
> {
    match format_of(source) {
        None => None,
        Some(format) => Some(
            title + " - "@ + author + if format == "KEPUB"@ {
                ".kepub"@
            } else {
                ".epub"@
            },
        ),
    }
}

/// The name under which a book's file is placed in its directory, if the
/// source file is of a format that the catalog takes.
pub fn library_file_name(title: &str, author: &str, source_path: &str) -> (r: Option<String>)
    ensures
        text_of(r) == library_name_of(title@, author@, source_path@),
{
    match book_format(source_path) {
        None => None,
        Some(format) => {
            let mut name = String::from_str(title);
            name.append(" - ");
            name.append(author);
            proof {
                reveal_strlit("KEPUB");
                reveal_strlit("EPUB");
            }
            if format == String::from_str("KEPUB") {
                name.append(".kepub");
            } else {
                name.append(".epub");
            }
            Some(name)
        },
    }
}

/// Notes that a book's cover is in place. The answer says whether the
/// catalog holds the book.
pub fn mark_cover_saved(catalog: &mut Catalog, book_id: i64) -> (found: bool)
    ensures
        found == (first_where(old(catalog).books@, book_with_id(book_id)) < old(catalog).books@.len()),
        !found ==> *final(catalog) == *old(catalog),
        found ==> {
            let i = first_where(old(catalog).books@, book_with_id(book_id));
            &&& *final(catalog) == (Catalog { books: final(catalog).books, ..*old(catalog) })
            &&& final(catalog).books@ == old(catalog).books@.update(
                i,
                (BookRow { has_cover: true, ..old(catalog).books@[i] }),
            )
        },
{
    let i = find_book_by_id(catalog, book_id);
    if i >= catalog.books.len() {
        return false;
    }
    let mut row = catalog.books.remove(i);
    row.has_cover = true;
    catalog.books.insert(i, row);
    proof {
        assert(catalog.books@ =~= old(catalog).books@.update(i as int, row));
    }
    true
}


/// True when a file with this extension makes its directory a book's
/// directory: any file but a cover (`jpg`) and a metadata sidecar (`opf`).
pub fn is_content_extension(ext: &str) -> (r: bool)
    ensures
        r == (ext@ != "jpg"@ && ext@ != "opf"@),
{
    let chars = chars_of(ext);
    !same_text(&chars, "jpg") && !same_text(&chars, "opf")
}

/// True when `s` ends with `suffix` once `s` is lower-cased.
pub open spec fn ends_with_folded(s: Seq<char>, suffix: Seq<char>) -> bool {
    suffix.len() <= s.len() && starts_with_folded(s.skip(s.len() - suffix.len()), suffix)
}

fn has_suffix_folded(s: &Vec<char>, suffix: &str) -> (r: bool)
    ensures
        r == ends_with_folded(s@, suffix@),
{
    let n: usize = suffix.unicode_len();
    if s.len() < n {
        return false;
    }
    let from: usize = s.len() - n;
    let mut tail: Vec<char> = Vec::new();
    let mut i: usize = from;
    while i < s.len()
        invariant
            from <= i <= s@.len(),
            tail@ == s@.subrange(from as int, i as int),
        decreases s@.len() - i,
    {
        tail.push(s[i]);
        proof {
            assert(tail@ =~= s@.subrange(from as int, i + 1));
        }
        i += 1;
    }
    proof {
        assert(tail@ =~= s@.skip(from as int));
    }
    has_prefix_folded(&tail, suffix)
}

/// True when a file of the library, by its name, is a book file: the name
/// ends in `.epub` or `.kepub`, in any letter case.
pub fn is_book_file_name(name: &str) -> (r: bool)
    ensures
        r == (ends_with_folded(name@, ".epub"@) || ends_with_folded(name@, ".kepub"@)),
{
    let chars = chars_of(name);
    has_suffix_folded(&chars, ".epub") || has_suffix_folded(&chars, ".kepub")
}

/// True when the import of a directory takes a file with this extension:
/// `epub` or `kepub`, in any letter case.
pub fn is_import_extension(ext: &str) -> (r: bool)
    ensures
        r == (is_word(ext@, "epub"@) || is_word(ext@, "kepub"@)),
{
    let chars = chars_of(ext);
    is_word_of(&chars, "epub") || is_word_of(&chars, "kepub")
}

} // verus!
