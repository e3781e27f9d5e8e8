use shelfkeeper::catalog::Catalog;
use shelfkeeper::files::{
    fits_cover_budget, is_book_file_name, is_content_extension, is_import_extension,
    library_file_name, mark_cover_saved, MAX_COVER_SIZE,
};
use shelfkeeper::models::BookMetadata;
use shelfkeeper::upsert::upsert_book;

#[test]
fn covers_up_to_the_budget_are_kept() {
    assert_eq!(MAX_COVER_SIZE, 204_800);
    assert!(fits_cover_budget(0));
    assert!(fits_cover_budget(204_800));
    assert!(!fits_cover_budget(204_801));
}

#[test]
fn library_files_are_named_after_title_and_author() {
    assert_eq!(
        library_file_name("Dune", "Frank Herbert", "/in/dune.epub").as_deref(),
        Some("Dune - Frank Herbert.epub")
    );
    assert_eq!(
        library_file_name("Dune", "Frank Herbert", "dune.kepub.epub").as_deref(),
        Some("Dune - Frank Herbert.kepub")
    );
    assert_eq!(
        library_file_name("Dune", "Frank Herbert", "dune.kepub").as_deref(),
        Some("Dune - Frank Herbert.kepub")
    );
    assert_eq!(library_file_name("Dune", "Frank Herbert", "dune.txt"), None);
}

#[test]
fn a_saved_cover_is_noted_on_the_book() {
    let mut catalog = Catalog::new();
    let m = BookMetadata {
        title: "Dune".to_string(),
        author: "Frank Herbert".to_string(),
        path: "dune.epub".to_string(),
        description: None,
        language: None,
        isbn: None,
        rights: None,
        subtitle: None,
        series: None,
        series_index: None,
        publisher: None,
        pubdate: None,
        file_size: 1,
    };
    assert!(upsert_book(&mut catalog, &m, false, false, "u", "now").is_ok());
    let before = catalog.clone();
    assert!(!mark_cover_saved(&mut catalog, 9));
    assert_eq!(catalog, before);
    assert!(mark_cover_saved(&mut catalog, 1));
    assert!(catalog.books[0].has_cover);
    assert_eq!(catalog.books[0].title, "Dune");
    assert_eq!(catalog.books[0].path, before.books[0].path);
}

#[test]
fn covers_and_sidecars_are_no_content() {
    assert!(is_content_extension("epub"));
    assert!(is_content_extension("JPG"));
    assert!(is_content_extension(""));
    assert!(!is_content_extension("jpg"));
    assert!(!is_content_extension("opf"));
}

#[test]
fn book_files_are_known_by_the_end_of_their_name() {
    assert!(is_book_file_name("/lib/A/B (1)/B - A.epub"));
    assert!(is_book_file_name("x.KEPUB"));
    assert!(is_book_file_name("x.kepub.EPUB"));
    assert!(!is_book_file_name("cover.jpg"));
    assert!(!is_book_file_name("epub"));
    assert!(is_import_extension("epub"));
    assert!(is_import_extension("KePub"));
    assert!(!is_import_extension("pdf"));
    assert!(!is_import_extension(".epub"));
    assert!(!is_import_extension(""));
}
