use shelfkeeper::text::{get_author_sort, get_title_sort, normalize_language, title_sort_logic};

#[test]
fn test_title_sort_logic() {
    assert_eq!(title_sort_logic("The Great Gatsby"), "Great Gatsby, The");
    assert_eq!(title_sort_logic("A Tale of Two Cities"), "Tale of Two Cities, A");
    assert_eq!(title_sort_logic("An American Tragedy"), "American Tragedy, An");
    assert_eq!(title_sort_logic("Normal Title"), "Normal Title");
}

#[test]
fn title_sort_logic_folds_case_and_knows_other_articles() {
    assert_eq!(title_sort_logic("the hobbit"), "hobbit, the");
    assert_eq!(title_sort_logic("LES Miserables"), "Miserables, LES");
    assert_eq!(title_sort_logic("El Aleph"), "Aleph, El");
    assert_eq!(title_sort_logic("Theory of Games"), "Theory of Games");
    assert_eq!(title_sort_logic("A "), ", A");
    assert_eq!(title_sort_logic(""), "");
}

#[test]
fn stored_title_sort_trims_and_folds_case() {
    assert_eq!(get_title_sort("The Great Gatsby"), "Great Gatsby, The");
    assert_eq!(get_title_sort("  A Tale of Two Cities  "), "Tale of Two Cities, A");
    assert_eq!(get_title_sort("An American Tragedy"), "American Tragedy, An");
    assert_eq!(get_title_sort("the hobbit"), "hobbit, the");
    assert_eq!(get_title_sort("the great gatsby"), "great gatsby, the");
    assert_eq!(get_title_sort("AN American Tragedy"), "American Tragedy, AN");
    assert_eq!(get_title_sort("Les Miserables"), "Les Miserables");
    assert_eq!(get_title_sort("The "), "The");
    assert_eq!(get_title_sort("Dune"), "Dune");
}

#[test]
fn author_sort_puts_the_surname_first() {
    assert_eq!(get_author_sort("F. Scott Fitzgerald"), "Fitzgerald, F. Scott");
    assert_eq!(get_author_sort("John Doe"), "Doe, John");
    assert_eq!(get_author_sort("  Jane   Q.  Public "), "Public, Jane Q.");
    assert_eq!(get_author_sort("Plato"), "Plato");
    assert_eq!(get_author_sort("  Plato  "), "Plato");
    assert_eq!(get_author_sort(""), "");
}

#[test]
fn author_sort_keeps_a_suffix_with_the_surname() {
    assert_eq!(get_author_sort("Martin Luther King Jr."), "King, Jr., Martin Luther");
    assert_eq!(get_author_sort("Henry Ford ii"), "Ford, ii, Henry");
    assert_eq!(get_author_sort("Sammy Davis JR"), "Davis, JR, Sammy");
    assert_eq!(get_author_sort("Smith Jr."), "Smith, Jr.");
    assert_eq!(get_author_sort("King jr"), "King, jr");
    assert_eq!(get_author_sort("Jr."), "Jr.");
}

#[test]
fn language_codes_are_normalised() {
    assert_eq!(normalize_language("en"), "eng");
    assert_eq!(normalize_language("en-US"), "eng");
    assert_eq!(normalize_language(" FR_ca "), "fra");
    assert_eq!(normalize_language("deu"), "deu");
    assert_eq!(normalize_language("ko"), "kor");
    assert_eq!(normalize_language("xx"), "und");
    assert_eq!(normalize_language("tlh"), "und");
    assert_eq!(normalize_language(""), "und");
    assert_eq!(normalize_language("english"), "und");
    assert_eq!(normalize_language("\u{212A}or"), "kor");
}
