use shelfkeeper::extract::{
    first_isbn, isbn_of, parse_year, read_pubdate, series_from_title, series_index_text,
};

#[test]
fn an_isbn_follows_its_urn_or_is_made_of_digits() {
    assert_eq!(isbn_of("urn:isbn:9780743273565").as_deref(), Some("9780743273565"));
    assert_eq!(isbn_of("  urn:isbn:urn:isbn:12  ").as_deref(), Some("12"));
    assert_eq!(isbn_of("urn:isbn:").as_deref(), Some(""));
    assert_eq!(isbn_of("978-0-7432-7356-5").as_deref(), Some("9780743273565"));
    assert_eq!(isbn_of("0-306-40615-2").as_deref(), Some("0306406152"));
    assert_eq!(isbn_of("ISBN 0306406152 "), Some("0306406152".to_string()));
    assert_eq!(isbn_of("12345"), None);
    assert_eq!(isbn_of("uuid:7c9e6679-7425-40de-944b-e07fc1f90ae7"), None);
    assert_eq!(isbn_of(""), None);
    assert_eq!(isbn_of("URN:ISBN:9780743273565").as_deref(), Some("9780743273565"));
}

#[test]
fn the_first_identifier_with_an_isbn_wins() {
    let ids = vec![
        "uuid:abc".to_string(),
        "urn:isbn:111".to_string(),
        "9780743273565".to_string(),
    ];
    assert_eq!(first_isbn(&ids).as_deref(), Some("111"));
    assert_eq!(first_isbn(&vec!["nothing".to_string()]), None);
    assert_eq!(first_isbn(&Vec::new()), None);
}

#[test]
fn a_title_may_name_its_series() {
    assert_eq!(series_from_title("Discworld #3 - Equal Rites").as_deref(), Some("Discworld"));
    assert_eq!(series_from_title("  The Expanse  #2.5 - Drive ").as_deref(), Some("The Expanse"));
    assert_eq!(series_from_title("Discworld #3"), None);
    assert_eq!(series_from_title("A - B #3"), None);
    assert_eq!(series_from_title("#3 - Untitled"), None);
    assert_eq!(series_from_title("No series here"), None);
    assert_eq!(series_from_title(""), None);
}

#[test]
fn a_title_may_name_its_series_index() {
    assert_eq!(series_index_text("Discworld #3 - Equal Rites").as_deref(), Some("3"));
    assert_eq!(series_index_text("The Expanse #2.5 - Drive").as_deref(), Some("2.5"));
    assert_eq!(series_index_text("Odd #1.2.3x").as_deref(), Some("1.2.3"));
    assert_eq!(series_index_text("Sharp # 4").as_deref(), Some(""));
    assert_eq!(series_index_text("Last #").as_deref(), Some(""));
    assert_eq!(series_index_text("None"), None);
}

#[test]
fn publication_dates_are_read_in_several_forms() {
    assert_eq!(read_pubdate("2020-01-02T03:04:05Z"), Some(1_577_934_245_000_000));
    assert_eq!(read_pubdate("2020-01-02T05:04:05+02:00"), Some(1_577_934_245_000_000));
    assert_eq!(read_pubdate(" 2020-01-02 "), Some(1_577_923_200_000_000));
    assert_eq!(read_pubdate("2 January 2020"), Some(1_577_923_200_000_000));
    assert_eq!(read_pubdate("2 Jan 2020"), Some(1_577_923_200_000_000));
    assert_eq!(read_pubdate("2020-01"), Some(1_577_836_800_000_000));
    assert_eq!(read_pubdate("2020"), Some(1_577_836_800_000_000));
    assert_eq!(read_pubdate("1969"), Some(-31_536_000_000_000));
    assert_eq!(read_pubdate("999999999"), None);
    assert_eq!(read_pubdate("last year"), None);
    assert_eq!(read_pubdate(""), None);
}

#[test]
fn years_are_signed_decimal_numbers() {
    assert_eq!(parse_year("2020"), Some(2020));
    assert_eq!(parse_year("007"), Some(7));
    assert_eq!(parse_year("-5"), Some(-5));
    assert_eq!(parse_year("+7"), Some(7));
    assert_eq!(parse_year("-0"), Some(0));
    assert_eq!(parse_year("2147483647"), Some(i32::MAX));
    assert_eq!(parse_year("-2147483648"), Some(i32::MIN));
    assert_eq!(parse_year("2147483648"), None);
    assert_eq!(parse_year("-2147483649"), None);
    assert_eq!(parse_year("99999999999999999999999999"), None);
    assert_eq!(parse_year(""), None);
    assert_eq!(parse_year("-"), None);
    assert_eq!(parse_year("+"), None);
    assert_eq!(parse_year("--1"), None);
    assert_eq!(parse_year("12a"), None);
    assert_eq!(parse_year(" 12"), None);
    for text in ["2020", "-5", "+7", "", "-", "2147483648", "-2147483648", "1e3", "٣"] {
        assert_eq!(parse_year(text), text.parse::<i32>().ok());
    }
}
