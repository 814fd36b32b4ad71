use fretwire::case::Case;
use fretwire::locale::Locale;
use fretwire::paragraph::row::Row;

#[test]
fn row_test_trailing_whitespace() {
    let row = Row::from_str("abc \t  \n");
    assert_eq!(row.as_str(), "abc");

    let row = fretwire::row::Row::new(String::from("abc \t  \n"));
    assert_eq!(row.as_str(), "abc");
}

#[test]
fn test_first_char_to_upper() {
    let locale: Locale = "".parse().unwrap();
    let string = "Some good Weather";
    let mut row = Row::from_str(string);

    assert_eq!(row.as_str(), string);

    row.first_char_to_upper(&locale);

    assert_eq!(row.as_str(), string);

    row = Row::from_str("some good Weather");

    row.first_char_to_upper(&locale);

    assert_eq!(row.as_str(), string);
}

#[test]
fn test_first_char_to_lower() {
    let locale: Locale = "".parse().unwrap();
    let string = "some good Weather";
    let mut row = Row::from_str(string);

    assert_eq!(row.as_str(), string);

    row.first_char_to_lower(&locale);

    assert_eq!(row.as_str(), string);

    let mut row = Row::from_str(string);

    row.first_char_to_lower(&locale);

    assert_eq!(row.as_str(), "some good Weather");
}

#[test]
fn row_from_string_and_back() {
    let row = Row::from_string("Рядок \u{3000}\u{a0}".to_owned());
    assert_eq!(row.into_string(), "Рядок");
    let row = Row::from_str("  inner  space  ");
    assert_eq!(row.as_str(), "  inner  space");
}

#[test]
fn row_case_of_first_character() {
    let locale: Locale = "".parse().unwrap();
    assert_eq!(Row::from_str("Abc").case(&locale), Some(Case::Upper));
    assert_eq!(Row::from_str("abc").case(&locale), Some(Case::Lower));
    assert_eq!(Row::from_str("-abc").case(&locale), Some(Case::Neutral));
    assert_eq!(Row::from_str(" \t").case(&locale), None);
    assert_eq!(fretwire::row::Row::new("Abc".to_owned()).case(&locale), Some(Case::Upper));
    assert_eq!(fretwire::row::Row::new(String::new()).case(&locale), None);
}

#[test]
fn plain_row_upper_lowercases_whole_row() {
    let locale: Locale = "".parse().unwrap();
    let mut row = fretwire::row::Row::new("Some Good WEATHER  ".to_owned());
    row.first_char_to_upper(&locale);
    assert_eq!(row.as_str(), "some good weather");
}
