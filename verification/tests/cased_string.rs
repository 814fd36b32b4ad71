use fretwire::case::Case;
use fretwire::cased_string::CasedString;
use fretwire::locale::Locale;

#[test]
fn test_upper_string() {
    let locale: Locale = "".parse().unwrap();
    let mut string = "Some good Weather".to_owned();

    string.first_char_to_upper(&locale);

    assert_eq!(string, "Some good Weather");

    string.first_char_to_lower(&locale);

    assert_eq!(string, "some good Weather");
}

#[test]
fn test_lower_string() {
    let locale: Locale = "".parse().unwrap();
    let mut string = "some good Weather".to_owned();

    string.first_char_to_lower(&locale);

    assert_eq!(string, "some good Weather");

    string.first_char_to_upper(&locale);

    assert_eq!(string, "Some good Weather");
}

#[test]
fn cased_string_only_first_character_changes() {
    let locale: Locale = "".parse().unwrap();
    let mut string = "ßAB".to_owned();
    string.first_char_to_upper(&locale);
    assert_eq!(string, "SsAB");

    let mut string = "ÄBC".to_owned();
    string.first_char_to_lower(&locale);
    assert_eq!(string, "äBC");
}

#[test]
fn cased_string_empty_and_case() {
    let locale: Locale = "".parse().unwrap();
    let mut string = String::new();
    string.first_char_to_upper(&locale);
    assert_eq!(string, "");
    string.first_char_to_lower(&locale);
    assert_eq!(string, "");
    assert_eq!(string.first_char_case(&locale), None);
    assert_eq!("Їжак".to_owned().first_char_case(&locale), Some(Case::Upper));
    assert_eq!("їжак".to_owned().first_char_case(&locale), Some(Case::Lower));
    assert_eq!("1st".to_owned().first_char_case(&locale), Some(Case::Neutral));
}
