use fretwire::case::Case;
use fretwire::case_relation::CaseRelation;
use fretwire::locale::{Locale, Order};
use std::cmp::Ordering;

const TITLECASE_DIGRAPH: char = '\u{01C5}';
const LOWERCASE_DIGRAPH: char = '\u{01C6}';
const UPPERCASE_DIGRAPH: char = '\u{01C4}';

fn locale(descriptor: &str) -> Locale {
    descriptor.parse().unwrap()
}

#[test]
fn test_valid_descriptors() {
    locale("uk-UA");
    locale("en-US");
    locale("en-GB");
}

#[test]
fn test_valid_descriptor() {
    Locale::try_new("en-US").unwrap();
}

#[test]
fn locale_test_invalid_descriptor() {
    assert!("?".parse::<Locale>().is_err());
    assert!(Locale::try_new("?").is_none());
}

#[test]
fn locale_test_upper() {
    assert_eq!(locale("").case('Є'), Case::Upper);
    assert_eq!(locale("").case(TITLECASE_DIGRAPH), Case::Upper);
    assert_eq!(locale("").case(UPPERCASE_DIGRAPH), Case::Upper);
}

#[test]
fn locale_test_lower() {
    assert_eq!(locale("").case('є'), Case::Lower);
    assert_eq!(locale("").case(LOWERCASE_DIGRAPH), Case::Lower);
}

#[test]
fn locale_test_neutral() {
    assert_eq!(locale("").case('1'), Case::Neutral);
    assert_eq!(locale("").case('-'), Case::Neutral);
    assert_eq!(locale("").case('«'), Case::Neutral);
    assert_eq!(locale("").case('\u{1f680}'), Case::Neutral);
}

#[test]
fn locale_test_to_upper() {
    assert_eq!(locale("").to_title("ii"), "Ii");
    assert_eq!(locale("").to_title("ßS"), "Sss");
    assert_eq!(locale("tr-TR").to_title("ii"), "İi");
    assert_eq!(
        locale("").to_title(&LOWERCASE_DIGRAPH.to_string()),
        TITLECASE_DIGRAPH.to_string(),
    );

    assert_eq!(locale("").first_char_to_upper("ii"), "Ii");
    assert_eq!(locale("").first_char_to_upper("ß"), "Ss");
    assert_eq!(locale("tr-TR").first_char_to_upper("ii"), "İi");
    assert_eq!(
        locale("").first_char_to_upper(&LOWERCASE_DIGRAPH.to_string()),
        TITLECASE_DIGRAPH.to_string(),
    );
}

#[test]
fn locale_test_to_lower() {
    assert_eq!(locale("").to_lower("Ґрунт: А"), "ґрунт: а");
    assert_eq!(
        locale("").to_lower(&TITLECASE_DIGRAPH.to_string()),
        LOWERCASE_DIGRAPH.to_string(),
    );
    assert_eq!(
        locale("").to_lower(&UPPERCASE_DIGRAPH.to_string()),
        LOWERCASE_DIGRAPH.to_string(),
    );

    assert_eq!(locale("").first_char_to_lower("Ґрунт"), "ґрунт");
    assert_eq!(
        locale("").first_char_to_lower(&TITLECASE_DIGRAPH.to_string()),
        LOWERCASE_DIGRAPH.to_string(),
    );
    assert_eq!(
        locale("").first_char_to_lower(&UPPERCASE_DIGRAPH.to_string()),
        LOWERCASE_DIGRAPH.to_string(),
    );
}

#[test]
fn locale_empty_descriptor_is_root() {
    assert!(Locale::try_new("").is_some());
}

#[test]
fn locale_case_relation_of_characters() {
    let root = locale("");
    assert_eq!(root.case_relation('a'), CaseRelation::Unstable(Case::Lower));
    assert_eq!(root.case_relation('Z'), CaseRelation::Unstable(Case::Upper));
    assert_eq!(root.case_relation('7'), CaseRelation::Stable);
}

#[test]
fn locale_compare_and_order() {
    let root = locale("");
    assert_eq!(root.compare("a", "b"), Ordering::Less);
    assert_eq!(root.compare("b", "a"), Ordering::Greater);
    assert_eq!(root.compare("a", "a"), Ordering::Equal);
    assert_eq!(root.order("a", "B"), Order::Less);
    assert_eq!(root.order("z", "a"), Order::Greater);
    assert_eq!(root.order("x", "x"), Order::Equal);
}

#[test]
fn locale_clone_keeps_rules() {
    let turkish = locale("tr-TR");
    let copy = turkish.clone();
    assert_eq!(copy.to_title("ii"), "İi");
}
