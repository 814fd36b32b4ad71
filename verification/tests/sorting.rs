use fretwire::locale::Locale;
use fretwire::sorting::{dedup_by_collation, insert_line, sort_by_collation};

fn strings(items: &[&str]) -> Vec<String> {
    items.iter().map(|s| s.to_string()).collect()
}

#[test]
fn sorting_sorts_by_collation() {
    let locale: Locale = "".parse().unwrap();
    let sorted = sort_by_collation(strings(&["b", "A", "a", "c", "B"]), &locale);
    assert_eq!(sorted, vec!["a", "A", "b", "B", "c"]);
    let uk: Locale = "uk-UA".parse().unwrap();
    let sorted = sort_by_collation(strings(&["ж", "є", "е", "ґ", "г"]), &uk);
    assert_eq!(sorted, vec!["г", "ґ", "е", "є", "ж"]);
}

#[test]
fn sorting_dedup_keeps_first_of_equal_runs() {
    let locale: Locale = "".parse().unwrap();
    let deduped = dedup_by_collation(strings(&["a", "a", "b", "a", "c", "c"]), &locale);
    assert_eq!(deduped, vec!["a", "b", "a", "c"]);
    assert!(dedup_by_collation(Vec::new(), &locale).is_empty());
}

#[test]
fn sorting_insert_line_keeps_order() {
    let locale: Locale = "".parse().unwrap();
    let mut lines = strings(&["a", "c", "e"]);
    insert_line(&mut lines, "d".to_owned(), &locale);
    insert_line(&mut lines, "0".to_owned(), &locale);
    insert_line(&mut lines, "z".to_owned(), &locale);
    insert_line(&mut lines, "c".to_owned(), &locale);
    assert_eq!(lines, vec!["0", "a", "c", "c", "d", "e", "z"]);
}
