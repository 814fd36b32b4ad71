use fretwire::format::error::Error;
use fretwire::format::{try_move, Formatter};
use fretwire::locale::Locale;
use fretwire::move_policy::MovePolicy;
use fretwire::moved_lines::MovedLines;
use std::collections::HashMap;

fn policy(marker: &str, allow_external_writes: bool, allow_deletions: bool) -> MovePolicy<'_> {
    MovePolicy { marker, allow_external_writes, allow_deletions }
}

fn as_map(moved: MovedLines) -> HashMap<String, Vec<String>> {
    moved.into_entries().into_iter().collect()
}

fn written(lines: &[String]) -> String {
    let mut text = String::new();
    for line in lines {
        text.push_str(line);
        text.push('\n');
    }
    text
}

#[test]
fn test_format() {
    let locale: Locale = "uk-UA".parse().unwrap();
    let prepend_lines = vec![String::new(), "another".into(), "Перший рядок   ".into()];
    let content = [
        "second line",
        "3 three",
        "Another  ",
        "move me \t:> destination   ",
        "delete me     :> \t",
        "move me as well:>./destination ",
        "move me not there:>  .././../destination2",
        "   ",
        "",
        "",
        "\n",
        "",
        "x",
        "",
        "a X",
        "Є d",
        "b   ",
        "   ",
        "",
    ];
    let content = content.join("\n");
    let source: Vec<String> = content.lines().map(String::from).collect();

    let mut lines = HashMap::new();
    lines.insert(
        "destination".to_owned(),
        vec!["move me \t".to_owned(), "move me as well".to_owned()],
    );
    lines.insert("../../destination2".to_owned(), vec!["move me not there".to_owned()]);

    let (sink, moved) = fretwire::format::format(source, &locale, policy(":>", true, true), prepend_lines).unwrap();

    assert_eq!(as_map(moved), lines);

    let expected = [
        "3 three",
        "Перший рядок",
        "Another",
        "Second line",
        "",
        "",
        "x",
        "",
        "є d",
        "a X",
        "b",
        "",
    ];

    assert_eq!(written(&sink), expected.join("\n"));
}

#[test]
fn format_deletion_forbidden() {
    let locale: Locale = "".parse().unwrap();
    let source = vec!["keep".to_owned(), "drop me :>  ".to_owned(), "later :> x".to_owned()];
    match fretwire::format::format(source, &locale, policy(":>", true, false), Vec::new()) {
        Err(Error::DeletionForbidden { line }) => assert_eq!(line, "drop me :>  "),
        other => panic!("unexpected result: {:?}", other.map(|(lines, _)| lines)),
    }
}

#[test]
fn format_external_write_forbidden() {
    let locale: Locale = "".parse().unwrap();
    let source = vec!["deleted :>".to_owned(), "go :>  there/./file ".to_owned()];
    match fretwire::format::format(source, &locale, policy(":>", false, true), Vec::new()) {
        Err(Error::ExternalWriteForbidden { line, path }) => {
            assert_eq!(line, "go :>  there/./file ");
            assert_eq!(path, "there/./file");
        }
        other => panic!("unexpected result: {:?}", other.map(|(lines, _)| lines)),
    }
}

#[test]
fn format_empty_marker_moves_nothing() {
    let locale: Locale = "".parse().unwrap();
    let source = vec!["b :> x".to_owned(), "a".to_owned()];
    let (lines, moved) = fretwire::format::format(source, &locale, policy("", false, false), Vec::new()).unwrap();
    assert_eq!(lines, vec!["a", "b :> x"]);
    assert!(moved.is_empty());
}

#[test]
fn format_cleans_destination_paths() {
    let locale: Locale = "".parse().unwrap();
    let source = vec![
        "one:> ./dir//file ".to_owned(),
        "two:>dir/sub/../file".to_owned(),
        "three:> a/./b/".to_owned(),
    ];
    let (lines, moved) = fretwire::format::format(source, &locale, policy(":>", true, true), Vec::new()).unwrap();
    assert!(lines.is_empty());
    assert_eq!(moved.len(), 2);
    assert_eq!(
        moved.into_entries(),
        vec![
            ("dir/file".to_owned(), vec!["one".to_owned(), "two".to_owned()]),
            ("a/b".to_owned(), vec!["three".to_owned()]),
        ]
    );
}

#[test]
fn try_move_decisions() {
    let mut moved = MovedLines::new();
    assert_eq!(
        try_move("plain".to_owned(), policy(":>", true, true), &mut moved).unwrap(),
        Some("plain".to_owned())
    );
    assert_eq!(try_move("gone :> ".to_owned(), policy(":>", true, true), &mut moved).unwrap(), None);
    assert!(moved.is_empty());
    assert_eq!(try_move("x :> ./y".to_owned(), policy(":>", true, true), &mut moved).unwrap(), None);
    assert_eq!(moved.into_entries(), vec![("y".to_owned(), vec!["x ".to_owned()])]);
}

#[test]
fn formatter_streams_lines() {
    let locale: Locale = "".parse().unwrap();
    let mut formatter = Formatter::new(&locale, policy(">>", true, true));
    assert!(formatter.prepend("b >> not moved".to_owned()).is_empty());
    assert!(formatter.feed("A".to_owned()).unwrap().is_empty());
    assert!(formatter.feed("".to_owned()).unwrap().is_empty());
    assert!(formatter.feed("c >> elsewhere".to_owned()).unwrap().is_empty());
    assert_eq!(formatter.feed("z".to_owned()).unwrap(), vec!["A", "B >> not moved"]);
    let (tail, moved) = formatter.finish();
    assert_eq!(tail, vec!["", "z"]);
    assert_eq!(as_map(moved).get("elsewhere"), Some(&vec!["c ".to_owned()]));
}

#[test]
fn format_idempotent_on_its_output() {
    let locale: Locale = "uk-UA".parse().unwrap();
    let source: Vec<String> = ["б", "А", "", "", "", "в :> elsewhere", "x", "X  ", ""]
        .iter()
        .map(|s| s.to_string())
        .collect();
    let (first, _) =
        fretwire::format::format(source, &locale, policy(":>", true, true), vec!["а".into()])
            .unwrap();
    assert_eq!(first, vec!["а", "б", "", "", "X"]);
    let (second, moved) =
        fretwire::format::format(first.clone(), &locale, policy(":>", true, true), Vec::new())
            .unwrap();
    assert_eq!(second, first);
    assert!(moved.is_empty());
}

#[test]
fn format_without_external_writes_moves_nothing() {
    let locale: Locale = "".parse().unwrap();
    let source = vec!["b".to_owned(), "gone :>   ".to_owned(), "a".to_owned()];
    let (lines, moved) =
        fretwire::format::format(source, &locale, policy(":>", false, true), Vec::new()).unwrap();
    assert_eq!(lines, vec!["a", "b"]);
    assert!(moved.is_empty());
}
