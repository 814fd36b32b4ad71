use fretwire::locale::Locale;
use fretwire::paragraph::Paragraph;
use indexmap::IndexMap;

/// A small deterministic source of pseudo-random numbers.
struct Lcg(u64);

impl Lcg {
    fn next(&mut self, bound: u64) -> u64 {
        self.0 = self.0.wrapping_mul(6364136223846793005).wrapping_add(1442695040888963407);
        (self.0 >> 33) % bound
    }
}

const ALPHABET: [char; 20] = [
    'a', 'b', 'c', 'A', 'B', 'C', 'є', 'Є', 'ї', 'Ї', '1', '-', '«', ' ', '\t', 'ǆ', 'ǅ', 'Ǆ', 'ª',
    'ĸ',
];

fn random_lines(rng: &mut Lcg) -> Vec<String> {
    let count = rng.next(14);
    (0..count)
        .map(|_| {
            let length = rng.next(6);
            (0..length).map(|_| ALPHABET[rng.next(ALPHABET.len() as u64) as usize]).collect()
        })
        .collect()
}

fn format(lines: impl IntoIterator<Item = String>) -> Vec<String> {
    let locale: Locale = "".parse().unwrap();
    let mut paragraph = Paragraph::new(&locale, " ");

    let mut result = Vec::new();
    for line in lines {
        result.extend(paragraph.feed(line));
    }

    result.extend(paragraph.flush());
    result
}

#[test]
fn paragraph_test_idempotence() {
    let mut rng = Lcg(3);
    for _ in 0..400 {
        let lines = random_lines(&mut rng);
        let first_result = format(lines);
        let second_result = format(first_result.clone());

        assert_eq!(first_result, second_result);
    }
}

#[test]
fn test_empty_rows() {
    let mut rng = Lcg(5);
    for _ in 0..400 {
        let lines = random_lines(&mut rng);
        let result = format(lines);

        let mut streak = 0;

        for line in &result {
            if line.is_empty() {
                streak += 1;

                assert!(streak <= 2);
            } else {
                streak = 0
            }
        }

        assert!(result.first().map(|s| s.is_empty()) != Some(true));
        assert!(result.last().map(|s| s.is_empty()) != Some(true));
    }
}

#[test]
fn test_row_count() {
    let mut rng = Lcg(17);
    for _ in 0..400 {
        let lines = random_lines(&mut rng);
        let length = lines.len();
        let result = format(lines);

        assert!(length >= result.len());
    }
}

#[test]
fn paragraph_test_loop() {
    let locale: Locale = "uk-UA".parse().unwrap();
    let mut paragraph = Paragraph::new(&locale, ">>");

    let mut result = Vec::new();
    for line in [
        "",
        "Перший рядок   ",
        "second line\n\r",
        "Another  ",
        "delete me >>",
        "delete me as well >>  ",
        "another",
        "3 three\r\n",
        "move me \t>> destination \n",
        "move me 2>> destination \n",
        "   ",
        "",
        "",
        "\n",
        "",
        "x",
        "",
        "a X",
        "Є d",
        "b   ",
        "   ",
        "\n",
    ] {
        result.extend(paragraph.feed(line.into()));
    }

    assert_eq!(result.len(), 7);

    result.extend(paragraph.flush());

    assert_eq!(
        result,
        vec![
            "3 three",
            "Перший рядок",
            "Another",
            "Second line",
            "",
            "",
            "x",
            "",
            "є d",
            "a X",
            "b",
        ]
    );

    let mut detached_rows = IndexMap::new();

    detached_rows.insert(
        "destination".to_owned(),
        vec!["move me \t".to_owned(), "move me 2".into()],
    );

    assert_eq!(paragraph.detached_rows(), detached_rows);
}

#[test]
fn paragraph_detached_rows_keep_destination_order() {
    let locale: Locale = "".parse().unwrap();
    let mut paragraph = Paragraph::new(&locale, "->");
    assert!(paragraph.feed("one -> b".to_owned()).is_empty());
    assert!(paragraph.feed("two -> a".to_owned()).is_empty());
    assert!(paragraph.feed("three ->b".to_owned()).is_empty());
    assert!(paragraph.feed("kept".to_owned()).is_empty());
    assert_eq!(paragraph.flush(), vec!["kept"]);
    assert!(paragraph.flush().is_empty());
    let detached = paragraph.detached_rows();
    let entries: Vec<(String, Vec<String>)> = detached.into_iter().collect();
    assert_eq!(
        entries,
        vec![
            ("b".to_owned(), vec!["one ".to_owned(), "three ".to_owned()]),
            ("a".to_owned(), vec!["two ".to_owned()]),
        ]
    );
}

#[test]
fn paragraph_flush_not_empty_writes_rows() {
    let locale: Locale = "".parse().unwrap();
    let mut paragraph = Paragraph::new(&locale, ">>");
    paragraph.feed("b".to_owned());
    paragraph.feed("A".to_owned());
    assert_eq!(paragraph.flush_not_empty(), vec!["A", "B"]);
}

#[test]
fn paragraph_writes_only_unmarked_rows() {
    let locale: Locale = "".parse().unwrap();
    let mut paragraph = Paragraph::new(&locale, "#");
    let mut result = Vec::new();
    for line in ["b", "# dropped", "a # to x", "", "c"] {
        result.extend(paragraph.feed(line.to_owned()));
    }
    result.extend(paragraph.flush());
    assert_eq!(result, vec!["b", "", "c"]);
}

#[test]
fn paragraph_rows_the_mapping_keeps_do_not_count() {
    let lines: Vec<String> = ["ªa", "ªb", "A", "A"].iter().map(|s| s.to_string()).collect();
    let first = format(lines);
    assert_eq!(first, vec!["A", "ªa", "ªb"]);
    assert_eq!(format(first.clone()), first);
}
