use fretwire::locale::Locale;
use fretwire::state_machine::StateMachine;

/// A small deterministic source of pseudo-random numbers.
struct Lcg(u64);

impl Lcg {
    fn next(&mut self, bound: u64) -> u64 {
        self.0 = self.0.wrapping_mul(6364136223846793005).wrapping_add(1442695040888963407);
        (self.0 >> 33) % bound
    }
}

const ALPHABET: [char; 22] = [
    'a', 'b', 'c', 'A', 'B', 'C', 'є', 'Є', 'ї', 'Ї', '1', '-', '«', ' ', ' ', '\t', 'ǆ', 'ǅ', 'Ǆ',
    '\r', 'ª', 'ĸ',
];

fn random_lines(rng: &mut Lcg) -> Vec<String> {
    let count = rng.next(14);
    (0..count)
        .map(|_| {
            let length = rng.next(6);
            (0..length).map(|_| ALPHABET[rng.next(ALPHABET.len() as u64) as usize]).collect()
        })
        .collect()
}

fn format(lines: impl IntoIterator<Item = String>) -> Vec<String> {
    let locale: Locale = "".parse().unwrap();
    let mut machine = StateMachine::new(&locale);

    let mut result = Vec::new();
    for line in lines {
        result.extend(machine.feed(line));
    }

    result.extend(machine.flush());
    result
}

#[test]
fn state_machine_test_idempotence() {
    let mut rng = Lcg(7);
    for _ in 0..400 {
        let lines = random_lines(&mut rng);
        let first_result = format(lines);
        let second_result = format(first_result.clone());

        assert_eq!(first_result, second_result);
    }
}

#[test]
fn test_empty_lines() {
    let mut rng = Lcg(11);
    for _ in 0..400 {
        let lines = random_lines(&mut rng);
        let result = format(lines);

        let mut streak = 0;

        for line in &result {
            if line.is_empty() {
                streak += 1;

                assert!(streak <= 2);
            } else {
                streak = 0
            }
        }

        assert!(result.first().map(|s| s.is_empty()) != Some(true));
        assert!(result.last().map(|s| s.is_empty()) != Some(true));
    }
}

#[test]
fn test_line_count() {
    let mut rng = Lcg(13);
    for _ in 0..400 {
        let lines = random_lines(&mut rng);
        let length = lines.len();
        let result = format(lines);

        assert!(length >= result.len());
    }
}

#[test]
fn state_machine_test_loop() {
    let locale: Locale = "uk-UA".parse().unwrap();
    let mut machine = StateMachine::new(&locale);

    let mut result = Vec::new();
    for line in [
        "",
        "Перший рядок   ",
        "second line\n\r",
        "Another  ",
        "another",
        "3 three\r\n",
        "   ",
        "",
        "",
        "\n",
        "",
        "x",
        "",
        "a",
        "B",
        "",
        "a X",
        "Є d",
        "b   ",
        "   ",
        "\n",
    ] {
        result.extend(machine.feed(line.into()));
    }

    assert_eq!(result.len(), 10);

    result.extend(machine.flush());

    assert_eq!(
        result,
        vec![
            "3 three",
            "Перший рядок",
            "Another",
            "Second line",
            "",
            "",
            "x",
            "",
            "A",
            "B",
            "",
            "є d",
            "a X",
            "b",
        ]
    );
}

#[test]
fn state_machine_majority_lowercase() {
    let result = format(["b one".to_owned(), "Ab".to_owned(), "c".to_owned()]);
    assert_eq!(result, vec!["ab", "b one", "c"]);
}

#[test]
fn state_machine_repeated_lines_collapse() {
    let result = format(["Same".to_owned(), "same".to_owned(), "Same  ".to_owned()]);
    assert_eq!(result, vec!["Same"]);
}

#[test]
fn state_machine_nothing_but_blanks() {
    let result = format(["".to_owned(), "  ".to_owned(), "\t".to_owned()]);
    assert!(result.is_empty());
    assert!(format(Vec::new()).is_empty());
}

#[test]
fn state_machine_format_lines_matches_feeding() {
    let locale: Locale = "".parse().unwrap();
    let mut rng = Lcg(19);
    for _ in 0..200 {
        let lines = random_lines(&mut rng);
        assert_eq!(
            fretwire::state_machine::format_lines(&locale, lines.clone()),
            format(lines)
        );
    }
}

#[test]
fn state_machine_paragraphs_strictly_sorted() {
    let locale: Locale = "".parse().unwrap();
    let result = fretwire::state_machine::format_lines(
        &locale,
        ["c", "a", "b", "a", "C"].iter().map(|s| s.to_string()).collect(),
    );
    assert_eq!(result, vec!["a", "b", "c"]);
    for pair in result.windows(2) {
        assert_eq!(locale.compare(&pair[0], &pair[1]), std::cmp::Ordering::Less);
    }
}

#[test]
fn state_machine_lines_the_mapping_keeps_do_not_count() {
    let lines: Vec<String> = ["ªa", "ªb", "A", "A"].iter().map(|s| s.to_string()).collect();
    let first = format(lines);
    assert_eq!(first, vec!["A", "ªa", "ªb"]);
    assert_eq!(format(first.clone()), first);

    let lines: Vec<String> = ["X", "X", "ĸa", "ĸb"].iter().map(|s| s.to_string()).collect();
    let first = format(lines);
    assert_eq!(format(first.clone()), first);
}
