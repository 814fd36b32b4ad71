use fretwire::text::{chars_of, find, is_whitespace, split_once, trim, trim_end};

#[test]
fn text_whitespace_matches_unicode() {
    for code in 0..=0x10FFFFu32 {
        if let Some(c) = char::from_u32(code) {
            assert_eq!(is_whitespace(c), c.is_whitespace(), "U+{:04X}", code);
        }
    }
}

#[test]
fn text_trim_matches_str() {
    let samples = [
        "",
        "   ",
        "abc \t  \n",
        "\u{3000} wide \u{2028}",
        "  inner  space  ",
        "\u{85}x\u{a0}",
        "nothing",
    ];
    for sample in samples {
        assert_eq!(trim_end(sample), sample.trim_end());
        assert_eq!(trim(sample), sample.trim());
    }
}

#[test]
fn text_split_once_matches_str() {
    let samples = [
        ("move me :> there", ":>"),
        ("no marker here", ":>"),
        (":>at start", ":>"),
        ("at end:>", ":>"),
        ("twice >> and >> again", ">>"),
        ("ä→ö→ü", "→"),
        ("short", "longer than the text"),
    ];
    for (text, marker) in samples {
        let expected = text.split_once(marker).map(|(a, b)| (a.to_owned(), b.to_owned()));
        assert_eq!(split_once(text, marker), expected);
    }
}

#[test]
fn text_find_and_chars() {
    let text = chars_of("abcabc");
    assert_eq!(text, vec!['a', 'b', 'c', 'a', 'b', 'c']);
    assert_eq!(find(&text, &chars_of("ca")), Some(2));
    assert_eq!(find(&text, &chars_of("bc")), Some(1));
    assert_eq!(find(&text, &chars_of("x")), None);
    assert_eq!(find(&text, &Vec::new()), Some(0));
    assert_eq!(find(&Vec::new(), &chars_of("a")), None);
}
