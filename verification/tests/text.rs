use quoridor::text::{
    chars_of, digits, parse_number, same_text, split_on, split_words, trimmed,
};

#[test]
fn numbers_are_read_in_base_ten() {
    assert_eq!(parse_number("0"), Some(0));
    assert_eq!(parse_number("7"), Some(7));
    assert_eq!(parse_number("10"), Some(10));
    assert_eq!(parse_number("000123"), Some(123));
    assert_eq!(parse_number("+42"), Some(42));
    assert_eq!(parse_number("4294967295"), Some(4294967295));
}

#[test]
fn numbers_agree_with_the_standard_parser() {
    for text in [
        "", "+", "-", "-1", "++1", "1+", "12a", "a12", " 1", "1 ", "1.0", "0x10", "١٢", "1_000",
        "18446744073709551615", "18446744073709551616", "99999999999999999999999",
        "+18446744073709551615", "00000000000000000000000000001", "9", "+0",
    ] {
        assert_eq!(parse_number(text), text.parse::<usize>().ok());
    }
    assert_eq!(parse_number(&usize::MAX.to_string()), Some(usize::MAX));
}

#[test]
fn numbers_are_written_in_base_ten() {
    for n in [0usize, 1, 9, 10, 11, 99, 100, 101, 12345, usize::MAX] {
        let text: String = digits(n).into_iter().collect();
        assert_eq!(text, n.to_string());
    }
}

#[test]
fn texts_are_compared_by_their_characters() {
    assert!(same_text("", ""));
    assert!(same_text("wall", "wall"));
    assert!(!same_text("wall", "walls"));
    assert!(!same_text("wall", "walk"));
    assert!(!same_text("wall", ""));
    assert!(same_text("größe", "größe"));
    assert!(!same_text("große", "größe"));
}

const SAMPLES: [&str; 14] = [
    "",
    " ",
    "word",
    "  two  words ",
    "\ttabs\tand\nnew lines\r\n",
    "N S  Ha3\tVc5 E",
    "em\u{2003}space and no\u{a0}break",
    "zero\u{200b}width is no white space",
    "\u{3000}ideographic\u{3000}",
    " a",
    "a ",
    "   ",
    "größe  und  maß",
    "\u{b}vertical\u{c}feed\u{85}next\u{2028}line\u{2029}",
];

#[test]
fn words_are_the_runs_between_white_space() {
    assert_eq!(split_words("  two  words "), vec!["two".to_string(), "words".to_string()]);
    assert_eq!(split_words("one"), vec!["one".to_string()]);
    assert!(split_words(" \t\n").is_empty());
    for text in SAMPLES {
        let want: Vec<String> = text.split_whitespace().map(|w| w.to_string()).collect();
        assert_eq!(split_words(text), want);
    }
}

#[test]
fn trimming_takes_white_space_off_both_ends() {
    assert_eq!(trimmed("  show \n"), "show");
    assert_eq!(trimmed("a  b"), "a  b");
    assert_eq!(trimmed(" \t "), "");
    for text in SAMPLES {
        assert_eq!(trimmed(text), text.trim());
    }
}

#[test]
fn characters_of_a_text() {
    for text in SAMPLES {
        let want: Vec<char> = text.chars().collect();
        assert_eq!(chars_of(text), want);
    }
}

fn parted(text: &str, separator: &str) -> Vec<String> {
    split_on(&chars_of(text), &chars_of(separator))
        .into_iter()
        .map(|piece| piece.into_iter().collect())
        .collect()
}

#[test]
fn texts_are_parted_at_the_separator() {
    assert_eq!(parted("a: b", ": "), vec!["a", "b"]);
    assert_eq!(parted("a\nb\n", "\n"), vec!["a", "b", ""]);
    assert_eq!(parted("", "\n"), vec![""]);
    assert_eq!(parted("one", "\n\n"), vec!["one"]);
    assert_eq!(parted("a\n\n\nb", "\n\n"), vec!["a", "\nb"]);
    assert_eq!(parted("aaa", "aa"), vec!["", "a"]);
    assert_eq!(parted("x", "long separator"), vec!["x"]);
    assert_eq!(parted("::", ":"), vec!["", "", ""]);
    // An empty separator parts nothing.
    assert_eq!(parted("abc", ""), vec!["abc"]);
}

#[test]
fn parting_agrees_with_the_standard_splitter() {
    let separators = ["\n", "\n\n", ": ", "a", "ab", "aba", "ß", "word"];
    let texts = [
        "",
        "General: help\n\nNew: a new board\n\nMove: play: moves\n\n",
        "NoMovesGiven: no moves\nUnknownFlag: what flag?\nodd line\n",
        "abababa",
        "aaaa",
        "größe: maß, straße",
        "two  words  and a word",
        "\n",
        ": ",
        ": : ",
    ];
    for text in texts {
        for separator in separators {
            let want: Vec<String> = text.split(separator).map(|w| w.to_string()).collect();
            assert_eq!(parted(text, separator), want);
        }
    }
}
