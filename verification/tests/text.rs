use whisrs::text::{
    align_left, decimal_filled, decimal_text, is_blank, is_white_space, join, same_text, split_words,
    trim,
};

const SAMPLES: [&str; 12] = [
    "",
    " ",
    "la mia email",
    "  la   mia  email  ",
    "\tla\r\nmia\u{a0}email\u{3000}",
    "x",
    " x",
    "x ",
    "\u{2003}perch\u{e9}\u{2028}no\u{85}",
    "\u{200b}zero width\u{200b}",
    "\u{180e}mongolian\u{180e}",
    "\u{1f600} \u{1f600}",
];

#[test]
fn white_space_is_what_std_calls_white_space() {
    for c in '\0'..=char::MAX {
        assert_eq!(is_white_space(c), c.is_whitespace(), "{c:?}");
    }
}

#[test]
fn words_are_those_of_split_whitespace() {
    for s in SAMPLES {
        let expected: Vec<&str> = s.split_whitespace().collect();
        assert_eq!(split_words(s), expected);
    }
    assert_eq!(split_words(" la  mia\temail\n"), vec!["la", "mia", "email"]);
}

#[test]
fn words_do_not_change_with_the_width_of_gaps() {
    assert_eq!(split_words("la mia"), split_words("  la \t\n mia "));
}

#[test]
fn trimming_takes_white_space_off_both_ends() {
    for s in SAMPLES {
        assert_eq!(trim(s), s.trim());
        assert_eq!(trim(&trim(s)), s.trim());
        assert_eq!(split_words(&trim(s)), split_words(s));
    }
    assert_eq!(trim("\u{3000} la  mia \n"), "la  mia");
}

#[test]
fn blank_means_nothing_but_white_space() {
    for s in SAMPLES {
        assert_eq!(is_blank(s), s.trim().is_empty());
    }
    assert!(is_blank("\u{2003}\t"));
    assert!(!is_blank("\u{2003}.\t"));
}

#[test]
fn joining_puts_the_separator_between_neighbours() {
    let parts = |p: &[&str]| p.iter().map(|s| s.to_string()).collect::<Vec<String>>();
    assert_eq!(join(&parts(&[]), ", "), "");
    assert_eq!(join(&parts(&["a"]), ", "), "a");
    assert_eq!(join(&parts(&["a", "", "b"]), ", "), "a, , b");
    assert_eq!(join(&parts(&["a", "b"]), "\", \""), "a\", \"b");
}

#[test]
fn numbers_are_written_in_decimal() {
    for n in [0, 1, 9, 10, 11, 99, 100, 101, 65535, 1_000_000, usize::MAX - 1, usize::MAX] {
        assert_eq!(decimal_text(n), n.to_string());
    }
    assert_ne!(decimal_text(11), decimal_text(110));
}

#[test]
fn short_texts_are_filled_up_on_the_right() {
    assert_eq!(align_left("7", 5), "7    ");
    assert_eq!(align_left("12345", 5), "12345");
    assert_eq!(align_left("123456", 5), "123456");
    assert_eq!(align_left("\u{e9}\u{e9}", 4), format!("{:<4}", "\u{e9}\u{e9}"));
    assert_eq!(align_left("", 0), "");
}

#[test]
fn words_hold_the_text_but_for_its_white_space() {
    for s in SAMPLES {
        let rest: String = s.chars().filter(|c| !c.is_whitespace()).collect();
        assert_eq!(split_words(s).concat(), rest);
        for word in split_words(s) {
            assert!(!word.is_empty() && !word.chars().any(char::is_whitespace));
        }
        // Words that are joined by blanks are the same words again.
        assert_eq!(split_words(&join(&split_words(s), " ")), split_words(s));
    }
}

#[test]
fn short_numbers_are_filled_up_with_zeros() {
    assert_eq!(decimal_filled(7, 2), "07");
    assert_eq!(decimal_filled(42, 2), "42");
    assert_eq!(decimal_filled(123, 2), "123");
    assert_eq!(decimal_filled(0, 4), "0000");
}

#[test]
fn texts_are_the_same_letter_for_letter() {
    assert!(same_text("la mia", "la mia"));
    assert!(!same_text("la mia", "La mia"));
}
