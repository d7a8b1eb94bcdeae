use std::path::Path;

use whisrs::config::glossary::{
    add_entry, find_key, glossary_path, load_glossary_file, normalize_glossary_phrase,
    remove_entry, replace_entry, Glossary, GlossaryEntry, GlossaryRead, LoadError,
};

fn entry(say: &str, text: &str) -> GlossaryEntry {
    GlossaryEntry { say: say.to_string(), aliases: vec![], text: text.to_string() }
}

fn strings(texts: &[&str]) -> Vec<String> {
    texts.iter().map(|t| t.to_string()).collect()
}

#[test]
fn glossary_file_lives_next_to_config_toml() {
    for config in [
        "/home/ada/.config/whisrs/config.toml",
        "config.toml",
        "/config.toml",
        "./whisrs/config.toml",
        "/home/p\u{e9}rez/.config/whisrs/config.toml",
    ] {
        let path = glossary_path(config);
        assert_eq!(Path::new(&path).file_name().unwrap(), "glossary.toml");
        assert_eq!(Path::new(&path).parent(), Path::new(config).parent());
        assert_eq!(Path::new(&path), Path::new(config).with_file_name("glossary.toml"));
    }
    assert_eq!(glossary_path("/etc/whisrs/config.toml"), "/etc/whisrs/glossary.toml");
}

#[test]
fn missing_file_is_not_an_error() {
    let glossary = load_glossary_file("glossary.toml", GlossaryRead::Missing).unwrap();
    assert!(glossary.entries.is_empty());
}

#[test]
fn parsed_file_is_the_glossary() {
    let read = GlossaryRead::Parsed(Glossary { entries: vec![entry("la mia email", "x@y.it")] });
    let glossary = load_glossary_file("glossary.toml", read).unwrap();
    assert_eq!(glossary.entries.len(), 1);
    assert_eq!(glossary.entries[0].say, "la mia email");
    assert_eq!(glossary.entries[0].text, "x@y.it");
}

#[test]
fn malformed_file_is_an_error_that_names_the_file() {
    let read = GlossaryRead::Malformed("missing field `say`".to_string());
    match load_glossary_file("/c/glossary.toml", read) {
        Err(LoadError::InvalidData(message)) => assert_eq!(
            message,
            "failed to parse glossary at /c/glossary.toml: missing field `say`"
        ),
        _ => panic!("a malformed file must not load"),
    }
}

#[test]
fn unreadable_file_is_an_error() {
    let read = GlossaryRead::Failed("permission denied".to_string());
    match load_glossary_file("/c/glossary.toml", read) {
        Err(LoadError::Unreadable(message)) => assert_eq!(message, "permission denied"),
        _ => panic!("an unreadable file must not load"),
    }
}

#[test]
fn lookup_matches_normalized_transcript() {
    let glossary =
        Glossary { entries: vec![entry("la mia email", "nome.cognome@example.com")] };

    // Exact match.
    assert_eq!(
        glossary.lookup("la mia email"),
        Some("nome.cognome@example.com".to_string())
    );
    // Case-insensitive.
    assert_eq!(
        glossary.lookup("La Mia Email"),
        Some("nome.cognome@example.com".to_string())
    );
    // Whitespace collapsed.
    assert_eq!(
        glossary.lookup("  la   mia  email  "),
        Some("nome.cognome@example.com".to_string())
    );
    // No match.
    assert_eq!(glossary.lookup("il mio numero"), None);
}

#[test]
fn lookup_on_empty_glossary_returns_none() {
    let glossary = Glossary::default();
    assert_eq!(glossary.lookup("la mia email"), None);
}

#[test]
fn phrases_are_normalized_too() {
    let glossary = Glossary { entries: vec![entry(" La MIA\temail", "x@y.it")] };
    assert_eq!(glossary.lookup("la mia email"), Some("x@y.it".to_string()));
    assert_eq!(glossary.lookup("la mia"), None);
    assert_eq!(glossary.lookup("la mia email!"), None);
}

#[test]
fn first_entry_that_matches_wins() {
    let glossary = Glossary {
        entries: vec![entry("a", "one"), entry("B", "two"), entry("b", "three")],
    };
    assert_eq!(glossary.lookup("b"), Some("two".to_string()));
}

#[test]
fn text_is_typed_letter_for_letter() {
    let glossary = Glossary { entries: vec![entry("firma", "  Ada  LOVELACE\n")] };
    assert_eq!(glossary.lookup("FIRMA"), Some("  Ada  LOVELACE\n".to_string()));
}

#[test]
fn any_phrase_of_an_entry_matches() {
    let glossary = Glossary {
        entries: vec![GlossaryEntry {
            say: "la mia email".to_string(),
            aliases: strings(&["mia email", "Email"]),
            text: "x@y.it".to_string(),
        }],
    };
    for transcript in ["la mia email", "Mia  Email", "email"] {
        assert_eq!(glossary.lookup(transcript), Some("x@y.it".to_string()));
    }
    assert_eq!(glossary.entries[0].says(), vec!["la mia email", "mia email", "Email"]);
}

#[test]
fn normalizing_collapses_trims_and_lowercases() {
    assert_eq!(normalize_glossary_phrase("  La   MIA\temail \n"), "la mia email");
    assert_eq!(normalize_glossary_phrase(" \t "), "");
    for s in ["PERCH\u{c9}  NO", "\u{130}stanbul", "\u{1f48}\u{394}\u{3a5}\u{3a3}\u{3a3}\u{395}\u{3a5}\u{3a3} X", "\u{a0}\u{c4}\u{3000}\u{d6}"] {
        let expected = s.split_whitespace().collect::<Vec<_>>().join(" ").to_lowercase();
        assert_eq!(normalize_glossary_phrase(s), expected);
    }
}

#[test]
fn lowercase_of_ascii_is_letter_by_letter() {
    for b in 0x21u8..0x7f {
        let c = b as char;
        let s = format!("x{c}X");
        let small = c.to_ascii_lowercase();
        assert_eq!(normalize_glossary_phrase(&s), format!("x{small}x"));
    }
}

#[test]
fn lowercase_beyond_ascii_follows_unicode() {
    assert_eq!(normalize_glossary_phrase("PERCH\u{c9}"), "perch\u{e9}");
    // A sigma at the end of a word has a form of its own.
    assert_eq!(normalize_glossary_phrase("\u{39f}\u{3a3}"), "\u{3bf}\u{3c2}");
}

#[test]
fn normalizing_twice_is_normalizing_once() {
    for s in ["La  Mia Email", " X ", "", "ALL caps\there"] {
        let once = normalize_glossary_phrase(s);
        assert_eq!(normalize_glossary_phrase(&once), once);
    }
}

#[test]
fn find_key_gives_the_first_place() {
    let keys = vec![strings(&["a"]), strings(&[]), strings(&["b", "c"]), strings(&["c"])];
    assert_eq!(find_key(&keys, "a"), Some(0));
    assert_eq!(find_key(&keys, "c"), Some(2));
    assert_eq!(find_key(&keys, "d"), None);
    assert_eq!(find_key(&vec![], "a"), None);
}

#[test]
fn added_entry_goes_behind_the_others_and_is_found() {
    let mut glossary = Glossary { entries: vec![entry("a", "one")] };
    let index = add_entry(&mut glossary, strings(&["b", "B two"]), "two".to_string());
    assert_eq!(index, 1);
    assert_eq!(glossary.entries.len(), 2);
    assert_eq!(glossary.entries[1].say, "b");
    assert_eq!(glossary.entries[1].aliases, vec!["B two"]);
    assert_eq!(glossary.lookup("b TWO"), Some("two".to_string()));
    assert_eq!(glossary.lookup("a"), Some("one".to_string()));
}

#[test]
fn removing_undoes_adding() {
    let mut glossary = Glossary { entries: vec![entry("a", "one")] };
    let index = add_entry(&mut glossary, strings(&["b"]), "two".to_string());
    let removed = remove_entry(&mut glossary, index).unwrap();
    assert_eq!(removed.say, "b");
    assert_eq!(removed.text, "two");
    assert_eq!(glossary.entries.len(), 1);
    assert_eq!(glossary.entries[0].say, "a");
    assert_eq!(glossary.lookup("b"), None);
}

#[test]
fn removing_leaves_other_phrases() {
    let mut glossary = Glossary {
        entries: vec![entry("a", "one"), entry("b", "two"), entry("c", "three")],
    };
    remove_entry(&mut glossary, 1);
    assert_eq!(glossary.lookup("a"), Some("one".to_string()));
    assert_eq!(glossary.lookup("b"), None);
    assert_eq!(glossary.lookup("c"), Some("three".to_string()));
}

#[test]
fn removing_where_nothing_is_changes_nothing() {
    let mut glossary = Glossary { entries: vec![entry("a", "one")] };
    assert!(remove_entry(&mut glossary, 1).is_none());
    assert_eq!(glossary.entries.len(), 1);
}

#[test]
fn replaced_entry_keeps_its_place() {
    let mut glossary = Glossary { entries: vec![entry("a", "one"), entry("b", "two")] };
    replace_entry(&mut glossary, 0, strings(&["c"]), "three".to_string());
    assert_eq!(glossary.lookup("a"), None);
    assert_eq!(glossary.lookup("c"), Some("three".to_string()));
    assert_eq!(glossary.lookup("b"), Some("two".to_string()));
}

#[test]
fn ascii_phrases_match_by_their_words() {
    let same = |a: &str, b: &str| normalize_glossary_phrase(a) == normalize_glossary_phrase(b);
    assert!(same("La Mia  EMAIL", "\tla mia email"));
    assert!(!same("la mia email", "lamia email"));
    assert!(!same("la mia email", "mia la email"));
}

#[test]
fn white_space_beyond_ascii_counts_as_white_space() {
    let glossary = Glossary { entries: vec![entry("la mia email", "x@y.it")] };
    assert_eq!(glossary.lookup("\u{a0}LA\u{2003}mia\u{3000}Email"), Some("x@y.it".to_string()));
}

#[test]
fn a_gap_is_normalized_to_one_blank() {
    for gap in [" ", "  \t", "\u{a0}\n"] {
        let whole = normalize_glossary_phrase(&format!(" La  Mia{gap}EMAIL "));
        let left = normalize_glossary_phrase(" La  Mia");
        let right = normalize_glossary_phrase("EMAIL ");
        assert_eq!(whole, format!("{left} {right}"));
    }
}

#[test]
fn ascii_case_is_lost_when_normalizing() {
    for s in ["La  Mia Email", "\u{a0}x Y", ""] {
        let n = normalize_glossary_phrase(s);
        assert_eq!(normalize_glossary_phrase(&s.to_ascii_uppercase()), n);
        assert_eq!(normalize_glossary_phrase(&s.to_ascii_lowercase()), n);
    }
}

#[test]
fn only_blank_ascii_is_normalized_to_nothing() {
    assert_eq!(normalize_glossary_phrase("\u{3000}\t "), "");
    assert_ne!(normalize_glossary_phrase(" . "), "");
}
