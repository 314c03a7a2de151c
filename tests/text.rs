use storyteller::choice::normalize;
use storyteller::scene::{dialogue_text, story_text};
use storyteller::text::{decimal_text, ends_with, first_marker, join, remove_char, starts_with, trim};

#[test]
fn normalize_trims_and_lowercases() {
    assert_eq!(normalize("  SwOrd \n"), "sword");
    assert_eq!(normalize("Coloring Book"), "coloring book");
    assert_eq!(normalize("   "), "");
}

#[test]
fn join_puts_separator_between_parts() {
    let parts = vec!["a".to_string(), "b".to_string(), "c".to_string()];
    assert_eq!(join(&parts, "]["), "a][b][c");
    assert_eq!(join(&vec!["x".to_string()], ", "), "x");
    assert_eq!(join(&Vec::new(), ", "), "");
}

#[test]
fn prefix_and_suffix_checks() {
    assert!(starts_with("sword", "sw"));
    assert!(starts_with("sword", ""));
    assert!(!starts_with("sw", "sword"));
    assert!(!starts_with("shield", "sw"));
    assert!(ends_with("Hello.\"", ".\""));
    assert!(!ends_with("Hello", "lo."));
}

#[test]
fn first_marker_finds_earliest_occurrence_of_any() {
    let markers = vec!["cd".to_string(), "b".to_string()];
    assert_eq!(first_marker("abcd", &markers), Some(1));
    assert_eq!(first_marker("xyz", &markers), None);
    assert_eq!(first_marker("ab]cd", &vec!["]".to_string()]), Some(2));
    assert_eq!(first_marker("héllo]", &vec!["]".to_string()]), Some(5));
}

#[test]
fn story_text_drops_brackets_and_trims() {
    assert_eq!(story_text(" The door opens.] "), "The door opens.");
    assert_eq!(story_text("]]"), "");
}

#[test]
fn dialogue_text_drops_quotes_and_trims() {
    assert_eq!(dialogue_text(" Hello there!\""), "Hello there!");
    assert_eq!(dialogue_text("\"Go\" now"), "Go now");
}

#[test]
fn trim_removes_unicode_white_space_at_both_ends() {
    assert_eq!(trim("\u{3000}\t a b \u{2028}\n"), "a b");
    assert_eq!(trim("x"), "x");
    assert_eq!(trim(" \u{a0} "), "");
    assert_eq!(trim("-\u{200b}"), "-\u{200b}");
}

#[test]
fn remove_char_drops_every_occurrence() {
    assert_eq!(remove_char("a]b]]c", ']'), "abc");
    assert_eq!(remove_char("é\"x\"", '"'), "éx");
    assert_eq!(remove_char("", 'a'), "");
}

#[test]
fn decimal_text_writes_digits() {
    assert_eq!(decimal_text(0), "0");
    assert_eq!(decimal_text(7), "7");
    assert_eq!(decimal_text(1024), "1024");
    assert_eq!(decimal_text(usize::MAX), usize::MAX.to_string());
}
