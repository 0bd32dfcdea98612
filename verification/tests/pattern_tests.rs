use eru::key::Key;
use eru::pattern::{patterns_from_str, test_fuzzy_ignorecase};

#[test]
fn fuzzy_match_finds_subsequence() {
    let hay: Vec<char> = "Foo Bar".chars().collect();
    let needle: Vec<char> = "fb".chars().collect();
    assert!(test_fuzzy_ignorecase(&hay, &needle));
}

#[test]
fn fuzzy_match_is_case_insensitive() {
    let hay: Vec<char> = "FOO".chars().collect();
    let needle: Vec<char> = "foo".chars().collect();
    assert!(test_fuzzy_ignorecase(&hay, &needle));
}

#[test]
fn fuzzy_match_requires_order() {
    let hay: Vec<char> = "barfoo".chars().collect();
    let needle: Vec<char> = "fb".chars().collect();
    assert!(!test_fuzzy_ignorecase(&hay, &needle));
}

#[test]
fn fuzzy_match_missing_char_fails() {
    let hay: Vec<char> = "cherry".chars().collect();
    let needle: Vec<char> = "fb".chars().collect();
    assert!(!test_fuzzy_ignorecase(&hay, &needle));
}

#[test]
fn patterns_split_on_whitespace() {
    let ps = patterns_from_str("f  b");
    assert_eq!(ps.len(), 2);
    let hay: Vec<char> = "barfoo".chars().collect();
    assert!(ps[0].test(&hay));
    assert!(ps[1].test(&hay));
}

#[test]
fn patterns_of_empty_string() {
    let ps = patterns_from_str("");
    assert_eq!(ps.len(), 0);
    let ps = patterns_from_str("   ");
    assert_eq!(ps.len(), 0);
}

#[test]
fn patterns_are_lowercased() {
    let ps = patterns_from_str("FOO");
    assert_eq!(ps.len(), 1);
    let hay: Vec<char> = "afoob".chars().collect();
    assert!(ps[0].test(&hay));
}

#[test]
fn key_from_u32_decodes_bytes() {
    assert!(matches!(Key::from_u32(0x01), Key::CtrlA));
    assert!(matches!(Key::from_u32(0x03), Key::CtrlC));
    assert!(matches!(Key::from_u32(0x09), Key::CtrlI));
    assert!(matches!(Key::from_u32(0x0D), Key::CtrlM));
    assert!(matches!(Key::from_u32(0x0E), Key::CtrlN));
    assert!(matches!(Key::from_u32(0x10), Key::CtrlP));
    assert!(matches!(Key::from_u32(0x1A), Key::CtrlZ));
    assert!(matches!(Key::from_u32(0x1B), Key::Esc));
    assert!(matches!(Key::from_u32(0x7F), Key::Del));
    assert!(matches!(Key::from_u32(0x61), Key::Char('a')));
    assert!(matches!(Key::from_u32(0x41), Key::Char('A')));
}
