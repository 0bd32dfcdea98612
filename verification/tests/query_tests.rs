use eru::key::Key;
use eru::query::{Query, QueryEditor};

fn type_str(editor: &mut QueryEditor, s: &str) {
    for ch in s.chars() {
        editor.put_key(Key::Char(ch));
    }
}

#[test]
fn empty_query_matches_everything() {
    let q = Query::new(String::new());
    let hay: Vec<char> = "anything at all".chars().collect();
    assert!(q.test(&hay));
    let empty: Vec<char> = Vec::new();
    assert!(q.test(&empty));
}

#[test]
fn query_is_conjunction_of_tokens() {
    let q = Query::new(String::from("f b"));
    let a: Vec<char> = "Foo Bar".chars().collect();
    let b: Vec<char> = "foobaz".chars().collect();
    let c: Vec<char> = "barfoo".chars().collect();
    let d: Vec<char> = "FOO".chars().collect();
    assert!(q.test(&a));
    assert!(q.test(&b));
    assert!(q.test(&c));
    assert!(!q.test(&d));
}

#[test]
fn editor_types_characters() {
    let mut e = QueryEditor::new("");
    type_str(&mut e, "abc");
    assert_eq!(e.as_str(), "abc");
    assert_eq!(e.cursor_position(), 3);
}

#[test]
fn editor_cursor_movement() {
    let mut e = QueryEditor::new("abc");
    assert_eq!(e.cursor_position(), 3);
    e.put_key(Key::CtrlA);
    assert_eq!(e.cursor_position(), 0);
    e.put_key(Key::CtrlF);
    assert_eq!(e.cursor_position(), 1);
    e.put_key(Key::CtrlB);
    assert_eq!(e.cursor_position(), 0);
    e.put_key(Key::CtrlE);
    assert_eq!(e.cursor_position(), 3);
}

#[test]
fn editor_backspace_and_delete() {
    let mut e = QueryEditor::new("abc");
    e.put_key(Key::CtrlH);
    assert_eq!(e.as_str(), "ab");
    assert_eq!(e.cursor_position(), 2);
    e.put_key(Key::CtrlA);
    e.put_key(Key::CtrlD);
    assert_eq!(e.as_str(), "b");
    assert_eq!(e.cursor_position(), 0);
    e.put_key(Key::Del);
    assert_eq!(e.as_str(), "b");
}

#[test]
fn editor_insert_in_middle() {
    let mut e = QueryEditor::new("ac");
    e.put_key(Key::CtrlB);
    e.put_key(Key::Char('b'));
    assert_eq!(e.as_str(), "abc");
    assert_eq!(e.cursor_position(), 2);
}

#[test]
fn editor_kill_to_end() {
    let mut e = QueryEditor::new("abcdef");
    e.put_key(Key::CtrlB);
    e.put_key(Key::CtrlB);
    e.put_key(Key::CtrlK);
    assert_eq!(e.as_str(), "abcd");
    assert_eq!(e.cursor_position(), 4);
}

#[test]
fn editor_delete_word() {
    let mut e = QueryEditor::new("ab cd");
    e.put_key(Key::CtrlW);
    assert_eq!(e.as_str(), "ab ");
    assert_eq!(e.cursor_position(), 3);
}

#[test]
fn editor_delete_word_with_trailing_space() {
    let mut e = QueryEditor::new("ab cd ");
    e.put_key(Key::CtrlW);
    assert_eq!(e.as_str(), "ab ");
    assert_eq!(e.cursor_position(), 3);
}

#[test]
fn editor_ignores_other_control_keys() {
    let mut e = QueryEditor::new("abc");
    e.put_key(Key::CtrlG);
    e.put_key(Key::Esc);
    e.put_key(Key::CtrlZ);
    assert_eq!(e.as_str(), "abc");
    assert_eq!(e.cursor_position(), 3);
}

#[test]
fn editor_compiles_current_query() {
    let mut e = QueryEditor::new("");
    type_str(&mut e, "fb");
    let q = e.query();
    assert_eq!(q.as_str(), "fb");
    let hay: Vec<char> = "Foo Bar".chars().collect();
    assert!(q.test(&hay));
}
