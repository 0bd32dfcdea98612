use eru::width::slice_by_width;

#[test]
fn slicing_ascii_by_columns() {
    assert_eq!(slice_by_width("hello", 3, false), "hel");
    assert_eq!(slice_by_width("hello", 5, false), "hello");
    assert_eq!(slice_by_width("hello", 9, false), "hello");
    assert_eq!(slice_by_width("hello", 0, false), "");
}

#[test]
fn slicing_accounts_for_wide_characters() {
    // Each of these characters is two columns wide.
    assert_eq!(slice_by_width("\u{65E5}\u{672C}\u{8A9E}", 4, false), "\u{65E5}\u{672C}");
    assert_eq!(slice_by_width("\u{65E5}\u{672C}\u{8A9E}", 5, false), "\u{65E5}\u{672C}");
    assert_eq!(slice_by_width("\u{65E5}\u{672C}\u{8A9E}", 6, false), "\u{65E5}\u{672C}\u{8A9E}");
    assert_eq!(slice_by_width("a\u{65E5}b", 3, false), "a\u{65E5}");
}

#[test]
fn slicing_uses_cjk_tables_when_asked() {
    // An ambiguous-width character: one column normally, two in a CJK
    // context.
    let s = "\u{00B1}\u{00B1}\u{00B1}";
    assert_eq!(slice_by_width(s, 2, false), "\u{00B1}\u{00B1}");
    assert_eq!(slice_by_width(s, 2, true), "\u{00B1}");
}

#[test]
fn item_holds_its_text() {
    let it = eru::item::Item::new(String::from("a line"));
    assert_eq!(it.string, "a line");
}
