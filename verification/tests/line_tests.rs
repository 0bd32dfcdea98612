use eru::line::Line;
use eru::line_storage::LineStorage;

#[test]
fn line_keeps_bytes_and_decodes() {
    let l = Line::new(b"hello".to_vec());
    assert_eq!(l.as_bytes(), b"hello");
    assert_eq!(l.as_str(), "hello");
    let chars: Vec<char> = "hello".chars().collect();
    assert_eq!(l.as_chars(), chars.as_slice());
}

#[test]
fn line_retains_invalid_utf8_bytes() {
    let bytes = vec![0x66u8, 0xFF, 0x6F];
    let l = Line::new(bytes.clone());
    assert_eq!(l.as_bytes(), bytes.as_slice());
    assert_eq!(l.as_str(), "f\u{FFFD}o");
}

#[test]
fn line_from_raw_strips_newline() {
    let l = Line::from_raw(b"hello\n".to_vec());
    assert_eq!(l.as_bytes(), b"hello");
    let l = Line::from_raw(b"hello".to_vec());
    assert_eq!(l.as_bytes(), b"hello");
    let l = Line::from_raw(b"\n".to_vec());
    assert_eq!(l.as_bytes(), b"");
}

#[test]
fn storage_appends_and_keeps_indices() {
    let mut s = LineStorage::new();
    assert_eq!(s.len(), 0);
    s.put_chunk(vec![Line::new(b"a".to_vec()), Line::new(b"b".to_vec())]);
    assert_eq!(s.len(), 2);
    s.put_chunk(vec![Line::new(b"c".to_vec())]);
    assert_eq!(s.len(), 3);
    assert_eq!(s.get(0).as_str(), "a");
    assert_eq!(s.get(1).as_str(), "b");
    assert_eq!(s.get(2).as_str(), "c");
}

#[test]
fn storage_resolves_many() {
    let mut s = LineStorage::new();
    s.put_chunk(vec![
        Line::new(b"a".to_vec()),
        Line::new(b"b".to_vec()),
        Line::new(b"c".to_vec()),
    ]);
    let picked = s.get_many_unchecked(vec![2, 0]);
    assert_eq!(picked.len(), 2);
    assert_eq!(picked[0].as_str(), "c");
    assert_eq!(picked[1].as_str(), "a");
    let all = s.iter();
    assert_eq!(all.len(), 3);
    assert_eq!(all[1].as_str(), "b");
}
