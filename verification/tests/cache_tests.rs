use eru::line_index_cache::LineIndexCache;
use eru::match_info_cache::MatchInfoCache;
use eru::search::MatchInfo;

fn info(indices: &[usize], start: usize, end: usize) -> MatchInfo {
    MatchInfo { line_indices: indices.to_vec(), index_range: start..end }
}

#[test]
fn cache_miss_then_hit() {
    let mut c = MatchInfoCache::new();
    assert!(c.get("ab").is_none());
    c.insert(String::from("ab"), info(&[1, 3], 0, 5));
    let got = c.get("ab").unwrap();
    assert_eq!(got.line_indices, vec![1, 3]);
    assert_eq!(got.index_range, 0..5);
    assert!(c.get("a").is_none());
}

#[test]
fn cache_insert_merges_continuation() {
    let mut c = MatchInfoCache::new();
    c.insert(String::from("x"), info(&[1, 3], 0, 5));
    c.insert(String::from("x"), info(&[6, 8], 5, 9));
    let got = c.get("x").unwrap();
    assert_eq!(got.line_indices, vec![1, 3, 6, 8]);
    assert_eq!(got.index_range, 0..9);
}

#[test]
fn cache_merge_drops_overlap() {
    let mut c = MatchInfoCache::new();
    c.insert(String::from("x"), info(&[1, 3], 0, 5));
    // An overlapping continuation repeats index 3; it is not duplicated.
    c.insert(String::from("x"), info(&[3, 6], 3, 9));
    let got = c.get("x").unwrap();
    assert_eq!(got.line_indices, vec![1, 3, 6]);
    assert_eq!(got.index_range, 0..9);
}

#[test]
fn merge_is_associative_on_adjacent_ranges() {
    let a = || info(&[0, 2], 0, 3);
    let b = || info(&[4], 3, 6);
    let c = || info(&[7, 8], 6, 9);
    let mut left = a();
    left.merge(b());
    left.merge(c());
    let mut bc = b();
    bc.merge(c());
    let mut right = a();
    right.merge(bc);
    assert_eq!(left.line_indices, right.line_indices);
    assert_eq!(left.index_range, right.index_range);
    assert_eq!(left.line_indices, vec![0, 2, 4, 7, 8]);
    assert_eq!(left.index_range, 0..9);
}

#[test]
fn match_info_default_is_empty() {
    let d = MatchInfo::default();
    assert!(d.line_indices.is_empty());
    assert_eq!(d.index_range, 0..0);
}

#[test]
fn line_index_cache_put_and_get() {
    let mut c = LineIndexCache::new();
    let key = String::from("q");
    assert!(c.get(&key).is_none());
    c.put(key.clone(), info(&[2], 0, 4));
    c.put(key.clone(), info(&[5], 4, 7));
    let got = c.get(&key).unwrap();
    assert_eq!(got.line_indices, vec![2, 5]);
    assert_eq!(got.index_range, 0..7);
}
