//! The per-query cache of incremental match info.
//!
//! Maps a raw query string to the match info accumulated for it so far.
//! An insert for a known query merges the new info into the cached one;
//! the caller guarantees the ranges are adjacent or overlapping.

use vstd::prelude::*;
use vstd::string::*;

use crate::search::{merge_v, MatchInfo, MatchInfoV};

verus! {

/// The mapping an association list denotes; later entries would win, but
/// the caches keep their keys unique.
pub open spec fn entries_map(s: Seq<(String, MatchInfo)>) -> Map<Seq<char>, MatchInfoV>
    decreases s.len(),
{
    if s.len() == 0 {
        Map::empty()
    } else {
        entries_map(s.drop_last()).insert(s.last().0@, s.last().1@)
    }
}

/// The keys of an association list are pairwise distinct.
pub open spec fn entries_unique(s: Seq<(String, MatchInfo)>) -> bool {
    forall|i: int, j: int| 0 <= i < j < s.len() ==> (#[trigger] s[i]).0@ != (#[trigger] s[j]).0@
}

/// With unique keys, looking up the key of entry `i` yields its value.
pub proof fn lemma_entries_map_get(s: Seq<(String, MatchInfo)>, i: int)
    requires
        entries_unique(s),
        0 <= i < s.len(),
    ensures
        entries_map(s).contains_key(s[i].0@),
        entries_map(s)[s[i].0@] == s[i].1@,
    decreases s.len(),
{
    if i == s.len() - 1 {
    } else {
        assert(s.drop_last()[i] == s[i]);
        lemma_entries_map_get(s.drop_last(), i);
        assert(s[i].0@ != s.last().0@);
    }
}

/// With unique keys, removing entry `i` removes exactly its key.
pub proof fn lemma_entries_map_remove(s: Seq<(String, MatchInfo)>, i: int)
    requires
        entries_unique(s),
        0 <= i < s.len(),
    ensures
        entries_map(s.remove(i)) == entries_map(s).remove(s[i].0@),
        entries_unique(s.remove(i)),
        forall|j: int|
            0 <= j < s.remove(i).len() ==> (#[trigger] s.remove(i)[j]).0@ != s[i].0@,
    decreases s.len(),
{
    let k = s[i].0@;
    assert forall|j: int|
        0 <= j < s.remove(i).len() implies (#[trigger] s.remove(i)[j]).0@ != k by {
        if j < i {
            assert(s.remove(i)[j] == s[j]);
        } else {
            assert(s.remove(i)[j] == s[j + 1]);
        }
    }
    assert forall|p: int, q: int|
        0 <= p < q < s.remove(i).len() implies (#[trigger] s.remove(i)[p]).0@ != (#[trigger] s.remove(
        i,
    )[q]).0@ by {
        let p0 = if p < i {
            p
        } else {
            p + 1
        };
        let q0 = if q < i {
            q
        } else {
            q + 1
        };
        assert(s.remove(i)[p] == s[p0]);
        assert(s.remove(i)[q] == s[q0]);
    }
    if i == s.len() - 1 {
        assert(s.remove(i) =~= s.drop_last());
        lemma_entries_map_not_present(s.drop_last(), k);
        assert(entries_map(s.drop_last()).remove(k) =~= entries_map(s.drop_last()));
        assert(entries_map(s).remove(k) =~= entries_map(s.drop_last()).insert(k, s.last().1@)
            .remove(k));
        assert(entries_map(s.drop_last()).insert(k, s.last().1@).remove(k) =~= entries_map(
            s.drop_last(),
        ).remove(k));
    } else {
        assert(s.remove(i).drop_last() =~= s.drop_last().remove(i));
        assert(s.remove(i).last() == s.last());
        assert(s.drop_last()[i] == s[i]);
        lemma_entries_map_remove(s.drop_last(), i);
        assert(entries_map(s.remove(i)) == entries_map(s.drop_last().remove(i)).insert(
            s.last().0@,
            s.last().1@,
        ));
        assert(entries_map(s.drop_last()).remove(k).insert(s.last().0@, s.last().1@)
            =~= entries_map(s.drop_last()).insert(s.last().0@, s.last().1@).remove(k));
    }
}

/// A key held by no entry is not in the denoted map.
pub proof fn lemma_entries_map_not_present(s: Seq<(String, MatchInfo)>, k: Seq<char>)
    requires
        forall|j: int| 0 <= j < s.len() ==> (#[trigger] s[j]).0@ != k,
    ensures
        !entries_map(s).contains_key(k),
    decreases s.len(),
{
    if s.len() > 0 {
        assert(s[s.len() - 1].0@ != k);
        assert forall|j: int|
            0 <= j < s.drop_last().len() implies (#[trigger] s.drop_last()[j]).0@ != k by {
            assert(s.drop_last()[j] == s[j]);
        }
        lemma_entries_map_not_present(s.drop_last(), k);
    }
}

/// Character-wise string equality.
pub(crate) fn str_eq(a: &str, b: &str) -> (r: bool)
    ensures
        r == (a@ == b@),
{
    let na = a.unicode_len();
    let nb = b.unicode_len();
    if na != nb {
        return false;
    }
    let mut i: usize = 0;
    while i < na
        invariant
            0 <= i <= na,
            na == a@.len(),
            na == b@.len(),
            forall|j: int| 0 <= j < i ==> a@[j] == b@[j],
        decreases na - i,
    {
        if a.get_char(i) != b.get_char(i) {
            return false;
        }
        i = i + 1;
    }
    proof {
        assert(a@ =~= b@);
    }
    true
}

/// The query-string-keyed cache of match info.
pub struct MatchInfoCache {
    entries: Vec<(String, MatchInfo)>,
}

impl View for MatchInfoCache {
    type V = Map<Seq<char>, MatchInfoV>;

    closed spec fn view(&self) -> Map<Seq<char>, MatchInfoV> {
        entries_map(self.entries@)
    }
}

impl MatchInfoCache {
    /// Keys are unique and every cached entry is well formed.
    pub closed spec fn wf(self) -> bool {
        &&& entries_unique(self.entries@)
        &&& forall|i: int| 0 <= i < self.entries@.len() ==> (#[trigger] self.entries@[i]).1@.wf()
    }

    pub fn new() -> (c: Self)
        ensures
            c@ =~= Map::<Seq<char>, MatchInfoV>::empty(),
            c.wf(),
    {
        MatchInfoCache { entries: Vec::new() }
    }

    /// Look the query string up.
    pub fn get(&self, query_string: &str) -> (r: Option<&MatchInfo>)
        requires
            self.wf(),
        ensures
            match r {
                Some(info) => self@.contains_key(query_string@) && info@ == self@[query_string@]
                    && info@.wf(),
                None => !self@.contains_key(query_string@),
            },
    {
        let n = self.entries.len();
        let mut i: usize = 0;
        while i < n
            invariant
                0 <= i <= n,
                n == self.entries@.len(),
                self.wf(),
                forall|j: int| 0 <= j < i ==> (#[trigger] self.entries@[j]).0@ != query_string@,
            decreases n - i,
        {
            let entry = &self.entries[i];
            if str_eq(entry.0.as_str(), query_string) {
                proof {
                    lemma_entries_map_get(self.entries@, i as int);
                }
                return Some(&entry.1);
            }
            i = i + 1;
        }
        proof {
            lemma_entries_map_not_present(self.entries@, query_string@);
        }
        None
    }

    /// Record `info` for `query_string`: a fresh query must start its scan
    /// at 0; a known query's info is merged into the cached one and must
    /// start within the already scanned prefix.
    #[verifier::loop_isolation(false)]
    pub fn insert(&mut self, query_string: String, info: MatchInfo)
        requires
            old(self).wf(),
            info@.wf(),
            old(self)@.contains_key(query_string@) ==> info@.start
                <= old(self)@[query_string@].end,
            !old(self)@.contains_key(query_string@) ==> info@.start == 0,
        ensures
            final(self)@ == old(self)@.insert(
                query_string@,
                if old(self)@.contains_key(query_string@) {
                    merge_v(old(self)@[query_string@], info@)
                } else {
                    info@
                },
            ),
            final(self).wf(),
    {
        let ghost s0 = self.entries@;
        let ghost k = query_string@;
        let ghost iv = info@;
        let n = self.entries.len();
        let mut i: usize = 0;
        while i < n
            invariant
                0 <= i <= n,
                n == self.entries@.len(),
                self.entries@ == s0,
                old(self).wf(),
                forall|j: int| 0 <= j < i ==> (#[trigger] self.entries@[j]).0@ != k,
            decreases n - i,
        {
            if str_eq(self.entries[i].0.as_str(), query_string.as_str()) {
                proof {
                    assert(s0[i as int].0@ == k);
                    assert(s0[i as int].1@.wf());
                    lemma_entries_map_get(s0, i as int);
                    lemma_entries_map_remove(s0, i as int);
                }
                let (key, mut cached) = self.entries.remove(i);
                cached.merge(info);
                let ghost merged = cached@;
                self.entries.push((key, cached));
                proof {
                    let s1 = s0.remove(i as int);
                    assert(key@ == k);
                    assert(merged == merge_v(old(self)@[k], iv));
                    assert(self.entries@.drop_last() =~= s1);
                    assert(self@ == entries_map(s1).insert(k, merged));
                    assert(self@ =~= old(self)@.insert(k, merge_v(old(self)@[k], iv)));
                    assert forall|p: int, q: int|
                        0 <= p < q < self.entries@.len() implies (#[trigger] self.entries@[p]).0@
                        != (#[trigger] self.entries@[q]).0@ by {
                        if q < self.entries@.len() - 1 {
                            assert(self.entries@[p] == s1[p]);
                            assert(self.entries@[q] == s1[q]);
                        } else {
                            assert(self.entries@[p] == s1[p]);
                        }
                    }
                    assert forall|j: int|
                        0 <= j < self.entries@.len() implies (#[trigger] self.entries@[j]).1@
                        .wf() by {
                        if j < self.entries@.len() - 1 {
                            assert(self.entries@[j] == s1[j]);
                            let j0 = if j < i {
                                j
                            } else {
                                j + 1
                            };
                            assert(s1[j] == s0[j0]);
                            assert(s0[j0].1@.wf());
                        }
                    }
                }
                return ;
            }
            i = i + 1;
        }
        proof {
            lemma_entries_map_not_present(s0, k);
        }
        self.entries.push((query_string, info));
        proof {
            assert(self.entries@.drop_last() =~= s0);
            assert(self.entries@.last().0@ == k);
            assert(self.entries@.last().1@ == iv);
            assert(self@ =~= old(self)@.insert(k, iv));
            assert forall|p: int, q: int|
                0 <= p < q < self.entries@.len() implies (#[trigger] self.entries@[p]).0@
                != (#[trigger] self.entries@[q]).0@ by {
                if q < self.entries@.len() - 1 {
                    assert(self.entries@[p] == s0[p]);
                    assert(self.entries@[q] == s0[q]);
                } else {
                    assert(self.entries@[p] == s0[p]);
                }
            }
            assert forall|j: int|
                0 <= j < self.entries@.len() implies (#[trigger] self.entries@[j]).1@.wf() by {
                if j < self.entries@.len() - 1 {
                    assert(self.entries@[j] == s0[j]);
                    assert(s0[j].1@.wf());
                }
            }
        }
    }
}

} // verus!
