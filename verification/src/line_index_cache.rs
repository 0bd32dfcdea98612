//! An earlier, simpler cache of matched line indices per query string.
//!
//! Unlike [`crate::match_info_cache::MatchInfoCache`], a fresh query may be
//! recorded with any scanned range, and a merge takes the new range's end.

use vstd::prelude::*;

use crate::match_info_cache::{
    entries_map, entries_unique, lemma_entries_map_get,
    lemma_entries_map_not_present, lemma_entries_map_remove, str_eq,
};
use crate::search::{merge_v, MatchInfo, MatchInfoV};

verus! {

/// A query-string-keyed cache of matched line indices.
pub struct LineIndexCache {
    cache: Vec<(String, MatchInfo)>,
}

impl View for LineIndexCache {
    type V = Map<Seq<char>, MatchInfoV>;

    closed spec fn view(&self) -> Map<Seq<char>, MatchInfoV> {
        entries_map(self.cache@)
    }
}

impl LineIndexCache {
    /// Keys are unique and every cached entry is well formed.
    pub closed spec fn wf(self) -> bool {
        &&& entries_unique(self.cache@)
        &&& forall|i: int| 0 <= i < self.cache@.len() ==> (#[trigger] self.cache@[i]).1@.wf()
    }

    pub fn new() -> (c: Self)
        ensures
            c@ =~= Map::<Seq<char>, MatchInfoV>::empty(),
            c.wf(),
    {
        LineIndexCache { cache: Vec::new() }
    }

    /// Look the query string up.
    pub fn get(&self, query_string: &String) -> (r: Option<&MatchInfo>)
        requires
            self.wf(),
        ensures
            match r {
                Some(info) => self@.contains_key(query_string@) && info@ == self@[query_string@]
                    && info@.wf(),
                None => !self@.contains_key(query_string@),
            },
    {
        let n = self.cache.len();
        let mut i: usize = 0;
        while i < n
            invariant
                0 <= i <= n,
                n == self.cache@.len(),
                self.wf(),
                forall|j: int| 0 <= j < i ==> (#[trigger] self.cache@[j]).0@ != query_string@,
            decreases n - i,
        {
            let entry = &self.cache[i];
            if str_eq(entry.0.as_str(), query_string.as_str()) {
                proof {
                    lemma_entries_map_get(self.cache@, i as int);
                }
                return Some(&entry.1);
            }
            i = i + 1;
        }
        proof {
            lemma_entries_map_not_present(self.cache@, query_string@);
        }
        None
    }

    /// Record `info` for `query_string`. For a known query the new info is
    /// merged in; its range must start within the scanned prefix and must
    /// not end before it.
    #[verifier::loop_isolation(false)]
    pub fn put(&mut self, query_string: String, info: MatchInfo)
        requires
            old(self).wf(),
            info@.wf(),
            old(self)@.contains_key(query_string@) ==> old(self)@[query_string@].start <= info@.end
                && info@.start <= old(self)@[query_string@].end <= info@.end,
        ensures
            final(self)@ == old(self)@.insert(
                query_string@,
                if old(self)@.contains_key(query_string@) {
                    merge_v(old(self)@[query_string@], info@)
                } else {
                    info@
                },
            ),
            final(self).wf(),
    {
        let ghost k = query_string@;
        let ghost iv = info@;
        let n = self.cache.len();
        let mut i: usize = 0;
        while i < n
            invariant
                0 <= i <= n,
                n == self.cache@.len(),
                self.cache@ == old(self).cache@,
                forall|j: int| 0 <= j < i ==> (#[trigger] self.cache@[j]).0@ != k,
            decreases n - i,
        {
            if str_eq(self.cache[i].0.as_str(), query_string.as_str()) {
                proof {
                    assert(self.cache@[i as int].1@.wf());
                    lemma_entries_map_get(self.cache@, i as int);
                    lemma_entries_map_remove(self.cache@, i as int);
                }
                let ghost s0 = self.cache@;
                let (key, mut cached) = self.cache.remove(i);
                cached.merge(info);
                let ghost merged = cached@;
                self.cache.push((key, cached));
                proof {
                    let s1 = s0.remove(i as int);
                    assert(self.cache@.drop_last() =~= s1);
                    assert(entries_map(self.cache@) == entries_map(s1).insert(k, merged));
                    assert(entries_map(self.cache@) =~= old(self)@.insert(
                        k,
                        merge_v(old(self)@[k], iv),
                    ));
                    assert forall|p: int, q: int|
                        0 <= p < q < self.cache@.len() implies (#[trigger] self.cache@[p]).0@
                        != (#[trigger] self.cache@[q]).0@ by {
                        if q < self.cache@.len() - 1 {
                            assert(self.cache@[p] == s1[p]);
                            assert(self.cache@[q] == s1[q]);
                        } else {
                            assert(self.cache@[p] == s1[p]);
                        }
                    }
                    assert forall|j: int|
                        0 <= j < self.cache@.len() implies (#[trigger] self.cache@[j]).1@.wf() by {
                        if j < self.cache@.len() - 1 {
                            assert(self.cache@[j] == s1[j]);
                            let j0 = if j < i {
                                j
                            } else {
                                j + 1
                            };
                            assert(s1[j] == s0[j0]);
                            assert(s0[j0].1@.wf());
                        }
                    }
                }
                return ;
            }
            i = i + 1;
        }
        proof {
            lemma_entries_map_not_present(self.cache@, k);
        }
        let ghost s0 = self.cache@;
        self.cache.push((query_string, info));
        proof {
            assert(self.cache@.drop_last() =~= s0);
            assert(entries_map(self.cache@) =~= old(self)@.insert(k, iv));
            assert forall|p: int, q: int|
                0 <= p < q < self.cache@.len() implies (#[trigger] self.cache@[p]).0@
                != (#[trigger] self.cache@[q]).0@ by {
                if q < self.cache@.len() - 1 {
                    assert(self.cache@[p] == s0[p]);
                    assert(self.cache@[q] == s0[q]);
                } else {
                    assert(self.cache@[p] == s0[p]);
                }
            }
            assert forall|j: int|
                0 <= j < self.cache@.len() implies (#[trigger] self.cache@[j]).1@.wf() by {
                if j < self.cache@.len() - 1 {
                    assert(self.cache@[j] == s0[j]);
                    assert(s0[j].1@.wf());
                }
            }
        }
    }
}

} // verus!
