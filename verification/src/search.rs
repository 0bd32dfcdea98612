//! Search requests, replies, and the incremental match info they carry.
//!
//! A `MatchInfo` pairs the matched line indices with the scanned prefix
//! `[start, end)` they were found in. Merging extends a scanned prefix with
//! an adjacent or overlapping continuation.

use vstd::prelude::*;

use core::ops::Range;
use crate::line::LineV;
use crate::query::{query_matches, Query};

verus! {

/// Match info `info` is true of the store under query `q`: it is well
/// formed, covers a scanned prefix of the store, and lists exactly the
/// indices of that prefix whose line matches.
pub open spec fn info_sound(info: MatchInfoV, q: Seq<char>, store: Seq<LineV>) -> bool {
    &&& info.wf()
    &&& info.end <= store.len()
    &&& forall|i: int|
        info.start <= i < info.end ==> (info.indices.contains(i as usize) <==> query_matches(
            q,
            #[trigger] store[i].chars,
        ))
}

/// A request to test lines against `query`, starting at index `start`.
pub struct Request {
    pub query: Query,
    pub start: usize,
}

/// The reply to one request.
pub struct Response {
    pub query: Query,
    pub match_info: MatchInfo,
}

impl Response {
    pub fn new(query: Query, line_indices: Vec<usize>, index_range: Range<usize>) -> (r: Self)
        ensures
            r.query == query,
            r.match_info@.indices == line_indices@,
            r.match_info@.start == index_range.start,
            r.match_info@.end == index_range.end,
    {
        Response { query, match_info: MatchInfo { line_indices, index_range } }
    }
}

/// Abstract value of a [`MatchInfo`].
pub struct MatchInfoV {
    pub indices: Seq<usize>,
    pub start: int,
    pub end: int,
}

/// The elements of `s` that are at least `bound`, in order.
pub open spec fn drop_below(s: Seq<usize>, bound: int) -> Seq<usize>
    decreases s.len(),
{
    if s.len() == 0 {
        Seq::empty()
    } else if (s[0] as int) < bound {
        drop_below(s.skip(1), bound)
    } else {
        seq![s[0]] + drop_below(s.skip(1), bound)
    }
}

/// The merge of `b` into `a`: the indices of `b` beyond the already scanned
/// prefix of `a` are appended, and the scanned range is extended.
pub open spec fn merge_v(a: MatchInfoV, b: MatchInfoV) -> MatchInfoV {
    MatchInfoV {
        indices: a.indices + drop_below(b.indices, a.end),
        start: a.start,
        end: if a.end < b.end {
            b.end
        } else {
            a.end
        },
    }
}

impl MatchInfoV {
    /// The scanned range is a range, and the indices are strictly
    /// ascending and all lie within it.
    pub open spec fn wf(self) -> bool {
        &&& 0 <= self.start <= self.end
        &&& forall|j: int|
            0 <= j < self.indices.len() ==> self.start <= #[trigger] self.indices[j] < self.end
        &&& forall|j: int, k: int|
            0 <= j < k < self.indices.len() ==> self.indices[j] < self.indices[k]
    }
}

/// Matched line indices together with the scanned prefix `[start, end)`
/// that produced them.
#[derive(Debug)]
pub struct MatchInfo {
    pub line_indices: Vec<usize>,
    pub index_range: Range<usize>,
}

impl View for MatchInfo {
    type V = MatchInfoV;

    open spec fn view(&self) -> MatchInfoV {
        MatchInfoV {
            indices: self.line_indices@,
            start: self.index_range.start as int,
            end: self.index_range.end as int,
        }
    }
}

impl MatchInfo {
    /// Merge an adjacent or overlapping continuation into this match info.
    pub fn merge(&mut self, other: Self)
        requires
            old(self)@.wf(),
            other@.wf(),
            other@.start <= old(self)@.end,
        ensures
            final(self)@ == merge_v(old(self)@, other@),
            final(self)@.wf(),
    {
        let bound = self.index_range.end;
        let ghost a = self@;
        let ghost b = other@;
        let mut k: usize = 0;
        while k < other.line_indices.len()
            invariant
                0 <= k <= b.indices.len(),
                other.line_indices@ == b.indices,
                self.index_range == old(self).index_range,
                bound == a.end,
                self.line_indices@ == a.indices + drop_below(b.indices.subrange(0, k as int), a.end),
            decreases b.indices.len() - k,
        {
            let idx = other.line_indices[k];
            proof {
                lemma_drop_below_push(b.indices.subrange(0, k as int), b.indices[k as int], a.end);
                assert(b.indices.subrange(0, k + 1) =~= b.indices.subrange(0, k as int).push(
                    b.indices[k as int],
                ));
            }
            if idx >= bound {
                self.line_indices.push(idx);
            }
            k = k + 1;
        }
        proof {
            assert(b.indices.subrange(0, b.indices.len() as int) =~= b.indices);
        }
        if self.index_range.end < other.index_range.end {
            self.index_range = self.index_range.start..other.index_range.end;
        }
        proof {
            lemma_merge_wf(a, b);
        }
    }
}

impl Default for MatchInfo {
    /// An empty match info covering the empty scanned prefix.
    fn default() -> (r: Self)
        ensures
            r@.indices == Seq::<usize>::empty(),
            r@.start == 0,
            r@.end == 0,
            r@.wf(),
    {
        MatchInfo { line_indices: Vec::new(), index_range: 0usize..0usize }
    }
}

/// Appending one element commutes with `drop_below`.
proof fn lemma_drop_below_push(s: Seq<usize>, x: usize, bound: int)
    ensures
        drop_below(s.push(x), bound) == if x as int >= bound {
            drop_below(s, bound).push(x)
        } else {
            drop_below(s, bound)
        },
    decreases s.len(),
{
    if s.len() == 0 {
        assert(s.push(x)[0] == x);
        assert(s.push(x).skip(1) =~= Seq::<usize>::empty());
        assert(drop_below(Seq::<usize>::empty(), bound) == Seq::<usize>::empty());
        if x as int >= bound {
            assert(drop_below(s.push(x), bound) =~= drop_below(s, bound).push(x));
        }
    } else {
        assert(s.push(x)[0] == s[0]);
        assert(s.push(x).skip(1) =~= s.skip(1).push(x));
        lemma_drop_below_push(s.skip(1), x, bound);
        if x as int >= bound {
            assert(drop_below(s.push(x), bound) =~= drop_below(s, bound).push(x));
        } else {
            assert(drop_below(s.push(x), bound) =~= drop_below(s, bound));
        }
    }
}

/// Splitting membership at the head of a sequence.
proof fn lemma_contains_unfold(s: Seq<usize>, x: usize)
    requires
        s.len() > 0,
    ensures
        s.contains(x) <==> (s[0] == x || s.skip(1).contains(x)),
{
    if s.contains(x) {
        let i = choose|i: int| 0 <= i < s.len() && s[i] == x;
        if i > 0 {
            assert(s.skip(1)[i - 1] == x);
            assert(s.skip(1).contains(x));
        }
    }
    if s[0] == x {
        assert(s.contains(x));
    }
    if s.skip(1).contains(x) {
        let i = choose|i: int| 0 <= i < s.skip(1).len() && s.skip(1)[i] == x;
        assert(s[i + 1] == x);
        assert(s.contains(x));
    }
}

/// An element is kept by `drop_below` exactly when it is in the sequence
/// and at least the bound.
pub proof fn lemma_drop_below_membership(s: Seq<usize>, bound: int)
    ensures
        forall|x: usize|
            #[trigger] drop_below(s, bound).contains(x) <==> s.contains(x) && x as int >= bound,
    decreases s.len(),
{
    if s.len() > 0 {
        lemma_drop_below_membership(s.skip(1), bound);
        assert forall|x: usize| #[trigger]
            drop_below(s, bound).contains(x) <==> s.contains(x) && x as int >= bound by {
            lemma_contains_unfold(s, x);
            if (s[0] as int) < bound {
                assert(drop_below(s, bound) == drop_below(s.skip(1), bound));
            } else {
                let d = drop_below(s, bound);
                assert(d == seq![s[0]] + drop_below(s.skip(1), bound));
                assert(d[0] == s[0]);
                if d.contains(x) {
                    let i = choose|i: int| 0 <= i < d.len() && d[i] == x;
                    if i == 0 {
                        assert(s[0] == x);
                    } else {
                        assert(drop_below(s.skip(1), bound)[i - 1] == x);
                        assert(drop_below(s.skip(1), bound).contains(x));
                    }
                }
                if s.contains(x) && x as int >= bound {
                    if s[0] == x {
                        assert(d[0] == x);
                        assert(d.contains(x));
                    } else {
                        assert(s.skip(1).contains(x));
                        assert(drop_below(s.skip(1), bound).contains(x));
                        let i = choose|i: int|
                            0 <= i < drop_below(s.skip(1), bound).len() && drop_below(
                                s.skip(1),
                                bound,
                            )[i] == x;
                        assert(d[i + 1] == x);
                        assert(d.contains(x));
                    }
                }
            }
        }
    }
}

/// `drop_below` of a strictly ascending sequence is strictly ascending,
/// with the same length bound.
proof fn lemma_drop_below_ascending(s: Seq<usize>, bound: int)
    requires
        forall|j: int, k: int| 0 <= j < k < s.len() ==> s[j] < s[k],
    ensures
        forall|j: int, k: int|
            0 <= j < k < drop_below(s, bound).len() ==> drop_below(s, bound)[j] < drop_below(
                s,
                bound,
            )[k],
        forall|j: int|
            0 <= j < drop_below(s, bound).len() ==> s.contains(#[trigger] drop_below(s, bound)[j]),
    decreases s.len(),
{
    if s.len() > 0 {
        assert forall|j: int, k: int| 0 <= j < k < s.skip(1).len() implies s.skip(1)[j] < s.skip(
            1,
        )[k] by {
            assert(s.skip(1)[j] == s[j + 1]);
            assert(s.skip(1)[k] == s[k + 1]);
        }
        lemma_drop_below_ascending(s.skip(1), bound);
        assert forall|j: int|
            0 <= j < drop_below(s, bound).len() implies s.contains(
            #[trigger] drop_below(s, bound)[j],
        ) by {
            if (s[0] as int) < bound {
                assert(drop_below(s, bound) == drop_below(s.skip(1), bound));
                assert(drop_below(s, bound)[j] == drop_below(s.skip(1), bound)[j]);
                assert(s.skip(1).contains(drop_below(s, bound)[j]));
                lemma_skip_contains(s, drop_below(s, bound)[j]);
            } else {
                if j == 0 {
                    assert(drop_below(s, bound)[0] == s[0]);
                } else {
                    assert(drop_below(s, bound)[j] == drop_below(s.skip(1), bound)[j - 1]);
                    assert(s.skip(1).contains(drop_below(s, bound)[j]));
                    lemma_skip_contains(s, drop_below(s, bound)[j]);
                }
            }
        }
        if (s[0] as int) < bound {
        } else {
            assert forall|j: int, k: int|
                0 <= j < k < drop_below(s, bound).len() implies drop_below(s, bound)[j]
                < drop_below(s, bound)[k] by {
                if j == 0 {
                    assert(drop_below(s, bound)[k] == drop_below(s.skip(1), bound)[k - 1]);
                    assert(s.skip(1).contains(drop_below(s.skip(1), bound)[k - 1]));
                    let i = choose|i: int|
                        0 <= i < s.skip(1).len() && s.skip(1)[i] == drop_below(s.skip(1), bound)[k
                            - 1];
                    assert(s[i + 1] == drop_below(s.skip(1), bound)[k - 1]);
                } else {
                    assert(drop_below(s, bound)[j] == drop_below(s.skip(1), bound)[j - 1]);
                    assert(drop_below(s, bound)[k] == drop_below(s.skip(1), bound)[k - 1]);
                }
            }
        }
    }
}

/// Membership carries from a tail to the whole sequence.
proof fn lemma_skip_contains(s: Seq<usize>, x: usize)
    requires
        s.len() > 0,
        s.skip(1).contains(x),
    ensures
        s.contains(x),
{
    let i = choose|i: int| 0 <= i < s.skip(1).len() && s.skip(1)[i] == x;
    assert(s[i + 1] == x);
}

/// Concatenation contains exactly what either part contains.
pub proof fn lemma_contains_add(x: Seq<usize>, y: Seq<usize>)
    ensures
        forall|v: usize| #[trigger] (x + y).contains(v) <==> x.contains(v) || y.contains(v),
{
    assert forall|v: usize| #[trigger] (x + y).contains(v) <==> x.contains(v) || y.contains(v) by {
        if (x + y).contains(v) {
            let j = choose|j: int| 0 <= j < (x + y).len() && (x + y)[j] == v;
            if j < x.len() {
                assert(x[j] == v);
                assert(x.contains(v));
            } else {
                assert(y[j - x.len()] == v);
                assert(y.contains(v));
            }
        }
        if x.contains(v) {
            let j = choose|j: int| 0 <= j < x.len() && x[j] == v;
            assert((x + y)[j] == v);
            assert((x + y).contains(v));
        }
        if y.contains(v) {
            let j = choose|j: int| 0 <= j < y.len() && y[j] == v;
            assert((x + y)[j + x.len()] == v);
            assert((x + y).contains(v));
        }
    }
}

/// Merging well-formed match infos over an adjacent or overlapping range
/// yields a well-formed match info.
pub proof fn lemma_merge_wf(a: MatchInfoV, b: MatchInfoV)
    requires
        a.wf(),
        b.wf(),
        b.start <= a.end,
    ensures
        merge_v(a, b).wf(),
{
    let m = merge_v(a, b);
    let d = drop_below(b.indices, a.end);
    lemma_drop_below_ascending(b.indices, a.end);
    lemma_drop_below_membership(b.indices, a.end);
    assert forall|j: int| 0 <= j < m.indices.len() implies m.start <= #[trigger] m.indices[j]
        < m.end by {
        if j < a.indices.len() {
            assert(m.indices[j] == a.indices[j]);
        } else {
            assert(m.indices[j] == d[j - a.indices.len()]);
            assert(d.contains(d[j - a.indices.len()]));
            assert(b.indices.contains(d[j - a.indices.len()]));
            let i = choose|i: int|
                0 <= i < b.indices.len() && b.indices[i] == d[j - a.indices.len()];
            assert(b.start <= b.indices[i] < b.end);
        }
    }
    assert forall|j: int, k: int| 0 <= j < k < m.indices.len() implies m.indices[j]
        < m.indices[k] by {
        if k < a.indices.len() {
        } else if j >= a.indices.len() {
            assert(m.indices[j] == d[j - a.indices.len()]);
            assert(m.indices[k] == d[k - a.indices.len()]);
        } else {
            assert(m.indices[j] == a.indices[j]);
            assert(m.indices[k] == d[k - a.indices.len()]);
            assert(d.contains(d[k - a.indices.len()]));
        }
    }
}

/// Taking what is at least `p` and then what is at least `q` keeps exactly
/// what is at least the larger of the two.
proof fn lemma_drop_below_compose(s: Seq<usize>, p: int, q: int)
    ensures
        drop_below(drop_below(s, p), q) == drop_below(
            s,
            if p < q {
                q
            } else {
                p
            },
        ),
    decreases s.len(),
{
    if s.len() == 0 {
    } else {
        lemma_drop_below_compose(s.skip(1), p, q);
        let m = if p < q {
            q
        } else {
            p
        };
        if (s[0] as int) < p {
        } else {
            assert(drop_below(s, p) == seq![s[0]] + drop_below(s.skip(1), p));
            assert(drop_below(s, p)[0] == s[0]);
            assert(drop_below(s, p).skip(1) =~= drop_below(s.skip(1), p));
            if (s[0] as int) < q {
                assert(drop_below(drop_below(s, p), q) == drop_below(drop_below(s.skip(1), p), q));
            } else {
                assert(drop_below(drop_below(s, p), q) =~= seq![s[0]] + drop_below(
                    drop_below(s.skip(1), p),
                    q,
                ));
            }
        }
    }
}

/// `drop_below` distributes over concatenation.
proof fn lemma_drop_below_add(a: Seq<usize>, b: Seq<usize>, bound: int)
    ensures
        drop_below(a + b, bound) == drop_below(a, bound) + drop_below(b, bound),
    decreases a.len(),
{
    if a.len() == 0 {
        assert(a + b =~= b);
        assert(drop_below(a, bound) + drop_below(b, bound) =~= drop_below(b, bound));
    } else {
        lemma_drop_below_add(a.skip(1), b, bound);
        assert((a + b)[0] == a[0]);
        assert((a + b).skip(1) =~= a.skip(1) + b);
        if (a[0] as int) < bound {
        } else {
            assert(drop_below(a + b, bound) =~= seq![a[0]] + drop_below(a.skip(1) + b, bound));
            assert(seq![a[0]] + (drop_below(a.skip(1), bound) + drop_below(b, bound)) =~= (
            seq![a[0]] + drop_below(a.skip(1), bound)) + drop_below(b, bound));
        }
    }
}

/// Merging is associative over chains of adjacent or overlapping ranges
/// with the same query: merging `b` then `c` equals merging their merge.
pub proof fn lemma_merge_associative(a: MatchInfoV, b: MatchInfoV, c: MatchInfoV)
    requires
        a.wf(),
        b.wf(),
        c.wf(),
        b.start <= a.end,
        c.start <= b.end,
    ensures
        merge_v(merge_v(a, b), c) == merge_v(a, merge_v(b, c)),
{
    let ab = merge_v(a, b);
    let bc = merge_v(b, c);
    lemma_drop_below_add(b.indices, drop_below(c.indices, b.end), a.end);
    lemma_drop_below_compose(c.indices, b.end, a.end);
    lemma_drop_below_compose(c.indices, a.end, b.end);
    assert(merge_v(a, bc).indices =~= (a.indices + drop_below(b.indices, a.end)) + drop_below(
        drop_below(c.indices, b.end),
        a.end,
    ));
    assert(merge_v(ab, c).indices =~= (a.indices + drop_below(b.indices, a.end)) + drop_below(
        c.indices,
        ab.end,
    ));
    assert(drop_below(drop_below(c.indices, b.end), a.end) == drop_below(
        drop_below(c.indices, a.end),
        b.end,
    ));
    assert(merge_v(ab, c).indices =~= merge_v(a, bc).indices);
    assert(merge_v(ab, c) == merge_v(a, bc));
}

} // verus!
