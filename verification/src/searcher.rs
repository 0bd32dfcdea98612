//! The bounded incremental searcher.
//!
//! One request tests at most a fixed batch of lines starting at a given
//! index, so per-request latency stays predictable while the query line
//! remains responsive.

use vstd::prelude::*;

use crate::line::LineV;
use crate::line_storage::LineStorage;
use crate::query::query_matches;
use crate::search::{info_sound, Request, Response};

verus! {

/// A message asking the searcher to work.
pub enum Input {
    Search(Request),
}

/// A message carrying a finished search.
pub enum Reply {
    DidSearch(Response),
}

/// The request/reply search actor; the line store is handed in per request
/// by whoever owns the shared handle.
pub struct Searcher {
}

/// The indices in `[start, end)` whose line matches `q`, ascending.
pub open spec fn matching_indices(q: Seq<char>, lines: Seq<LineV>, start: int, end: int) -> Seq<
    usize,
>
    decreases end - start,
{
    if start >= end {
        Seq::empty()
    } else {
        (if query_matches(q, lines[start].chars) {
            seq![start as usize]
        } else {
            Seq::empty()
        }) + matching_indices(q, lines, start + 1, end)
    }
}

/// Extending the scanned range by one line appends its index when it
/// matches.
proof fn lemma_matching_indices_extend(q: Seq<char>, lines: Seq<LineV>, start: int, end: int)
    requires
        start <= end,
    ensures
        matching_indices(q, lines, start, end + 1) == matching_indices(q, lines, start, end) + (
        if query_matches(q, lines[end].chars) {
            seq![end as usize]
        } else {
            Seq::<usize>::empty()
        }),
    decreases end - start,
{
    if start >= end {
        assert(matching_indices(q, lines, start + 1, start + 1) =~= Seq::<usize>::empty());
        assert(matching_indices(q, lines, start, end + 1) =~= matching_indices(
            q,
            lines,
            start,
            end,
        ) + (if query_matches(q, lines[end].chars) {
            seq![end as usize]
        } else {
            Seq::<usize>::empty()
        }));
    } else {
        lemma_matching_indices_extend(q, lines, start + 1, end);
        assert(matching_indices(q, lines, start, end + 1) =~= matching_indices(
            q,
            lines,
            start,
            end,
        ) + (if query_matches(q, lines[end].chars) {
            seq![end as usize]
        } else {
            Seq::<usize>::empty()
        }));
    }
}

/// The matched indices are ascending, lie within the scanned range, and an
/// index of the range is reported exactly when its line matches.
pub proof fn lemma_matching_indices_correct(q: Seq<char>, lines: Seq<LineV>, start: int, end: int)
    requires
        0 <= start <= end <= usize::MAX as int,
    ensures
        forall|j: int, k: int|
            0 <= j < k < matching_indices(q, lines, start, end).len() ==> matching_indices(
                q,
                lines,
                start,
                end,
            )[j] < matching_indices(q, lines, start, end)[k],
        forall|j: int|
            0 <= j < matching_indices(q, lines, start, end).len() ==> start <= (
            #[trigger] matching_indices(q, lines, start, end)[j] as int) < end,
        forall|i: int|
            start <= i < end ==> (matching_indices(q, lines, start, end).contains(i as usize)
                <==> query_matches(q, #[trigger] lines[i].chars)),
    decreases end - start,
{
    if start < end {
        lemma_matching_indices_correct(q, lines, start + 1, end);
        let m = matching_indices(q, lines, start, end);
        let rest = matching_indices(q, lines, start + 1, end);
        assert forall|j: int| 0 <= j < m.len() implies start <= (#[trigger] m[j] as int)
            < end by {
            if query_matches(q, lines[start].chars) {
                if j > 0 {
                    assert(m[j] == rest[j - 1]);
                }
            } else {
                assert(m =~= rest);
                assert(m[j] == rest[j]);
            }
        }
        assert forall|j: int, k: int| 0 <= j < k < m.len() implies m[j] < m[k] by {
            if query_matches(q, lines[start].chars) {
                assert(m[k] == rest[k - 1]);
                if j > 0 {
                    assert(m[j] == rest[j - 1]);
                } else {
                    assert(start <= rest[k - 1] as int);
                    assert(m[j] == (start as usize));
                    assert(start + 1 <= rest[k - 1] as int);
                }
            } else {
                assert(m =~= rest);
            }
        }
        assert forall|i: int|
            start <= i < end implies (m.contains(i as usize) <==> query_matches(
            q,
            #[trigger] lines[i].chars,
        )) by {
            if i == start {
                if query_matches(q, lines[start].chars) {
                    assert(m[0] == (start as usize));
                    assert(m.contains(start as usize));
                } else {
                    assert(m =~= rest);
                    if m.contains(i as usize) {
                        let j = choose|j: int| 0 <= j < m.len() && m[j] == (i as usize);
                        assert(start + 1 <= m[j] as int);
                    }
                }
            } else {
                if rest.contains(i as usize) {
                    let j = choose|j: int| 0 <= j < rest.len() && rest[j] == (i as usize);
                    if query_matches(q, lines[start].chars) {
                        assert(m[j + 1] == (i as usize));
                    } else {
                        assert(m =~= rest);
                    }
                    assert(m.contains(i as usize));
                }
                if m.contains(i as usize) {
                    let j = choose|j: int| 0 <= j < m.len() && m[j] == (i as usize);
                    if query_matches(q, lines[start].chars) {
                        assert(j > 0);
                        assert(rest[j - 1] == (i as usize));
                        assert(rest.contains(i as usize));
                    } else {
                        assert(m =~= rest);
                        assert(rest.contains(i as usize));
                    }
                }
            }
        }
    }
}

impl Searcher {
    pub fn new() -> (s: Self) {
        Searcher {  }
    }

    /// Test the lines at `[start, min(start + 5000, len))` against the
    /// request's query and report the matching indices in ascending order.
    #[verifier::loop_isolation(false)]
    pub fn search(&self, line_storage: &LineStorage, request: Request) -> (reply: Reply)
        requires
            line_storage.wf(),
            request.query.wf(),
            request.start <= line_storage@.len(),
        ensures
            reply matches Reply::DidSearch(resp) && resp.query == request.query
                && resp.match_info@.start == request.start as int && resp.match_info@.end == (
            if request.start + 5000 <= line_storage@.len() {
                request.start + 5000
            } else {
                line_storage@.len() as int
            }) && resp.match_info@.indices == matching_indices(
                request.query@,
                line_storage@,
                request.start as int,
                resp.match_info@.end,
            ) && info_sound(resp.match_info@, request.query@, line_storage@)
                && resp.query.wf(),
    {
        let Request { query, start } = request;
        let tests_per_req: usize = 5000;
        let len = line_storage.len();
        let remaining = len - start;
        let batch = if remaining < tests_per_req {
            remaining
        } else {
            tests_per_req
        };
        let end = start + batch;
        let mut line_indices: Vec<usize> = Vec::new();
        let mut i: usize = start;
        while i < end
            invariant
                start <= i <= end,
                line_indices@ == matching_indices(query@, line_storage@, start as int, i as int),
            decreases end - i,
        {
            proof {
                lemma_matching_indices_extend(
                    query@,
                    line_storage@,
                    start as int,
                    i as int,
                );
            }
            let line = line_storage.get(i);
            if query.test(line.as_chars()) {
                line_indices.push(i);
                proof {
                    assert(line_indices@ =~= matching_indices(
                        query@,
                        line_storage@,
                        start as int,
                        i as int,
                    ) + seq![i]);
                }
            } else {
                proof {
                    assert(line_indices@ =~= matching_indices(
                        query@,
                        line_storage@,
                        start as int,
                        i as int,
                    ) + Seq::<usize>::empty());
                }
            }
            i = i + 1;
        }
        proof {
            lemma_matching_indices_correct(query@, line_storage@, start as int, end as int);
        }
        Reply::DidSearch(Response::new(query, line_indices, start..end))
    }
}

} // verus!
