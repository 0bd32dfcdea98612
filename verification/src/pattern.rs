//! Sub-patterns of a query and the fuzzy, case-insensitive match test.
//!
//! A sub-pattern matches a line when its characters appear in order (not
//! necessarily contiguously) in the ASCII-lowercased characters of the line.

use vstd::prelude::*;

verus! {

/// ASCII-lowercasing of one character; every other character is unchanged.
pub open spec fn lower_char(c: char) -> char {
    if 'A' <= c && c <= 'Z' {
        ((c as u32) + 32) as char
    } else {
        c
    }
}

/// ASCII-lowercasing of a character sequence.
pub open spec fn lower_seq(s: Seq<char>) -> Seq<char> {
    s.map_values(|c: char| lower_char(c))
}

/// `needle` appears in `hay` in order, not necessarily contiguously.
pub open spec fn is_subseq(needle: Seq<char>, hay: Seq<char>) -> bool
    decreases hay.len(),
{
    if needle.len() == 0 {
        true
    } else if hay.len() == 0 {
        false
    } else {
        (hay[0] == needle[0] && is_subseq(needle.skip(1), hay.skip(1))) || is_subseq(
            needle,
            hay.skip(1),
        )
    }
}

/// A whitespace character, as Unicode defines the `White_Space` property.
pub open spec fn is_space(c: char) -> bool {
    ('\u{9}' <= c && c <= '\u{D}') || c == ' ' || c == '\u{85}' || c == '\u{A0}' || c == '\u{1680}'
        || ('\u{2000}' <= c && c <= '\u{200A}') || c == '\u{2028}' || c == '\u{2029}' || c
        == '\u{202F}' || c == '\u{205F}' || c == '\u{3000}'
}

/// Length of the maximal non-whitespace prefix of `s`.
pub open spec fn token_len(s: Seq<char>) -> int
    decreases s.len(),
{
    if s.len() == 0 || is_space(s[0]) {
        0
    } else {
        1 + token_len(s.skip(1))
    }
}

pub proof fn lemma_token_len_bounds(s: Seq<char>)
    ensures
        0 <= token_len(s) <= s.len(),
    decreases s.len(),
{
    if s.len() > 0 && !is_space(s[0]) {
        lemma_token_len_bounds(s.skip(1));
    }
}

/// The whitespace-separated tokens of `s`, in order; tokens are non-empty
/// and whitespace is dropped.
pub open spec fn split_ws(s: Seq<char>) -> Seq<Seq<char>>
    decreases s.len(),
    via split_ws_dec
{
    if s.len() == 0 {
        Seq::empty()
    } else if is_space(s[0]) {
        split_ws(s.skip(1))
    } else {
        seq![s.subrange(0, token_len(s))] + split_ws(s.skip(token_len(s)))
    }
}

#[via_fn]
proof fn split_ws_dec(s: Seq<char>) {
    if s.len() > 0 && !is_space(s[0]) {
        lemma_token_len_bounds(s.skip(1));
    }
}

/// Dropping the first needle character keeps the subsequence relation.
proof fn lemma_subseq_drop_needle_head(needle: Seq<char>, hay: Seq<char>)
    requires
        needle.len() > 0,
        is_subseq(needle, hay),
    ensures
        is_subseq(needle.skip(1), hay),
    decreases hay.len(),
{
    if hay.len() == 0 {
    } else if hay[0] == needle[0] && is_subseq(needle.skip(1), hay.skip(1)) {
        lemma_subseq_any_hay_head(needle.skip(1), hay);
    } else {
        lemma_subseq_drop_needle_head(needle, hay.skip(1));
    }
}

/// A subsequence of the tail of `hay` is a subsequence of `hay`.
proof fn lemma_subseq_any_hay_head(needle: Seq<char>, hay: Seq<char>)
    requires
        hay.len() > 0,
        is_subseq(needle, hay.skip(1)),
    ensures
        is_subseq(needle, hay),
{
}

/// When the heads agree, consuming both preserves matchability: the greedy
/// scan may always take the first occurrence.
proof fn lemma_subseq_step_match(needle: Seq<char>, hay: Seq<char>)
    requires
        needle.len() > 0,
        hay.len() > 0,
        hay[0] == needle[0],
    ensures
        is_subseq(needle, hay) <==> is_subseq(needle.skip(1), hay.skip(1)),
{
    if is_subseq(needle, hay) {
        if !(hay[0] == needle[0] && is_subseq(needle.skip(1), hay.skip(1))) {
            lemma_subseq_drop_needle_head(needle, hay.skip(1));
        }
    }
}

/// Lowercase one character.
pub fn to_lower(c: char) -> (r: char)
    ensures
        r == lower_char(c),
{
    if 'A' <= c && c <= 'Z' {
        let u: u32 = c as u32;
        match char::from_u32(u + 32) {
            Some(l) => l,
            None => vstd::pervasive::unreached(),
        }
    } else {
        c
    }
}

/// Whether `c` is whitespace.
pub fn is_space_char(c: char) -> (r: bool)
    ensures
        r == is_space(c),
{
    ('\u{9}' <= c && c <= '\u{D}') || c == ' ' || c == '\u{85}' || c == '\u{A0}' || c == '\u{1680}'
        || ('\u{2000}' <= c && c <= '\u{200A}') || c == '\u{2028}' || c == '\u{2029}' || c
        == '\u{202F}' || c == '\u{205F}' || c == '\u{3000}'
}

/// One token of a query, stored lowercased.
pub struct Pattern {
    pub chars: Vec<char>,
}

impl Pattern {
    /// A pattern is a non-empty lowercased token.
    pub open spec fn wf(self) -> bool {
        self.chars@.len() > 0
    }

    /// Whether this pattern matches the given line characters: its
    /// characters appear in order in the lowercased line.
    pub open spec fn spec_matches(self, hay: Seq<char>) -> bool {
        is_subseq(self.chars@, lower_seq(hay))
    }

    pub fn test(&self, haystack: &[char]) -> (r: bool)
        requires
            self.wf(),
        ensures
            r == self.spec_matches(haystack@),
    {
        test_fuzzy_ignorecase(haystack, self.chars.as_slice())
    }
}

/// Greedy scan over `haystack`, consuming one needle character at each
/// first occurrence; complete for the subsequence relation.
pub fn test_fuzzy_ignorecase(haystack: &[char], needle: &[char]) -> (r: bool)
    requires
        needle@.len() > 0,
    ensures
        r == is_subseq(needle@, lower_seq(haystack@)),
{
    let ghost gh = lower_seq(haystack@);
    let mut nidx: usize = 0;
    let mut i: usize = 0;
    proof {
        assert(needle@.skip(0) =~= needle@);
        assert(gh.skip(0) =~= gh);
    }
    while i < haystack.len()
        invariant
            0 <= nidx < needle@.len(),
            0 <= i <= haystack@.len(),
            gh == lower_seq(haystack@),
            is_subseq(needle@, gh) <==> is_subseq(needle@.skip(nidx as int), gh.skip(i as int)),
        decreases haystack@.len() - i,
    {
        let ch = to_lower(haystack[i]);
        proof {
            assert(gh.skip(i as int)[0] == gh[i as int]);
        }
        if ch == needle[nidx] {
            proof {
                lemma_subseq_step_match(needle@.skip(nidx as int), gh.skip(i as int));
                assert(needle@.skip(nidx as int).skip(1) =~= needle@.skip(nidx + 1));
                assert(gh.skip(i as int).skip(1) =~= gh.skip(i + 1));
            }
            nidx = nidx + 1;
            if nidx == needle.len() {
                proof {
                    assert(needle@.skip(nidx as int).len() == 0);
                }
                return true;
            }
        } else {
            proof {
                assert(needle@.skip(nidx as int)[0] == needle@[nidx as int]);
                assert(gh.skip(i as int).skip(1) =~= gh.skip(i + 1));
            }
        }
        i = i + 1;
    }
    proof {
        assert(gh.skip(i as int).len() == 0);
        assert(needle@.skip(nidx as int).len() > 0);
    }
    false
}

/// Split `s` on whitespace and lowercase each token.
pub fn patterns_from_str(s: &str) -> (r: Vec<Pattern>)
    ensures
        r@.len() == split_ws(s@).len(),
        forall|j: int| 0 <= j < r@.len() ==> r@[j].chars@ == lower_seq(#[trigger] split_ws(s@)[j]),
        forall|j: int| 0 <= j < r@.len() ==> (#[trigger] r@[j]).wf(),
{
    let n: usize = s.unicode_len();
    let mut patterns: Vec<Pattern> = Vec::new();
    let ghost mut done: Seq<Seq<char>> = Seq::empty();
    let mut i: usize = 0;
    proof {
        assert(s@.skip(0) =~= s@);
        assert(Seq::<Seq<char>>::empty() + split_ws(s@) =~= split_ws(s@));
    }
    while i < n
        invariant
            0 <= i <= n,
            n == s@.len(),
            split_ws(s@) == done + split_ws(s@.skip(i as int)),
            patterns@.len() == done.len(),
            forall|j: int| 0 <= j < done.len() ==> patterns@[j].chars@ == lower_seq(
                #[trigger] done[j],
            ),
            forall|j: int| 0 <= j < done.len() ==> (#[trigger] done[j]).len() > 0,
        decreases n - i,
    {
        let c = s.get_char(i);
        proof {
            assert(s@.skip(i as int)[0] == s@[i as int]);
        }
        if is_space_char(c) {
            proof {
                assert(s@.skip(i as int).skip(1) =~= s@.skip(i + 1));
            }
            i = i + 1;
        } else {
            // Scan the maximal non-whitespace token starting at `i`,
            // collecting its lowercased characters.
            let ghost rest = s@.skip(i as int);
            let mut token: Vec<char> = Vec::new();
            let mut j: usize = i;
            while j < n && !is_space_char(s.get_char(j))
                invariant
                    i <= j <= n,
                    n == s@.len(),
                    token_len(s@.skip(i as int)) == (j - i) + token_len(s@.skip(j as int)),
                    token@ == lower_seq(s@.subrange(i as int, j as int)),
                decreases n - j,
            {
                proof {
                    assert(s@.skip(j as int)[0] == s@[j as int]);
                    assert(s@.skip(j as int).skip(1) =~= s@.skip(j + 1));
                }
                token.push(to_lower(s.get_char(j)));
                proof {
                    assert(lower_seq(s@.subrange(i as int, j + 1)) =~= lower_seq(
                        s@.subrange(i as int, j as int),
                    ).push(lower_char(s@[j as int])));
                }
                j = j + 1;
            }
            proof {
                assert(token_len(s@.skip(j as int)) == 0);
                assert(token_len(rest) == j - i);
                assert(rest.subrange(0, j - i) =~= s@.subrange(i as int, j as int));
                assert(rest.skip(j - i) =~= s@.skip(j as int));
                assert(split_ws(rest) == seq![s@.subrange(i as int, j as int)] + split_ws(
                    s@.skip(j as int),
                ));
                assert(done + split_ws(rest) =~= (done.push(s@.subrange(i as int, j as int)))
                    + split_ws(s@.skip(j as int)));
            }
            patterns.push(Pattern { chars: token });
            proof {
                done = done.push(s@.subrange(i as int, j as int));
            }
            i = j;
        }
    }
    proof {
        assert(split_ws(s@.skip(i as int)) =~= Seq::<Seq<char>>::empty());
        assert(split_ws(s@) =~= done);
        assert forall|j: int| 0 <= j < patterns@.len() implies patterns@[j].chars@ == lower_seq(
            #[trigger] split_ws(s@)[j],
        ) by {
            assert(patterns@[j].chars@ == lower_seq(done[j]));
        }
        assert forall|j: int| 0 <= j < patterns@.len() implies (#[trigger] patterns@[j]).wf() by {
            assert(patterns@[j].chars@ == lower_seq(done[j]));
            assert(done[j].len() > 0);
        }
    }
    patterns
}

} // verus!
