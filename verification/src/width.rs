//! Column-width computation for the renderer: slicing a line to the
//! longest prefix that fits the viewport.

use vstd::prelude::*;
use vstd::string::*;

verus! {

/// What `unicode_width` assigns to a character in a non-CJK context:
/// a function of the character alone; `None` for control characters.
pub uninterp spec fn char_width_of(c: char) -> Option<usize>;

/// What `unicode_width` assigns to a character in a CJK context.
pub uninterp spec fn char_width_cjk_of(c: char) -> Option<usize>;

/// Relies on `unicode_width::UnicodeWidthChar::width`: the displayed
/// width is a function of the character alone.
#[verifier::external_body]
fn char_width(c: char) -> (r: Option<usize>)
    ensures
        r == char_width_of(c),
{
    unicode_width::UnicodeWidthChar::width(c)
}

/// Relies on `unicode_width::UnicodeWidthChar::width_cjk`: the displayed
/// width is a function of the character alone.
#[verifier::external_body]
fn char_width_cjk(c: char) -> (r: Option<usize>)
    ensures
        r == char_width_cjk_of(c),
{
    unicode_width::UnicodeWidthChar::width_cjk(c)
}

/// The number of columns one character occupies; control characters
/// count as zero, as the renderer draws them zero-width.
pub open spec fn col_width(c: char, is_cjk: bool) -> int {
    match (if is_cjk {
        char_width_cjk_of(c)
    } else {
        char_width_of(c)
    }) {
        Some(w) => w as int,
        None => 0,
    }
}

/// How many leading characters of `s` fit in `limit` columns: the greedy
/// prefix, stopping at the first character that no longer fits.
pub open spec fn fit_prefix_len(s: Seq<char>, limit: int, is_cjk: bool) -> int
    decreases s.len(),
{
    if s.len() == 0 {
        0
    } else if col_width(s[0], is_cjk) > limit {
        0
    } else {
        1 + fit_prefix_len(s.skip(1), limit - col_width(s[0], is_cjk), is_cjk)
    }
}

proof fn lemma_fit_prefix_len_bound(s: Seq<char>, limit: int, is_cjk: bool)
    ensures
        0 <= fit_prefix_len(s, limit, is_cjk) <= s.len(),
    decreases s.len(),
{
    if s.len() > 0 && !(col_width(s[0], is_cjk) > limit) {
        lemma_fit_prefix_len_bound(s.skip(1), limit - col_width(s[0], is_cjk), is_cjk);
    }
}

/// The number of leading characters of `s` that fit in `limit` columns.
#[verifier::loop_isolation(false)]
fn fit_count(s: &str, limit: usize, is_cjk: bool) -> (r: usize)
    ensures
        r == fit_prefix_len(s@, limit as int, is_cjk),
        r <= s@.len(),
{
    let n = s.unicode_len();
    let mut i: usize = 0;
    let mut rem: usize = limit;
    proof {
        assert(s@.skip(0) =~= s@);
    }
    while i < n
        invariant
            0 <= i <= n,
            fit_prefix_len(s@, limit as int, is_cjk) == i + fit_prefix_len(
                s@.skip(i as int),
                rem as int,
                is_cjk,
            ),
        decreases n - i,
    {
        let c = s.get_char(i);
        proof {
            assert(s@.skip(i as int)[0] == s@[i as int]);
            assert(s@.skip(i as int).skip(1) =~= s@.skip(i + 1));
        }
        let w = match (if is_cjk {
            char_width_cjk(c)
        } else {
            char_width(c)
        }) {
            Some(w) => w,
            None => 0,
        };
        if w > rem {
            proof {
                assert(fit_prefix_len(s@.skip(i as int), rem as int, is_cjk) == 0);
            }
            return i;
        }
        rem = rem - w;
        i = i + 1;
    }
    proof {
        assert(s@.skip(i as int).len() == 0);
        assert(fit_prefix_len(s@.skip(i as int), rem as int, is_cjk) == 0);
    }
    i
}

/// The longest prefix of `s` whose columns fit in `slice_width`, computed
/// greedily with the configured width convention.
pub fn slice_by_width<'a>(s: &'a str, slice_width: usize, is_cjk: bool) -> (r: &'a str)
    ensures
        r@ == s@.subrange(0, fit_prefix_len(s@, slice_width as int, is_cjk)),
{
    let k = fit_count(s, slice_width, is_cjk);
    s.substring_char(0, k)
}

} // verus!
