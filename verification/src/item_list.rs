//! The item-list view model: which line indices are shown, the clipping
//! window, the highlighted row and the marked lines.
//!
//! The list abstracts over its indices: either an identity range (no query)
//! or an explicit ascending vector of matched indices. A fixed height `H`
//! clips the window `[s, s + min(H, len))`; the highlighted row is `Some`
//! exactly when the list is non-empty; marks persist across provider swaps.

use vstd::prelude::*;

use core::ops::Range;

verus! {

/// The index sequence `[start, end)`.
pub open spec fn range_seq(start: int, end: int) -> Seq<usize> {
    if start <= end {
        Seq::new((end - start) as nat, |i: int| (start + i) as usize)
    } else {
        Seq::empty()
    }
}

/// A provider of line indices for the list.
pub trait Indices {
    /// The indices produced, in order.
    spec fn spec_seq(&self) -> Seq<usize>;

    /// How many indices are produced.
    fn count(&self) -> (n: usize)
        ensures
            n == self.spec_seq().len(),
    ;

    /// The index at position `i`.
    fn at(&self, i: usize) -> (r: usize)
        requires
            (i as int) < self.spec_seq().len(),
        ensures
            r == self.spec_seq()[i as int],
    ;
}

impl Indices for Range<usize> {
    open spec fn spec_seq(&self) -> Seq<usize> {
        range_seq(self.start as int, self.end as int)
    }

    fn count(&self) -> (n: usize) {
        if self.start <= self.end {
            self.end - self.start
        } else {
            0
        }
    }

    fn at(&self, i: usize) -> (r: usize) {
        self.start + i
    }
}

impl Indices for Vec<usize> {
    open spec fn spec_seq(&self) -> Seq<usize> {
        self@
    }

    fn count(&self) -> (n: usize) {
        self.len()
    }

    fn at(&self, i: usize) -> (r: usize) {
        self[i]
    }
}

/// The two providers the list switches between: an identity range while no
/// query is active, and the explicit matched indices otherwise.
pub enum Provider {
    Bounded(Range<usize>),
    Explicit(Vec<usize>),
}

impl Indices for Provider {
    open spec fn spec_seq(&self) -> Seq<usize> {
        match self {
            Provider::Bounded(r) => r.spec_seq(),
            Provider::Explicit(v) => v.spec_seq(),
        }
    }

    fn count(&self) -> (n: usize) {
        match self {
            Provider::Bounded(r) => r.count(),
            Provider::Explicit(v) => v.count(),
        }
    }

    fn at(&self, i: usize) -> (r: usize) {
        match self {
            Provider::Bounded(r) => r.at(i),
            Provider::Explicit(v) => v.at(i),
        }
    }
}

/// Abstract value of an [`ItemList`].
pub struct ItemListV {
    /// The list-view height `H`.
    pub height: int,
    /// The clipping start `s`.
    pub start: int,
    /// The highlighted row, as an offset into the clipping window.
    pub highlighted: Option<int>,
    /// The indices the provider currently produces.
    pub indices: Seq<usize>,
    /// The marked line indices, strictly ascending.
    pub marks: Seq<usize>,
}

impl ItemListV {
    pub open spec fn len(self) -> int {
        self.indices.len() as int
    }

    /// The number of visible rows: `min(H, len)`.
    pub open spec fn clip_len(self) -> int {
        if self.len() < self.height {
            self.len()
        } else {
            self.height
        }
    }

    pub open spec fn clip_end(self) -> int {
        self.start + self.clip_len()
    }

    pub open spec fn max_row(self) -> Option<int> {
        if self.clip_len() == 0 {
            None
        } else {
            Some(self.clip_len() - 1)
        }
    }

    /// The visible slice of the provider.
    pub open spec fn visible(self) -> Seq<usize> {
        self.indices.subrange(self.start, self.clip_end())
    }

    /// The window fits, the highlight exists exactly for non-empty lists
    /// and sits within the window, and the marks are strictly ascending.
    pub open spec fn wf(self) -> bool {
        &&& self.height > 0
        &&& 0 <= self.start
        &&& self.clip_end() <= self.len()
        &&& (self.highlighted is Some <==> self.len() > 0)
        &&& (self.highlighted matches Some(h) ==> 0 <= h < self.clip_len())
        &&& forall|j: int, k: int| 0 <= j < k < self.marks.len() ==> self.marks[j] < self.marks[k]
    }

    /// Swap the provider: clamp the clipping start down so the window fits,
    /// and move the highlight onto the new window.
    pub open spec fn with_indices(self, indices: Seq<usize>) -> ItemListV {
        let l1 = ItemListV { indices, ..self };
        let start = if l1.start + l1.clip_len() <= l1.len() {
            l1.start
        } else {
            l1.len() - l1.clip_len()
        };
        let highlighted = if l1.clip_len() == 0 {
            None
        } else {
            match self.highlighted {
                None => Some(0int),
                Some(h) => if h > l1.clip_len() - 1 {
                    Some(l1.clip_len() - 1)
                } else {
                    Some(h)
                },
            }
        };
        ItemListV { start, highlighted, ..l1 }
    }

    /// Scroll one row forward if there is more below the window.
    pub open spec fn scrolled_forward(self) -> ItemListV {
        if self.clip_end() < self.len() {
            ItemListV { start: self.start + 1, ..self }
        } else {
            self
        }
    }

    /// Scroll one row backward if possible.
    pub open spec fn scrolled_backward(self) -> ItemListV {
        if self.start > 0 {
            ItemListV { start: self.start - 1, ..self }
        } else {
            self
        }
    }

    /// Move the highlight one row forward, scrolling at the window's edge.
    pub open spec fn moved_forward(self) -> ItemListV {
        match self.highlighted {
            None => self,
            Some(row) => if Some(row) == self.max_row() {
                self.scrolled_forward()
            } else {
                ItemListV { highlighted: Some(row + 1), ..self }
            },
        }
    }

    /// Move the highlight one row backward, scrolling at the window's top.
    pub open spec fn moved_backward(self) -> ItemListV {
        match self.highlighted {
            None => self,
            Some(row) => if row == 0 {
                self.scrolled_backward()
            } else {
                ItemListV { highlighted: Some(row - 1), ..self }
            },
        }
    }

    /// The line index under the highlight, if any.
    pub open spec fn highlighted_index(self) -> Option<usize> {
        match self.highlighted {
            None => None,
            Some(row) => Some(self.indices[self.start + row]),
        }
    }

    /// Flip the mark on the highlighted line.
    pub open spec fn toggled(self) -> ItemListV {
        match self.highlighted_index() {
            None => self,
            Some(idx) => ItemListV {
                marks: if self.marks.contains(idx) {
                    sorted_remove(self.marks, idx)
                } else {
                    sorted_insert(self.marks, idx)
                },
                ..self
            },
        }
    }

    /// What a completed selection resolves to: the marked lines in
    /// ascending order, else the single highlighted line, else nothing.
    pub open spec fn selected(self) -> Seq<usize> {
        if self.marks.len() > 0 {
            self.marks
        } else {
            match self.highlighted_index() {
                None => Seq::empty(),
                Some(idx) => seq![idx],
            }
        }
    }

    /// The visible rows (window offsets) whose line index is marked,
    /// considering the first `n` rows of the window.
    pub open spec fn marked_rows_upto(self, n: int) -> Seq<usize>
        decreases n,
    {
        if n <= 0 {
            Seq::empty()
        } else {
            self.marked_rows_upto(n - 1) + if self.marks.contains(
                self.indices[self.start + n - 1],
            ) {
                seq![(n - 1) as usize]
            } else {
                Seq::empty()
            }
        }
    }

    /// The visible rows whose line index is marked, in ascending order.
    pub open spec fn marked_rows(self) -> Seq<usize> {
        self.marked_rows_upto(self.clip_len())
    }
}

/// Insert `v` into an ascending sequence, keeping it ascending; a present
/// value is left alone.
pub open spec fn sorted_insert(s: Seq<usize>, v: usize) -> Seq<usize>
    decreases s.len(),
{
    if s.len() == 0 {
        seq![v]
    } else if v < s[0] {
        seq![v] + s
    } else if v == s[0] {
        s
    } else {
        seq![s[0]] + sorted_insert(s.skip(1), v)
    }
}

/// Remove the first occurrence of `v` from a sequence.
pub open spec fn sorted_remove(s: Seq<usize>, v: usize) -> Seq<usize>
    decreases s.len(),
{
    if s.len() == 0 {
        s
    } else if s[0] == v {
        s.skip(1)
    } else {
        seq![s[0]] + sorted_remove(s.skip(1), v)
    }
}

/// The scrollable, markable list of line indices.
pub struct ItemList {
    clipping_range_max_len: usize,
    clipping_range_start: usize,
    highlighted_row: Option<usize>,
    line_indices: Provider,
    marked_line_indices: Vec<usize>,
}

impl View for ItemList {
    type V = ItemListV;

    closed spec fn view(&self) -> ItemListV {
        ItemListV {
            height: self.clipping_range_max_len as int,
            start: self.clipping_range_start as int,
            highlighted: match self.highlighted_row {
                Some(r) => Some(r as int),
                None => None,
            },
            indices: self.line_indices.spec_seq(),
            marks: self.marked_line_indices@,
        }
    }
}

impl ItemList {
    /// An empty list clipped to `clipping_range_max_len` visible rows.
    pub fn new(clipping_range_max_len: usize) -> (r: Self)
        requires
            clipping_range_max_len > 0,
        ensures
            r@.height == clipping_range_max_len as int,
            r@.start == 0,
            r@.highlighted is None,
            r@.indices =~= Seq::<usize>::empty(),
            r@.marks =~= Seq::<usize>::empty(),
            r@.wf(),
    {
        ItemList {
            clipping_range_max_len,
            clipping_range_start: 0,
            highlighted_row: None,
            line_indices: Provider::Bounded(0usize..0usize),
            marked_line_indices: Vec::new(),
        }
    }

    pub fn highlighted_row(&self) -> (r: Option<usize>)
        ensures
            r is Some <==> self@.highlighted is Some,
            r matches Some(x) ==> self@.highlighted == Some(x as int),
    {
        self.highlighted_row
    }

    pub fn len(&self) -> (n: usize)
        ensures
            n as int == self@.len(),
    {
        self.line_indices.count()
    }

    /// The number of visible rows.
    fn clipping_range_len(&self) -> (n: usize)
        ensures
            n as int == self@.clip_len(),
    {
        let len = self.line_indices.count();
        if len < self.clipping_range_max_len {
            len
        } else {
            self.clipping_range_max_len
        }
    }

    /// The visible slice of the provider.
    #[verifier::loop_isolation(false)]
    pub fn line_indices_in_clipping_range(&self) -> (r: Vec<usize>)
        requires
            self@.wf(),
        ensures
            r@ == self@.visible(),
    {
        let len = self.line_indices.count();
        let cl = self.clipping_range_len();
        let mut out: Vec<usize> = Vec::new();
        let mut i: usize = 0;
        while i < cl
            invariant
                0 <= i <= cl,
                out@ == self@.indices.subrange(self@.start, self@.start + i),
            decreases cl - i,
        {
            out.push(self.line_indices.at(self.clipping_range_start + i));
            proof {
                assert(self@.indices.subrange(self@.start, self@.start + i + 1)
                    =~= self@.indices.subrange(self@.start, self@.start + i).push(
                    self@.indices[self@.start + i],
                ));
            }
            i = i + 1;
        }
        out
    }

    /// The selection a completed run resolves to: marked lines in
    /// ascending order, else the highlighted line, else nothing.
    pub fn selected_line_indices(&self) -> (r: Vec<usize>)
        requires
            self@.wf(),
        ensures
            r@ == self@.selected(),
    {
        if self.marked_line_indices.len() > 0 {
            vstd::slice::slice_to_vec(self.marked_line_indices.as_slice())
        } else {
            match self.highlighted_row {
                None => Vec::new(),
                Some(row) => {
                    let len = self.line_indices.count();
                    let idx = self.line_indices.at(self.clipping_range_start + row);
                    let mut out: Vec<usize> = Vec::new();
                    out.push(idx);
                    proof {
                        assert(out@ =~= self@.selected());
                    }
                    out
                },
            }
        }
    }

    /// The visible rows whose line index is marked, ascending.
    #[verifier::loop_isolation(false)]
    pub fn marked_rows(&self) -> (r: Vec<usize>)
        requires
            self@.wf(),
        ensures
            r@ == self@.marked_rows(),
    {
        let len = self.line_indices.count();
        let cl = self.clipping_range_len();
        let mut out: Vec<usize> = Vec::new();
        let mut row: usize = 0;
        while row < cl
            invariant
                0 <= row <= cl,
                out@ == self@.marked_rows_upto(row as int),
            decreases cl - row,
        {
            let idx = self.line_indices.at(self.clipping_range_start + row);
            if vec_contains(&self.marked_line_indices, idx) {
                out.push(row);
                proof {
                    assert(out@ =~= self@.marked_rows_upto(row as int) + seq![row]);
                }
            } else {
                proof {
                    assert(out@ =~= self@.marked_rows_upto(row as int) + Seq::<usize>::empty());
                }
            }
            row = row + 1;
        }
        out
    }

    /// Flip the mark on the highlighted line, if any.
    #[verifier::loop_isolation(false)]
    pub fn toggle_mark(&mut self)
        requires
            old(self)@.wf(),
        ensures
            final(self)@ == old(self)@.toggled(),
            final(self)@.wf(),
    {
        match self.highlighted_row {
            None => {},
            Some(row) => {
                let len = self.line_indices.count();
                let idx = self.line_indices.at(self.clipping_range_start + row);
                let n = self.marked_line_indices.len();
                let mut pos: usize = 0;
                while pos < n && self.marked_line_indices[pos] < idx
                    invariant
                        0 <= pos <= n,
                        forall|j: int| 0 <= j < pos ==> self@.marks[j] < idx,
                    decreases n - pos,
                {
                    pos = pos + 1;
                }
                let ghost marks0 = self@.marks;
                if pos < n && self.marked_line_indices[pos] == idx {
                    proof {
                        assert(marks0.contains(idx));
                        lemma_sorted_remove_at(marks0, idx, pos as int);
                        lemma_remove_preserves_ascending(marks0, pos as int);
                    }
                    let _removed = self.marked_line_indices.remove(pos);
                } else {
                    proof {
                        assert forall|j: int| 0 <= j < marks0.len() implies marks0[j] != idx by {
                            if j >= pos {
                                if pos < marks0.len() && j > pos {
                                    assert(marks0[pos as int] < marks0[j]);
                                }
                            }
                        }
                        assert(!marks0.contains(idx)) by {
                            if marks0.contains(idx) {
                                let j = choose|j: int|
                                    0 <= j < marks0.len() && marks0[j] == idx;
                            }
                        }
                        lemma_sorted_insert_at(marks0, idx, pos as int);
                        lemma_insert_preserves_ascending(marks0, idx, pos as int);
                    }
                    self.marked_line_indices.insert(pos, idx);
                }
            },
        }
    }

    /// Replace the provider with explicit indices.
    pub fn set_line_indices(&mut self, line_indices: Vec<usize>)
        requires
            old(self)@.wf(),
        ensures
            final(self)@ == old(self)@.with_indices(line_indices@),
            final(self)@.wf(),
    {
        self.apply_provider(Provider::Explicit(line_indices));
    }

    /// Replace the provider with the identity range over `range`.
    pub fn set_line_index_range(&mut self, range: Range<usize>)
        requires
            old(self)@.wf(),
        ensures
            final(self)@ == old(self)@.with_indices(
                range_seq(range.start as int, range.end as int),
            ),
            final(self)@.wf(),
    {
        self.apply_provider(Provider::Bounded(range));
    }

    /// Install a new provider, clamping the window and the highlight.
    fn apply_provider(&mut self, p: Provider)
        requires
            old(self)@.wf(),
        ensures
            final(self)@ == old(self)@.with_indices(p.spec_seq()),
            final(self)@.wf(),
    {
        self.line_indices = p;
        let len = self.line_indices.count();
        let cl = self.clipping_range_len();
        if self.clipping_range_start > len - cl {
            self.clipping_range_start = len - cl;
        }
        if cl == 0 {
            self.highlighted_row = None;
        } else {
            match self.highlighted_row {
                None => {
                    self.highlighted_row = Some(0);
                },
                Some(row) => {
                    if row > cl - 1 {
                        self.highlighted_row = Some(cl - 1);
                    }
                },
            }
        }
    }

    /// Move the highlight one row backward, scrolling at the window's top.
    pub fn move_highlight_backward(&mut self)
        requires
            old(self)@.wf(),
        ensures
            final(self)@ == old(self)@.moved_backward(),
            final(self)@.wf(),
    {
        match self.highlighted_row {
            None => {},
            Some(row) => {
                if row == 0 {
                    self.scroll_backward();
                } else {
                    self.highlighted_row = Some(row - 1);
                }
            },
        }
    }

    /// Move the highlight one row forward, scrolling at the window's edge.
    pub fn move_highlight_forward(&mut self)
        requires
            old(self)@.wf(),
        ensures
            final(self)@ == old(self)@.moved_forward(),
            final(self)@.wf(),
    {
        match self.highlighted_row {
            None => {},
            Some(row) => {
                let cl = self.clipping_range_len();
                if row == cl - 1 {
                    self.scroll_forward();
                } else {
                    self.highlighted_row = Some(row + 1);
                }
            },
        }
    }

    /// Scroll one row backward if possible.
    pub fn scroll_backward(&mut self)
        requires
            old(self)@.wf(),
        ensures
            final(self)@ == old(self)@.scrolled_backward(),
            final(self)@.wf(),
    {
        if self.clipping_range_start > 0 {
            self.clipping_range_start = self.clipping_range_start - 1;
        }
    }

    /// Scroll one row forward if there is more below the window.
    pub fn scroll_forward(&mut self)
        requires
            old(self)@.wf(),
        ensures
            final(self)@ == old(self)@.scrolled_forward(),
            final(self)@.wf(),
    {
        let len = self.line_indices.count();
        let cl = self.clipping_range_len();
        if self.clipping_range_start + cl < len {
            self.clipping_range_start = self.clipping_range_start + 1;
        }
    }
}

/// Whether `v` contains `x`.
fn vec_contains(v: &Vec<usize>, x: usize) -> (r: bool)
    ensures
        r == v@.contains(x),
{
    let n = v.len();
    let mut i: usize = 0;
    while i < n
        invariant
            0 <= i <= n,
            n == v@.len(),
            forall|j: int| 0 <= j < i ==> v@[j] != x,
        decreases n - i,
    {
        if v[i] == x {
            return true;
        }
        i = i + 1;
    }
    proof {
        assert(!v@.contains(x)) by {
            if v@.contains(x) {
                let j = choose|j: int| 0 <= j < v@.len() && v@[j] == x;
            }
        }
    }
    false
}

/// Positional insert under the conditions of a sorted insert keeps the
/// sequence strictly ascending.
proof fn lemma_insert_preserves_ascending(s: Seq<usize>, v: usize, pos: int)
    requires
        0 <= pos <= s.len(),
        forall|j: int, k: int| 0 <= j < k < s.len() ==> s[j] < s[k],
        forall|j: int| 0 <= j < pos ==> s[j] < v,
        pos < s.len() ==> s[pos] > v,
    ensures
        forall|j: int, k: int|
            0 <= j < k < s.insert(pos, v).len() ==> s.insert(pos, v)[j] < s.insert(pos, v)[k],
{
    let t = s.insert(pos, v);
    assert forall|j: int, k: int| 0 <= j < k < t.len() implies t[j] < t[k] by {
        assert(t[j] == if j < pos {
            s[j]
        } else if j == pos {
            v
        } else {
            s[j - 1]
        });
        assert(t[k] == if k < pos {
            s[k]
        } else if k == pos {
            v
        } else {
            s[k - 1]
        });
        if j < pos && k > pos && k - 1 > pos - 1 && pos < s.len() {
        }
    }
}

/// Positional removal keeps a strictly ascending sequence ascending.
proof fn lemma_remove_preserves_ascending(s: Seq<usize>, pos: int)
    requires
        0 <= pos < s.len(),
        forall|j: int, k: int| 0 <= j < k < s.len() ==> s[j] < s[k],
    ensures
        forall|j: int, k: int|
            0 <= j < k < s.remove(pos).len() ==> s.remove(pos)[j] < s.remove(pos)[k],
{
    let t = s.remove(pos);
    assert forall|j: int, k: int| 0 <= j < k < t.len() implies t[j] < t[k] by {
        assert(t[j] == if j < pos {
            s[j]
        } else {
            s[j + 1]
        });
        assert(t[k] == if k < pos {
            s[k]
        } else {
            s[k + 1]
        });
    }
}

/// Swapping in the same indices twice equals swapping them in once: the
/// clamped window and highlight already satisfy every clamp.
pub proof fn lemma_with_indices_idempotent(l: ItemListV, indices: Seq<usize>)
    requires
        l.height > 0,
    ensures
        l.with_indices(indices).with_indices(indices) == l.with_indices(indices),
{
    let l1 = l.with_indices(indices);
    let l2 = l1.with_indices(indices);
    assert(l1.indices == indices);
    assert(ItemListV { indices, ..l1 } == l1);
    assert(l2.start == l1.start);
    if l1.clip_len() == 0 {
        assert(l2.highlighted == l1.highlighted);
    } else {
        assert(l1.clip_len() >= 1);
        assert(l2.highlighted == l1.highlighted);
    }
    assert(l2 == l1);
}

/// A sorted insert holds exactly the old elements and the new one.
pub proof fn lemma_sorted_insert_membership(s: Seq<usize>, v: usize)
    ensures
        forall|x: usize| #[trigger] sorted_insert(s, v).contains(x) <==> s.contains(x) || x == v,
    decreases s.len(),
{
    if s.len() == 0 {
        assert forall|x: usize| #[trigger]
            sorted_insert(s, v).contains(x) <==> s.contains(x) || x == v by {
            assert(sorted_insert(s, v) == seq![v]);
            assert(sorted_insert(s, v)[0] == v);
            if sorted_insert(s, v).contains(x) {
                let j = choose|j: int|
                    0 <= j < sorted_insert(s, v).len() && sorted_insert(s, v)[j] == x;
            }
        }
    } else if v < s[0] {
        crate::search::lemma_contains_add(seq![v], s);
        assert forall|x: usize| #[trigger]
            sorted_insert(s, v).contains(x) <==> s.contains(x) || x == v by {
            assert(seq![v].contains(x) <==> x == v) by {
                assert(seq![v][0] == v);
                if seq![v].contains(x) {
                    let j = choose|j: int| 0 <= j < seq![v].len() && seq![v][j] == x;
                }
            }
        }
    } else if v == s[0] {
        assert forall|x: usize| #[trigger]
            sorted_insert(s, v).contains(x) <==> s.contains(x) || x == v by {
            if x == v {
                assert(s.contains(v)) by {
                    assert(s[0] == v);
                }
            }
        }
    } else {
        lemma_sorted_insert_membership(s.skip(1), v);
        crate::search::lemma_contains_add(seq![s[0]], sorted_insert(s.skip(1), v));
        crate::search::lemma_contains_add(seq![s[0]], s.skip(1));
        assert(seq![s[0]] + s.skip(1) =~= s);
        assert forall|x: usize| #[trigger]
            sorted_insert(s, v).contains(x) <==> s.contains(x) || x == v by {
            assert(seq![s[0]].contains(x) <==> x == s[0]) by {
                assert(seq![s[0]][0] == s[0]);
                if seq![s[0]].contains(x) {
                    let j = choose|j: int| 0 <= j < seq![s[0]].len() && seq![s[0]][j] == x;
                }
            }
        }
    }
}

/// A sorted removal only drops elements.
pub proof fn lemma_sorted_remove_membership(s: Seq<usize>, v: usize)
    ensures
        forall|x: usize| #[trigger] sorted_remove(s, v).contains(x) ==> s.contains(x),
    decreases s.len(),
{
    if s.len() == 0 {
    } else if s[0] == v {
        assert forall|x: usize| #[trigger] sorted_remove(s, v).contains(x) implies s.contains(
            x,
        ) by {
            let j = choose|j: int| 0 <= j < s.skip(1).len() && s.skip(1)[j] == x;
            assert(s[j + 1] == x);
        }
    } else {
        lemma_sorted_remove_membership(s.skip(1), v);
        crate::search::lemma_contains_add(seq![s[0]], sorted_remove(s.skip(1), v));
        assert forall|x: usize| #[trigger] sorted_remove(s, v).contains(x) implies s.contains(
            x,
        ) by {
            if seq![s[0]].contains(x) {
                let j = choose|j: int| 0 <= j < seq![s[0]].len() && seq![s[0]][j] == x;
                assert(x == s[0]);
                assert(s.contains(x));
            } else {
                assert(sorted_remove(s.skip(1), v).contains(x));
                assert(s.skip(1).contains(x));
                let j = choose|j: int| 0 <= j < s.skip(1).len() && s.skip(1)[j] == x;
                assert(s[j + 1] == x);
            }
        }
    }
}

/// An identity-range list of length `N` shows exactly the consecutive
/// indices `[s, s + min(H, N))`.
pub proof fn lemma_identity_range_visible(l: ItemListV)
    requires
        l.wf(),
        l.indices == range_seq(0, l.len()),
    ensures
        l.visible() == Seq::new(l.clip_len() as nat, |i: int| (l.start + i) as usize),
{
    assert forall|i: int| 0 <= i < l.clip_len() implies l.visible()[i] == ((l.start + i) as usize) by {
        assert(l.visible()[i] == l.indices[l.start + i]);
        assert(range_seq(0, l.len())[l.start + i] == ((l.start + i) as usize));
    }
    assert(l.visible() =~= Seq::new(l.clip_len() as nat, |i: int| (l.start + i) as usize));
}

/// Every reported marked row lies in the window and names a marked visible
/// index, and every marked visible index is reported.
pub proof fn lemma_marked_rows_sound(l: ItemListV)
    requires
        l.wf(),
        l.clip_len() <= usize::MAX as int,
    ensures
        forall|j: int|
            0 <= j < l.marked_rows().len() ==> (#[trigger] l.marked_rows()[j] as int)
                < l.clip_len() && l.marks.contains(l.visible()[l.marked_rows()[j] as int]),
        forall|row: int|
            0 <= row < l.clip_len() && l.marks.contains(#[trigger] l.visible()[row])
                ==> l.marked_rows().contains(row as usize),
{
    lemma_marked_rows_upto_sound(l, l.clip_len());
    assert forall|row: int|
        0 <= row < l.clip_len() && l.marks.contains(#[trigger] l.visible()[row]) implies l
        .marked_rows().contains(row as usize) by {
        assert(l.visible()[row] == l.indices[l.start + row]);
    }
}

proof fn lemma_marked_rows_upto_sound(l: ItemListV, n: int)
    requires
        l.wf(),
        n <= l.clip_len() <= usize::MAX as int,
    ensures
        forall|j: int|
            0 <= j < l.marked_rows_upto(n).len() ==> 0 <= (#[trigger] l.marked_rows_upto(n)[j] as int)
                < n && l.marks.contains(l.visible()[l.marked_rows_upto(n)[j] as int]),
        forall|row: int|
            0 <= row < n && l.marks.contains(#[trigger] l.indices[l.start + row])
                ==> l.marked_rows_upto(n).contains(row as usize),
    decreases n,
{
    if n > 0 {
        lemma_marked_rows_upto_sound(l, n - 1);
        let m = l.marked_rows_upto(n);
        let prev = l.marked_rows_upto(n - 1);
        assert forall|j: int|
            0 <= j < m.len() implies 0 <= (#[trigger] m[j] as int) < n && l.marks.contains(
            l.visible()[m[j] as int],
        ) by {
            if j < prev.len() {
                assert(m[j] == prev[j]);
            } else {
                assert(m[j] == ((n - 1) as usize));
                assert(l.visible()[n - 1] == l.indices[l.start + n - 1]);
            }
        }
        assert forall|row: int|
            0 <= row < n && l.marks.contains(#[trigger] l.indices[l.start + row]) implies m
            .contains(row as usize) by {
            if row < n - 1 {
                assert(prev.contains(row as usize));
                let j = choose|j: int| 0 <= j < prev.len() && prev[j] == (row as usize);
                assert(m[j] == (row as usize));
            } else {
                assert(m[m.len() - 1] == (row as usize));
            }
        }
    }
}

/// With all earlier elements below `v` and the element at `pos` above it,
/// the sorted insert is the positional insert.
proof fn lemma_sorted_insert_at(s: Seq<usize>, v: usize, pos: int)
    requires
        0 <= pos <= s.len(),
        forall|j: int| 0 <= j < pos ==> s[j] < v,
        pos < s.len() ==> s[pos] > v,
    ensures
        sorted_insert(s, v) == s.insert(pos, v),
    decreases s.len(),
{
    if s.len() == 0 {
        assert(sorted_insert(s, v) =~= s.insert(0, v));
    } else if pos == 0 {
        assert(s[0] > v);
        assert(sorted_insert(s, v) =~= s.insert(0, v));
    } else {
        assert(s[0] < v);
        assert forall|j: int| 0 <= j < pos - 1 implies s.skip(1)[j] < v by {
            assert(s.skip(1)[j] == s[j + 1]);
        }
        assert(pos - 1 < s.skip(1).len() ==> s.skip(1)[pos - 1] > v);
        lemma_sorted_insert_at(s.skip(1), v, pos - 1);
        assert(seq![s[0]] + s.skip(1).insert(pos - 1, v) =~= s.insert(pos, v));
    }
}

/// With all earlier elements below `v` and `v` at `pos`, the sorted remove
/// is the positional remove.
proof fn lemma_sorted_remove_at(s: Seq<usize>, v: usize, pos: int)
    requires
        0 <= pos < s.len(),
        forall|j: int| 0 <= j < pos ==> s[j] < v,
        s[pos] == v,
    ensures
        sorted_remove(s, v) == s.remove(pos),
    decreases s.len(),
{
    if pos == 0 {
        assert(sorted_remove(s, v) =~= s.remove(0));
    } else {
        assert(s[0] < v);
        assert forall|j: int| 0 <= j < pos - 1 implies s.skip(1)[j] < v by {
            assert(s.skip(1)[j] == s[j + 1]);
        }
        assert(s.skip(1)[pos - 1] == v);
        lemma_sorted_remove_at(s.skip(1), v, pos - 1);
        assert(seq![s[0]] + s.skip(1).remove(pos - 1) =~= s.remove(pos));
    }
}

} // verus!
