//! The shared, append-only store of input lines.
//!
//! Indices are stable once assigned and the length never decreases, so
//! cached index lists stay valid across appends.

use vstd::prelude::*;

use crate::line::{Line, LineV};

verus! {

/// Append-only sequence of captured lines.
pub struct LineStorage {
    lines: Vec<Line>,
}

impl View for LineStorage {
    type V = Seq<LineV>;

    closed spec fn view(&self) -> Seq<LineV> {
        self.lines@.map_values(|l: Line| l@)
    }
}

impl LineStorage {
    /// Every stored line is well formed.
    pub closed spec fn wf(self) -> bool {
        forall|i: int| 0 <= i < self.lines@.len() ==> (#[trigger] self.lines@[i]).wf()
    }

    pub fn new() -> (s: Self)
        ensures
            s@ =~= Seq::<LineV>::empty(),
            s.wf(),
    {
        LineStorage { lines: Vec::new() }
    }

    pub fn len(&self) -> (n: usize)
        ensures
            n == self@.len(),
    {
        self.lines.len()
    }

    /// The line at index `i`.
    pub fn get(&self, i: usize) -> (l: &Line)
        requires
            i < self@.len(),
        ensures
            l@ == self@[i as int],
            self.wf() ==> l.wf(),
    {
        &self.lines[i]
    }

    /// All stored lines, in index order.
    pub fn iter(&self) -> (r: &Vec<Line>)
        ensures
            r@.len() == self@.len(),
            forall|i: int| 0 <= i < r@.len() ==> (#[trigger] r@[i])@ == self@[i],
            self.wf() ==> forall|i: int| 0 <= i < r@.len() ==> (#[trigger] r@[i]).wf(),
    {
        &self.lines
    }

    /// Resolve `indices` to copies of the lines they name. Every index must
    /// be in range; callers guarantee that from the store's monotonicity.
    pub fn get_many_unchecked(&self, indices: Vec<usize>) -> (r: Vec<Line>)
        requires
            self.wf(),
            forall|j: int| 0 <= j < indices@.len() ==> #[trigger] indices@[j] < self@.len(),
        ensures
            r@.len() == indices@.len(),
            forall|j: int| 0 <= j < r@.len() ==> (#[trigger] r@[j])@ == self@[indices@[j] as int],
            forall|j: int| 0 <= j < r@.len() ==> (#[trigger] r@[j]).wf(),
    {
        let mut r: Vec<Line> = Vec::new();
        let mut j: usize = 0;
        while j < indices.len()
            invariant
                0 <= j <= indices@.len(),
                self.wf(),
                forall|k: int| 0 <= k < indices@.len() ==> #[trigger] indices@[k] < self@.len(),
                r@.len() == j,
                forall|k: int| 0 <= k < j ==> (#[trigger] r@[k])@ == self@[indices@[k] as int],
                forall|k: int| 0 <= k < j ==> (#[trigger] r@[k]).wf(),
            decreases indices@.len() - j,
        {
            r.push(self.get(indices[j]).clone());
            j = j + 1;
        }
        r
    }

    /// Append a chunk of lines. The length never decreases and existing
    /// indices keep their lines: the store only grows at the end.
    pub fn put_chunk(&mut self, chunk: Vec<Line>)
        requires
            forall|i: int| 0 <= i < chunk@.len() ==> (#[trigger] chunk@[i]).wf(),
        ensures
            final(self)@ == old(self)@ + chunk@.map_values(|l: Line| l@),
            final(self)@.len() == old(self)@.len() + chunk@.len(),
            final(self)@.len() >= old(self)@.len(),
            forall|i: int| 0 <= i < old(self)@.len() ==> final(self)@[i] == old(self)@[i],
            old(self).wf() ==> final(self).wf(),
    {
        let mut moved = chunk;
        let ghost chunk0 = moved@;
        self.lines.append(&mut moved);
        proof {
            assert(self.lines@ == old(self).lines@ + chunk0);
            assert(self@ =~= old(self)@ + chunk0.map_values(|l: Line| l@));
        }
    }
}

} // verus!
