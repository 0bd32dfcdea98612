//! One resolved list entry, as handed to the renderer.

use vstd::prelude::*;

verus! {

/// The display text of one visible line.
pub struct Item {
    pub string: String,
}

impl Item {
    pub fn new(string: String) -> (r: Self)
        ensures
            r.string@ == string@,
    {
        Item { string }
    }
}

} // verus!
