//! Events produced from the controlling terminal.
//!
//! The byte reader and the resize watcher that produce these events block
//! on the terminal and on a signal flag, so they run outside the library;
//! the events themselves are plain values the coordinator routes.

use vstd::prelude::*;

use crate::key::Key;

verus! {

/// One event from the terminal: a key, or a window-size change.
pub enum Event {
    KeyDown(Key),
    SigWinch,
}

} // verus!
