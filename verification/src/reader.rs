//! Events produced by the input reader.
//!
//! The worker that reads lines and the dispatcher that moves chunks into
//! the line store do blocking I/O and sleep between dumps, so they run
//! outside the library; the events themselves are plain values.

use vstd::prelude::*;

verus! {

/// One event from the reader: a chunk landed in the store, or input ended.
pub enum Event {
    DidFinish,
    DidReadChunk,
}

} // verus!
