//! Translation between the actors' vocabularies.
//!
//! The coordinator owns no policy: it renames events on their way to the
//! reducer and routes the reducer's replies, surfacing the completion as
//! the final result. The fan-in loops that feed these translators block on
//! channels, so they run outside the library.

use vstd::prelude::*;

use crate::commander;
use crate::line::Line;
use crate::reader;
use crate::searcher;
use crate::state;

verus! {

/// The pure fan-out/fan-in hub.
pub struct Coordinator;

impl Coordinator {
    pub fn new() -> (c: Self) {
        Coordinator
    }
}

/// Where one reducer reply goes: out as the final result, or on to the
/// searcher.
pub enum Dispatch {
    Finish(Vec<Line>),
    ToSearcher(searcher::Input),
}

/// A terminal event becomes a key stroke or a relayout for the reducer.
pub fn process_commander_event(event: commander::Event) -> (r: state::Input)
    ensures
        r == (match event {
            commander::Event::KeyDown(k) => state::Input::PutKey(k),
            commander::Event::SigWinch => state::Input::ResizeScreen,
        }),
{
    match event {
        commander::Event::KeyDown(key) => state::Input::PutKey(key),
        commander::Event::SigWinch => state::Input::ResizeScreen,
    }
}

/// A reader event becomes a refresh or the end-of-input notice.
pub fn process_reader_event(event: reader::Event) -> (r: state::Input)
    ensures
        r == (match event {
            reader::Event::DidFinish => state::Input::ReaderDidFinish,
            reader::Event::DidReadChunk => state::Input::UpdateScreen,
        }),
{
    match event {
        reader::Event::DidFinish => state::Input::ReaderDidFinish,
        reader::Event::DidReadChunk => state::Input::UpdateScreen,
    }
}

/// A finished search is handed to the reducer.
pub fn process_searcher_reply(reply: searcher::Reply) -> (r: state::Input)
    ensures
        r == (match reply {
            searcher::Reply::DidSearch(resp) => state::Input::PutSearchResponse(resp),
        }),
{
    match reply {
        searcher::Reply::DidSearch(response) => state::Input::PutSearchResponse(response),
    }
}

/// A completion surfaces as the final result; a search request goes to
/// the searcher.
pub fn process_state_reply(reply: state::Reply) -> (r: Dispatch)
    ensures
        r == (match reply {
            state::Reply::Complete(lines) => Dispatch::Finish(lines),
            state::Reply::SendSearchRequest(req) => Dispatch::ToSearcher(
                searcher::Input::Search(req),
            ),
        }),
{
    match reply {
        state::Reply::Complete(lines) => Dispatch::Finish(lines),
        state::Reply::SendSearchRequest(request) => Dispatch::ToSearcher(
            searcher::Input::Search(request),
        ),
    }
}

} // verus!
