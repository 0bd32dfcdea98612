//! The central reducer: events in, screen snapshots and replies out.
//!
//! Every transition is specified by the pure function [`step`] over the
//! views of the state, the input and the line store, so the reducer's
//! behaviour is a function of what it sees: identical inputs give
//! identical outcomes.

use vstd::prelude::*;
use vstd::string::*;

use crate::config::Config;
use crate::item::Item;
use crate::item_list::{range_seq, ItemList, ItemListV};
use crate::key::Key;
use crate::line::{Line, LineV};
use crate::line_storage::LineStorage;
use crate::match_info_cache::{str_eq, MatchInfoCache};
use crate::query::{edit, query_matches, QueryEditor, QueryEditorV};
use crate::search::{info_sound, lemma_contains_add, merge_v, MatchInfoV, Request, Response};
use crate::screen_data::{ScreenData, ScreenDataV};

verus! {

/// A message into the reducer.
pub enum Input {
    PutKey(Key),
    PutSearchResponse(Response),
    ReaderDidFinish,
    ResizeScreen,
    UpdateScreen,
}

/// Abstract value of an [`Input`].
pub enum InputV {
    PutKey(Key),
    PutSearchResponse { query: Seq<char>, info: MatchInfoV },
    ReaderDidFinish,
    ResizeScreen,
    UpdateScreen,
}

impl View for Input {
    type V = InputV;

    open spec fn view(&self) -> InputV {
        match self {
            Input::PutKey(k) => InputV::PutKey(*k),
            Input::PutSearchResponse(r) => InputV::PutSearchResponse {
                query: r.query@,
                info: r.match_info@,
            },
            Input::ReaderDidFinish => InputV::ReaderDidFinish,
            Input::ResizeScreen => InputV::ResizeScreen,
            Input::UpdateScreen => InputV::UpdateScreen,
        }
    }
}

/// A message out of the reducer.
pub enum Reply {
    Complete(Vec<Line>),
    SendSearchRequest(Request),
}

/// Abstract value of a [`Reply`].
pub enum ReplyV {
    Complete(Seq<LineV>),
    SendSearchRequest { query: Seq<char>, start: int },
}

impl View for Reply {
    type V = ReplyV;

    open spec fn view(&self) -> ReplyV {
        match self {
            Reply::Complete(lines) => ReplyV::Complete(lines@.map_values(|l: Line| l@)),
            Reply::SendSearchRequest(req) => ReplyV::SendSearchRequest {
                query: req.query@,
                start: req.start as int,
            },
        }
    }
}

/// Abstract value of a [`State`].
pub struct StateV {
    pub is_cjk: bool,
    pub item_list: ItemListV,
    pub cache: Map<Seq<char>, MatchInfoV>,
    pub editor: QueryEditorV,
    pub status_message: Option<Seq<char>>,
}

/// One transition's outcome: the state after, an optional reply, and an
/// optional frame to draw.
pub struct Step {
    pub state: StateV,
    pub reply: Option<ReplyV>,
    pub screen: Option<ScreenDataV>,
}

/// Every cache entry is true of the store under its own query string.
pub open spec fn cache_sound(s: StateV, store: Seq<LineV>) -> bool {
    forall|k: Seq<char>|
        s.cache.contains_key(k) ==> info_sound(#[trigger] s.cache[k], k, store)
}

/// The structural invariant the reducer preserves: the view model is well
/// formed and everything it points into the store is in range.
pub open spec fn inv(s: StateV, store: Seq<LineV>) -> bool {
    &&& s.item_list.wf()
    &&& 0 <= s.editor.cursor <= s.editor.text.len()
    &&& forall|k: Seq<char>|
        s.cache.contains_key(k) ==> (#[trigger] s.cache[k]).wf() && s.cache[k].end <= store.len()
    &&& forall|j: int|
        0 <= j < s.item_list.indices.len() ==> (#[trigger] s.item_list.indices[j] as int)
            < store.len()
    &&& forall|x: usize| s.item_list.marks.contains(x) ==> (x as int) < store.len()
}

/// What the reducer accepts: a search response must be true of the store
/// and must continue the cached scan without a gap.
pub open spec fn accepts(s: StateV, input: InputV, store: Seq<LineV>) -> bool {
    match input {
        InputV::PutSearchResponse { query, info } => {
            &&& info_sound(info, query, store)
            &&& (s.cache.contains_key(query) ==> info.start <= s.cache[query].end)
            &&& (!s.cache.contains_key(query) ==> info.start == 0)
        },
        _ => true,
    }
}

/// The frame the reducer hands the renderer for state `s`.
pub open spec fn screen_of(s: StateV, store: Seq<LineV>) -> ScreenDataV {
    ScreenDataV {
        cursor_index: s.editor.cursor,
        highlighted_row: s.item_list.highlighted,
        is_cjk: s.is_cjk,
        item_list_len: s.item_list.len(),
        items: s.item_list.visible().map_values(|i: usize| store[i as int].chars),
        marked_rows: s.item_list.marked_rows(),
        query_string: s.editor.text,
        status_message: s.status_message,
        total_lines: store.len() as int,
    }
}

/// The query-resolution procedure: an empty query shows the whole store;
/// otherwise a cache hit is adopted (and continued if the scan is short),
/// and a miss starts a scan from the beginning.
pub open spec fn resolved(s: StateV, store: Seq<LineV>) -> Step {
    if s.editor.text.len() == 0 {
        let s2 = StateV {
            item_list: s.item_list.with_indices(range_seq(0, store.len() as int)),
            ..s
        };
        Step { state: s2, reply: None, screen: Some(screen_of(s2, store)) }
    } else if s.cache.contains_key(s.editor.text) {
        let info = s.cache[s.editor.text];
        let s2 = StateV { item_list: s.item_list.with_indices(info.indices), ..s };
        Step {
            state: s2,
            reply: if info.end < store.len() {
                Some(ReplyV::SendSearchRequest { query: s.editor.text, start: info.end })
            } else {
                None
            },
            screen: Some(screen_of(s2, store)),
        }
    } else {
        Step {
            state: s,
            reply: Some(ReplyV::SendSearchRequest { query: s.editor.text, start: 0 }),
            screen: Some(screen_of(s, store)),
        }
    }
}

/// One key's effect on the reducer.
pub open spec fn step_key(s: StateV, key: Key, store: Seq<LineV>) -> Step {
    match key {
        Key::CtrlC => Step {
            state: s,
            reply: Some(ReplyV::Complete(Seq::empty())),
            screen: None,
        },
        Key::CtrlI => {
            let s2 = StateV { item_list: s.item_list.toggled().moved_forward(), ..s };
            Step { state: s2, reply: None, screen: Some(screen_of(s2, store)) }
        },
        Key::CtrlM => Step {
            state: s,
            reply: Some(
                ReplyV::Complete(s.item_list.selected().map_values(|i: usize| store[i as int])),
            ),
            screen: None,
        },
        Key::CtrlN => {
            let s2 = StateV { item_list: s.item_list.moved_forward(), ..s };
            Step { state: s2, reply: None, screen: Some(screen_of(s2, store)) }
        },
        Key::CtrlP => {
            let s2 = StateV { item_list: s.item_list.moved_backward(), ..s };
            Step { state: s2, reply: None, screen: Some(screen_of(s2, store)) }
        },
        _ => {
            let s1 = StateV { editor: edit(s.editor, key), ..s };
            resolved(s1, store)
        },
    }
}

/// The reducer's transition function.
pub open spec fn step(s: StateV, input: InputV, store: Seq<LineV>) -> Step {
    match input {
        InputV::PutKey(key) => step_key(s, key, store),
        InputV::PutSearchResponse { query, info } => {
            let merged = if s.cache.contains_key(query) {
                merge_v(s.cache[query], info)
            } else {
                info
            };
            let s2 = StateV {
                cache: s.cache.insert(query, merged),
                item_list: s.item_list.with_indices(merged.indices),
                ..s
            };
            Step {
                state: s2,
                reply: if query == s.editor.text && merged.end < store.len() {
                    Some(ReplyV::SendSearchRequest { query: s.editor.text, start: merged.end })
                } else {
                    None
                },
                screen: Some(screen_of(s2, store)),
            }
        },
        InputV::ReaderDidFinish => Step {
            state: s,
            reply: if store.len() == 0 {
                Some(ReplyV::Complete(Seq::empty()))
            } else {
                None
            },
            screen: None,
        },
        InputV::ResizeScreen => Step { state: s, reply: None, screen: Some(screen_of(s, store)) },
        InputV::UpdateScreen => resolved(s, store),
    }
}

/// The UI model and its reducer.
pub struct State {
    is_cjk: bool,
    item_list: ItemList,
    match_info_cache: MatchInfoCache,
    query_editor: QueryEditor,
    status_message: Option<String>,
}

impl View for State {
    type V = StateV;

    closed spec fn view(&self) -> StateV {
        StateV {
            is_cjk: self.is_cjk,
            item_list: self.item_list@,
            cache: self.match_info_cache@,
            editor: self.query_editor@,
            status_message: match self.status_message {
                Some(ref m) => Some(m@),
                None => None,
            },
        }
    }
}

impl State {
    /// The parts are well formed.
    pub closed spec fn wf(self) -> bool {
        &&& self.item_list@.wf()
        &&& self.query_editor.wf()
        &&& self.match_info_cache.wf()
    }

    /// A fresh reducer: the configured initial query, an empty cache, and
    /// an empty list clipped to the given view height.
    pub fn new(config: &Config, list_view_height: usize) -> (s: State)
        requires
            list_view_height > 0,
        ensures
            s.wf(),
            s@.is_cjk == config@.is_cjk,
            s@.editor.text == (match config@.initial_query {
                Some(q) => q,
                None => ""@,
            }),
            s@.editor.cursor == s@.editor.text.len(),
            s@.cache =~= Map::<Seq<char>, MatchInfoV>::empty(),
            s@.item_list.height == list_view_height as int,
            s@.item_list.start == 0,
            s@.item_list.highlighted is None,
            s@.item_list.indices =~= Seq::<usize>::empty(),
            s@.item_list.marks =~= Seq::<usize>::empty(),
            s@.status_message is None,
            forall|store: Seq<LineV>| inv(s@, store) && cache_sound(s@, store),
    {
        let query_editor = match config.initial_query() {
            Some(q) => QueryEditor::new(q),
            None => QueryEditor::new(""),
        };
        let s = State {
            is_cjk: config.is_cjk(),
            item_list: ItemList::new(list_view_height),
            match_info_cache: MatchInfoCache::new(),
            query_editor,
            status_message: None,
        };
        proof {
            assert forall|store: Seq<LineV>| inv(s@, store) && cache_sound(s@, store) by {
                assert(!s@.cache.contains_key(s@.editor.text));
            }
        }
        s
    }

    /// Reduce one input. Returns the reply to route, if any, and the frame
    /// to draw, if any — exactly as [`step`] prescribes.
    pub fn process_input(&mut self, input: Input, line_storage: &LineStorage) -> (r: (
        Option<Reply>,
        Option<ScreenData>,
    ))
        requires
            old(self).wf(),
            line_storage.wf(),
            inv(old(self)@, line_storage@),
            cache_sound(old(self)@, line_storage@),
            accepts(old(self)@, input@, line_storage@),
            input matches Input::PutSearchResponse(resp) ==> resp.query.wf(),
        ensures
            final(self).wf(),
            inv(final(self)@, line_storage@),
            cache_sound(final(self)@, line_storage@),
            final(self)@ == step(old(self)@, input@, line_storage@).state,
            (match r.0 {
                Some(rep) => step(old(self)@, input@, line_storage@).reply == Some(rep@),
                None => step(old(self)@, input@, line_storage@).reply is None,
            }),
            (match r.1 {
                Some(sd) => step(old(self)@, input@, line_storage@).screen == Some(sd@),
                None => step(old(self)@, input@, line_storage@).screen is None,
            }),
    {
        let ghost s0 = self@;
        let ghost store = line_storage@;
        match input {
            Input::PutKey(key) => match key {
                Key::CtrlC => {
                    let reply = Reply::Complete(Vec::new());
                    proof {
                        assert(reply@ == ReplyV::Complete(
                            Seq::<Line>::empty().map_values(|l: Line| l@),
                        ));
                        assert(Seq::<Line>::empty().map_values(|l: Line| l@) =~= Seq::<
                            LineV,
                        >::empty());
                    }
                    (Some(reply), None)
                },
                Key::CtrlI => {
                    self.item_list.toggle_mark();
                    self.item_list.move_highlight_forward();
                    proof {
                        lemma_toggle_marks_bound(s0, store);
                    }
                    let sd = self.get_screen_data(line_storage);
                    (None, Some(sd))
                },
                Key::CtrlM => {
                    let indices = self.item_list.selected_line_indices();
                    proof {
                        lemma_selected_in_range(s0, store);
                    }
                    let items = line_storage.get_many_unchecked(indices);
                    proof {
                        assert(items@.map_values(|l: Line| l@) =~= s0.item_list.selected()
                            .map_values(|i: usize| store[i as int]));
                    }
                    (Some(Reply::Complete(items)), None)
                },
                Key::CtrlN => {
                    self.item_list.move_highlight_forward();
                    let sd = self.get_screen_data(line_storage);
                    (None, Some(sd))
                },
                Key::CtrlP => {
                    self.item_list.move_highlight_backward();
                    let sd = self.get_screen_data(line_storage);
                    (None, Some(sd))
                },
                other => {
                    self.query_editor.put_key(other);
                    self.resolve_query(line_storage)
                },
            },
            Input::PutSearchResponse(response) => {
                let Response { query, match_info } = response;
                let ghost infov = match_info@;
                let ghost q = query@;
                let key = String::from_str(query.as_str());
                // Binding the store's length as a machine word puts its
                // bound in scope for the soundness lemma.
                let _store_len = line_storage.len();
                proof {
                    lemma_merge_sound_opt(s0, q, infov, store);
                }
                self.match_info_cache.insert(key, match_info);
                let ghost merged = self@.cache[q];
                let info = match self.match_info_cache.get(query.as_str()) {
                    Some(info) => info,
                    None => vstd::pervasive::unreached(),
                };
                let end = info.index_range.end;
                let idxs = vstd::slice::slice_to_vec(info.line_indices.as_slice());
                proof {
                    assert forall|j: int| 0 <= j < idxs@.len() implies (#[trigger] idxs@[j] as int)
                        < store.len() by {
                        assert(merged.start <= merged.indices[j] < merged.end);
                    }
                }
                self.item_list.set_line_indices(idxs);
                let sd = self.get_screen_data(line_storage);
                if str_eq(query.as_str(), self.query_editor.as_str()) && end < line_storage.len() {
                    let request = Request { query: self.query_editor.query(), start: end };
                    (Some(Reply::SendSearchRequest(request)), Some(sd))
                } else {
                    (None, Some(sd))
                }
            },
            Input::ReaderDidFinish => {
                if line_storage.len() == 0 {
                    let reply = Reply::Complete(Vec::new());
                    proof {
                        assert(Seq::<Line>::empty().map_values(|l: Line| l@) =~= Seq::<
                            LineV,
                        >::empty());
                    }
                    (Some(reply), None)
                } else {
                    (None, None)
                }
            },
            Input::ResizeScreen => {
                let sd = self.get_screen_data(line_storage);
                (None, Some(sd))
            },
            Input::UpdateScreen => self.resolve_query(line_storage),
        }
    }

    /// Run the query-resolution procedure on the current editor text.
    fn resolve_query(&mut self, line_storage: &LineStorage) -> (r: (
        Option<Reply>,
        Option<ScreenData>,
    ))
        requires
            old(self).wf(),
            line_storage.wf(),
            inv(old(self)@, line_storage@),
            cache_sound(old(self)@, line_storage@),
        ensures
            final(self).wf(),
            inv(final(self)@, line_storage@),
            cache_sound(final(self)@, line_storage@),
            final(self)@ == resolved(old(self)@, line_storage@).state,
            (match r.0 {
                Some(rep) => resolved(old(self)@, line_storage@).reply == Some(rep@),
                None => resolved(old(self)@, line_storage@).reply is None,
            }),
            (match r.1 {
                Some(sd) => resolved(old(self)@, line_storage@).screen == Some(sd@),
                None => resolved(old(self)@, line_storage@).screen is None,
            }),
    {
        let ghost s0 = self@;
        let ghost store = line_storage@;
        if !self.query_editor.as_str().is_empty() {
            let cached = self.match_info_cache.get(self.query_editor.as_str());
            match cached {
                Some(info) => {
                    let end = info.index_range.end;
                    let idxs = vstd::slice::slice_to_vec(info.line_indices.as_slice());
                    let ghost iv = s0.cache[s0.editor.text];
                    proof {
                        assert forall|j: int|
                            0 <= j < idxs@.len() implies (#[trigger] idxs@[j] as int)
                            < store.len() by {
                            assert(iv.start <= iv.indices[j] < iv.end);
                        }
                    }
                    self.item_list.set_line_indices(idxs);
                    let sd = self.get_screen_data(line_storage);
                    if end < line_storage.len() {
                        let request = Request { query: self.query_editor.query(), start: end };
                        (Some(Reply::SendSearchRequest(request)), Some(sd))
                    } else {
                        (None, Some(sd))
                    }
                },
                None => {
                    let sd = self.get_screen_data(line_storage);
                    let request = Request { query: self.query_editor.query(), start: 0 };
                    (Some(Reply::SendSearchRequest(request)), Some(sd))
                },
            }
        } else {
            let len = line_storage.len();
            proof {
                assert forall|j: int|
                    0 <= j < range_seq(0, store.len() as int).len() implies (
                #[trigger] range_seq(0, store.len() as int)[j] as int) < store.len() by {
                }
            }
            self.item_list.set_line_index_range(0..len);
            let sd = self.get_screen_data(line_storage);
            (None, Some(sd))
        }
    }

    /// Assemble the frame for the current state.
    pub fn get_screen_data(&self, line_storage: &LineStorage) -> (sd: ScreenData)
        requires
            self.wf(),
            line_storage.wf(),
            inv(self@, line_storage@),
        ensures
            sd@ == screen_of(self@, line_storage@),
    {
        let ghost store = line_storage@;
        let indices = self.item_list.line_indices_in_clipping_range();
        proof {
            assert forall|j: int| 0 <= j < indices@.len() implies (#[trigger] indices@[j] as int)
                < store.len() by {
                assert(indices@[j] == self@.item_list.indices[self@.item_list.start + j]);
            }
        }
        let lines = line_storage.get_many_unchecked(indices);
        let mut items: Vec<Item> = Vec::new();
        let n = lines.len();
        let mut i: usize = 0;
        while i < n
            invariant
                0 <= i <= n,
                n == lines@.len(),
                forall|j: int| 0 <= j < n ==> (#[trigger] lines@[j]).wf(),
                items@.len() == i,
                forall|j: int| 0 <= j < i ==> (#[trigger] items@[j]).string@ == lines@[j]@.chars,
            decreases n - i,
        {
            let text = String::from_str(lines[i].as_str());
            items.push(Item::new(text));
            i = i + 1;
        }
        proof {
            assert(items@.map_values(|it: Item| it.string@) =~= self@.item_list.visible()
                .map_values(|idx: usize| store[idx as int].chars));
        }
        let sd = ScreenData {
            cursor_index: self.query_editor.cursor_position(),
            highlighted_row: self.item_list.highlighted_row(),
            is_cjk: self.is_cjk,
            item_list_len: self.item_list.len(),
            items,
            marked_rows: self.item_list.marked_rows(),
            query_string: String::from_str(self.query_editor.as_str()),
            status_message: match self.status_message {
                Some(ref m) => Some(m.clone()),
                None => None,
            },
            total_lines: line_storage.len(),
        };
        proof {
            assert(sd@.highlighted_row == self@.item_list.highlighted);
            assert(sd@.status_message == self@.status_message);
            assert(sd@ == screen_of(self@, store));
        }
        sd
    }
}

/// Toggling the mark keeps every marked index in the store's range: the
/// only index it can add is the highlighted one, which is in range.
proof fn lemma_toggle_marks_bound(s: StateV, store: Seq<LineV>)
    requires
        inv(s, store),
    ensures
        forall|x: usize|
            s.item_list.toggled().marks.contains(x) ==> (x as int) < store.len(),
{
    match s.item_list.highlighted_index() {
        None => {},
        Some(idx) => {
            assert(s.item_list.wf());
            assert(s.item_list.indices[s.item_list.start + s.item_list.highlighted->0]
                == idx);
            assert((idx as int) < store.len());
            if s.item_list.marks.contains(idx) {
                crate::item_list::lemma_sorted_remove_membership(s.item_list.marks, idx);
            } else {
                crate::item_list::lemma_sorted_insert_membership(s.item_list.marks, idx);
            }
        },
    }
}

/// The selected indices all lie in the store.
proof fn lemma_selected_in_range(s: StateV, store: Seq<LineV>)
    requires
        inv(s, store),
    ensures
        forall|j: int|
            0 <= j < s.item_list.selected().len() ==> (#[trigger] s.item_list.selected()[j] as int)
                < store.len(),
{
    let sel = s.item_list.selected();
    assert forall|j: int| 0 <= j < sel.len() implies (#[trigger] sel[j] as int) < store.len() by {
        if s.item_list.marks.len() > 0 {
            assert(s.item_list.marks.contains(sel[j]));
        } else {
            match s.item_list.highlighted_index() {
                None => {},
                Some(idx) => {
                    assert(sel[j] == idx);
                },
            }
        }
    }
}

/// Merging a sound response into a sound cache entry (or adopting it
/// fresh) yields a sound entry; this is the heart of why the cache stays
/// true of the store.
proof fn lemma_merge_sound_opt(s: StateV, q: Seq<char>, info: MatchInfoV, store: Seq<LineV>)
    requires
        inv(s, store),
        cache_sound(s, store),
        info_sound(info, q, store),
        store.len() <= usize::MAX,
        s.cache.contains_key(q) ==> info.start <= s.cache[q].end,
        !s.cache.contains_key(q) ==> info.start == 0,
    ensures
        info_sound(
            if s.cache.contains_key(q) {
                merge_v(s.cache[q], info)
            } else {
                info
            },
            q,
            store,
        ),
{
    if s.cache.contains_key(q) {
        lemma_merge_sound(s.cache[q], info, q, store);
    }
}

/// Query resolution is idempotent: a second screen refresh without an
/// intervening edit leaves the state as it was, draws the same frame, and
/// repeats the same request — one that continues the scan exactly while
/// the cached prefix is shorter than the store.
pub proof fn lemma_update_screen_idempotent(s: StateV, store: Seq<LineV>)
    requires
        s.item_list.height > 0,
    ensures
        ({
            let r1 = step(s, InputV::UpdateScreen, store);
            let r2 = step(r1.state, InputV::UpdateScreen, store);
            &&& r2.state == r1.state
            &&& r2.screen == r1.screen
            &&& r2.reply == r1.reply
            &&& (s.editor.text.len() == 0 ==> r1.reply is None)
            &&& (s.editor.text.len() > 0 && s.cache.contains_key(s.editor.text) ==> (r1.reply
                is Some <==> s.cache[s.editor.text].end < store.len()))
        }),
{
    if s.editor.text.len() == 0 {
        crate::item_list::lemma_with_indices_idempotent(
            s.item_list,
            range_seq(0, store.len() as int),
        );
    } else if s.cache.contains_key(s.editor.text) {
        crate::item_list::lemma_with_indices_idempotent(
            s.item_list,
            s.cache[s.editor.text].indices,
        );
    }
}

/// The reducer is deterministic: its behaviour is a function of the state,
/// the input and the store it sees, so equal views behave identically.
pub proof fn lemma_step_deterministic(
    s1: StateV,
    s2: StateV,
    input1: InputV,
    input2: InputV,
    store1: Seq<LineV>,
    store2: Seq<LineV>,
)
    requires
        s1 == s2,
        input1 == input2,
        store1 == store2,
    ensures
        step(s1, input1, store1) == step(s2, input2, store2),
{
}

/// The final selection of a whole run: fold the reducer over the events in
/// order and take the first completed reply.
pub open spec fn run(s: StateV, inputs: Seq<InputV>, store: Seq<LineV>) -> Option<Seq<LineV>>
    decreases inputs.len(),
{
    if inputs.len() == 0 {
        None
    } else {
        let st = step(s, inputs[0], store);
        match st.reply {
            Some(ReplyV::Complete(lines)) => Some(lines),
            _ => run(st.state, inputs.skip(1), store),
        }
    }
}

/// Identical input lines and identical event sequences select the same
/// lines: the whole run is deterministic, timing aside.
pub proof fn lemma_run_deterministic(
    s1: StateV,
    s2: StateV,
    inputs1: Seq<InputV>,
    inputs2: Seq<InputV>,
    store1: Seq<LineV>,
    store2: Seq<LineV>,
)
    requires
        s1 == s2,
        inputs1 == inputs2,
        store1 == store2,
    ensures
        run(s1, inputs1, store1) == run(s2, inputs2, store2),
{
}

/// Growing the store preserves the reducer's invariants: indices are
/// stable under appends, so everything cached or displayed stays in range
/// and stays true of the lines it was computed from.
pub proof fn lemma_inv_grows(s: StateV, store1: Seq<LineV>, store2: Seq<LineV>)
    requires
        inv(s, store1),
        cache_sound(s, store1),
        store1.len() <= store2.len(),
        store1 == store2.subrange(0, store1.len() as int),
    ensures
        inv(s, store2),
        cache_sound(s, store2),
{
    assert forall|i: int| 0 <= i < store1.len() implies store2[i] == store1[i] by {
        assert(store1[i] == store2.subrange(0, store1.len() as int)[i]);
    }
    assert forall|k: Seq<char>|
        s.cache.contains_key(k) implies info_sound(#[trigger] s.cache[k], k, store2) by {
        let info = s.cache[k];
        assert(info_sound(info, k, store1));
        assert forall|i: int|
            info.start <= i < info.end implies (info.indices.contains(i as usize)
            <==> query_matches(k, #[trigger] store2[i].chars)) by {
            assert(store2[i] == store1[i]);
            assert(info.indices.contains(i as usize) <==> query_matches(k, store1[i].chars));
        }
    }
}

/// Merging two sound match infos over adjacent or overlapping ranges for
/// the same query yields a sound match info.
pub proof fn lemma_merge_sound(a: MatchInfoV, b: MatchInfoV, q: Seq<char>, store: Seq<LineV>)
    requires
        info_sound(a, q, store),
        info_sound(b, q, store),
        store.len() <= usize::MAX,
        b.start <= a.end,
    ensures
        info_sound(merge_v(a, b), q, store),
{
    let m = merge_v(a, b);
    crate::search::lemma_merge_wf(a, b);
    crate::search::lemma_drop_below_membership(b.indices, a.end);
    let d = crate::search::drop_below(b.indices, a.end);
    assert forall|i: int|
        m.start <= i < m.end implies (m.indices.contains(i as usize) <==> query_matches(
        q,
        #[trigger] store[i].chars,
    )) by {
        lemma_contains_add(a.indices, d);
        if i < a.end {
            assert(a.indices.contains(i as usize) <==> query_matches(q, store[i].chars));
            if d.contains(i as usize) {
                assert((i as usize) as int >= a.end);
            }
        } else {
            assert(b.start <= i < b.end);
            assert(b.indices.contains(i as usize) <==> query_matches(q, store[i].chars));
            if a.indices.contains(i as usize) {
                let j = choose|j: int|
                    0 <= j < a.indices.len() && a.indices[j] == (i as usize);
                assert((a.indices[j] as int) < a.end);
            }
            assert(d.contains(i as usize) <==> b.indices.contains(i as usize));
        }
    }
}

} // verus!
