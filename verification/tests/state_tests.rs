use eru::config::Config;
use eru::coordinator::{process_state_reply, Dispatch};
use eru::key::Key;
use eru::line::Line;
use eru::line_storage::LineStorage;
use eru::searcher::{Input as SearcherInput, Reply as SearcherReply, Searcher};
use eru::state::{Input, Reply, State};

fn storage_of(lines: &[&str]) -> LineStorage {
    let mut s = LineStorage::new();
    let chunk: Vec<Line> = lines.iter().map(|l| Line::new(l.as_bytes().to_vec())).collect();
    s.put_chunk(chunk);
    s
}

fn fresh_state(height: usize) -> State {
    let config = Config::new(None, None, false);
    State::new(&config, height)
}

/// Feed one input; while the reducer asks for more search work, run the
/// searcher synchronously and feed the reply back, as the coordinator
/// would. Returns the lines of a completion, if one happened.
fn drive(state: &mut State, storage: &LineStorage, input: Input) -> Option<Vec<Line>> {
    let mut next = Some(input);
    while let Some(input) = next.take() {
        let (reply, _screen) = state.process_input(input, storage);
        match reply {
            None => {},
            Some(Reply::Complete(lines)) => return Some(lines),
            Some(r) => match process_state_reply(r) {
                Dispatch::ToSearcher(SearcherInput::Search(req)) => {
                    let searcher = Searcher::new();
                    let SearcherReply::DidSearch(resp) = searcher.search(storage, req);
                    next = Some(Input::PutSearchResponse(resp));
                },
                Dispatch::Finish(_) => unreachable!(),
            },
        }
    }
    None
}

fn press(state: &mut State, storage: &LineStorage, key: Key) -> Option<Vec<Line>> {
    drive(state, storage, Input::PutKey(key))
}

fn texts(lines: &[Line]) -> Vec<String> {
    lines.iter().map(|l| l.as_str().to_string()).collect()
}

#[test]
fn empty_query_passes_everything_through() {
    let storage = storage_of(&["apple", "banana", "cherry"]);
    let mut state = fresh_state(10);
    assert!(drive(&mut state, &storage, Input::UpdateScreen).is_none());
    let sd = state.get_screen_data(&storage);
    assert_eq!(sd.item_list_len, 3);
    assert_eq!(sd.total_lines, 3);
    assert_eq!(sd.highlighted_row, Some(0));
    let selected = press(&mut state, &storage, Key::CtrlM).unwrap();
    assert_eq!(texts(&selected), vec!["apple"]);
    assert_eq!(selected[0].as_bytes(), b"apple");
}

#[test]
fn fuzzy_query_narrows_and_selects_first_match() {
    let storage = storage_of(&["Foo Bar", "foobaz", "barfoo", "FOO"]);
    let mut state = fresh_state(10);
    drive(&mut state, &storage, Input::UpdateScreen);
    assert!(press(&mut state, &storage, Key::Char('f')).is_none());
    assert!(press(&mut state, &storage, Key::Char('b')).is_none());
    let sd = state.get_screen_data(&storage);
    assert_eq!(sd.query_string, "fb");
    let shown: Vec<String> = sd.items.iter().map(|it| it.string.clone()).collect();
    assert_eq!(shown, vec!["Foo Bar", "foobaz"]);
    assert_eq!(sd.highlighted_row, Some(0));
    let selected = press(&mut state, &storage, Key::CtrlM).unwrap();
    assert_eq!(texts(&selected), vec!["Foo Bar"]);
}

#[test]
fn marks_override_highlight_on_enter() {
    let storage = storage_of(&["one", "two", "three"]);
    let mut state = fresh_state(10);
    drive(&mut state, &storage, Input::UpdateScreen);
    press(&mut state, &storage, Key::CtrlI);
    press(&mut state, &storage, Key::CtrlI);
    press(&mut state, &storage, Key::CtrlP);
    let selected = press(&mut state, &storage, Key::CtrlM).unwrap();
    assert_eq!(texts(&selected), vec!["one", "two"]);
}

#[test]
fn resize_preserves_selection_state() {
    let lines: Vec<String> = (0..100).map(|i| format!("l{:02}", i)).collect();
    let refs: Vec<&str> = lines.iter().map(|s| s.as_str()).collect();
    let storage = storage_of(&refs);
    let mut state = fresh_state(20);
    drive(&mut state, &storage, Input::UpdateScreen);
    press(&mut state, &storage, Key::Char('l'));
    press(&mut state, &storage, Key::CtrlN);
    press(&mut state, &storage, Key::CtrlN);
    press(&mut state, &storage, Key::CtrlN);
    let before = state.get_screen_data(&storage);
    drive(&mut state, &storage, Input::ResizeScreen);
    let after = state.get_screen_data(&storage);
    assert_eq!(before.highlighted_row, after.highlighted_row);
    assert_eq!(after.highlighted_row, Some(3));
    let selected = press(&mut state, &storage, Key::CtrlM).unwrap();
    assert_eq!(texts(&selected), vec!["l03"]);
}

#[test]
fn reader_finish_with_empty_store_completes_empty() {
    let storage = LineStorage::new();
    let mut state = fresh_state(10);
    let selected = drive(&mut state, &storage, Input::ReaderDidFinish).unwrap();
    assert!(selected.is_empty());
}

#[test]
fn reader_finish_with_lines_continues() {
    let storage = storage_of(&["something"]);
    let mut state = fresh_state(10);
    assert!(drive(&mut state, &storage, Input::ReaderDidFinish).is_none());
}

#[test]
fn ctrl_c_completes_with_no_output() {
    let storage = storage_of(&["a", "b"]);
    let mut state = fresh_state(10);
    drive(&mut state, &storage, Input::UpdateScreen);
    let selected = press(&mut state, &storage, Key::CtrlC).unwrap();
    assert!(selected.is_empty());
}

#[test]
fn search_continues_from_cached_end_not_zero() {
    let lines: Vec<String> = (0..6).map(|i| {
        if i % 2 == 0 {
            format!("abc{}", i)
        } else {
            format!("xyz{}", i)
        }
    }).collect();
    let refs: Vec<&str> = lines.iter().map(|s| s.as_str()).collect();
    let mut storage = storage_of(&refs);
    let mut state = fresh_state(10);
    drive(&mut state, &storage, Input::UpdateScreen);
    press(&mut state, &storage, Key::Char('a'));
    let sd = state.get_screen_data(&storage);
    assert_eq!(sd.item_list_len, 3);
    // More lines arrive; the next refresh resumes the scan at the cached
    // end instead of starting over.
    storage.put_chunk(vec![Line::new(b"abc6".to_vec()), Line::new(b"xyz7".to_vec())]);
    let (reply, _screen) = state.process_input(Input::UpdateScreen, &storage);
    match reply {
        Some(Reply::SendSearchRequest(req)) => {
            assert_eq!(req.start, 6);
            assert_eq!(req.query.as_str(), "a");
        },
        _ => panic!("expected a continuation request"),
    }
}

#[test]
fn refresh_is_idempotent_after_full_scan() {
    let storage = storage_of(&["abc", "xyz", "aaa"]);
    let mut state = fresh_state(10);
    drive(&mut state, &storage, Input::UpdateScreen);
    press(&mut state, &storage, Key::Char('a'));
    let (r1, s1) = state.process_input(Input::UpdateScreen, &storage);
    let (r2, s2) = state.process_input(Input::UpdateScreen, &storage);
    assert!(r1.is_none());
    assert!(r2.is_none());
    let s1 = s1.unwrap();
    let s2 = s2.unwrap();
    assert_eq!(s1.item_list_len, s2.item_list_len);
    assert_eq!(s1.highlighted_row, s2.highlighted_row);
    assert_eq!(s1.query_string, s2.query_string);
    let t1: Vec<String> = s1.items.iter().map(|it| it.string.clone()).collect();
    let t2: Vec<String> = s2.items.iter().map(|it| it.string.clone()).collect();
    assert_eq!(t1, t2);
}

#[test]
fn identical_inputs_give_identical_selection() {
    let run = || {
        let storage = storage_of(&["Foo Bar", "foobaz", "barfoo", "FOO"]);
        let mut state = fresh_state(10);
        drive(&mut state, &storage, Input::UpdateScreen);
        press(&mut state, &storage, Key::Char('f'));
        press(&mut state, &storage, Key::CtrlN);
        texts(&press(&mut state, &storage, Key::CtrlM).unwrap())
    };
    assert_eq!(run(), run());
}

#[test]
fn initial_query_is_adopted() {
    let storage = storage_of(&["apple", "banana"]);
    let config = Config::new(Some(String::from("ban")), None, true);
    let mut state = State::new(&config, 10);
    drive(&mut state, &storage, Input::UpdateScreen);
    let sd = state.get_screen_data(&storage);
    assert_eq!(sd.query_string, "ban");
    assert_eq!(sd.cursor_index, 3);
    assert!(sd.is_cjk);
    let shown: Vec<String> = sd.items.iter().map(|it| it.string.clone()).collect();
    assert_eq!(shown, vec!["banana"]);
}

#[test]
fn stale_response_does_not_request_continuation() {
    let storage = storage_of(&["abc", "xyz"]);
    let mut state = fresh_state(10);
    drive(&mut state, &storage, Input::UpdateScreen);
    // Ask for "a", but answer after the query has moved on to "ab".
    let (reply, _screen) = state.process_input(Input::PutKey(Key::Char('a')), &storage);
    assert!(matches!(reply, Some(Reply::SendSearchRequest(_))));
    let (reply, _screen) = state.process_input(Input::PutKey(Key::Char('b')), &storage);
    assert!(matches!(reply, Some(Reply::SendSearchRequest(_))));
    // A partial reply for the stale query "a", covering only a prefix of
    // the store: it is cached, but no continuation is requested for it.
    let q = eru::query::Query::new(String::from("a"));
    let resp = eru::search::Response::new(q, vec![0], 0..1);
    let (reply, _screen) = state.process_input(Input::PutSearchResponse(resp), &storage);
    assert!(reply.is_none());
}
