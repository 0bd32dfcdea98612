use eru::commander;
use eru::coordinator::{
    process_commander_event, process_reader_event, process_searcher_reply, process_state_reply,
    Coordinator, Dispatch,
};
use eru::key::Key;
use eru::line::Line;
use eru::query::Query;
use eru::reader;
use eru::search::{Request, Response};
use eru::searcher;
use eru::state;

#[test]
fn commander_events_become_state_inputs() {
    let _ = Coordinator::new();
    let r = process_commander_event(commander::Event::KeyDown(Key::CtrlN));
    assert!(matches!(r, state::Input::PutKey(Key::CtrlN)));
    let r = process_commander_event(commander::Event::SigWinch);
    assert!(matches!(r, state::Input::ResizeScreen));
}

#[test]
fn reader_events_become_state_inputs() {
    let r = process_reader_event(reader::Event::DidReadChunk);
    assert!(matches!(r, state::Input::UpdateScreen));
    let r = process_reader_event(reader::Event::DidFinish);
    assert!(matches!(r, state::Input::ReaderDidFinish));
}

#[test]
fn searcher_replies_become_state_inputs() {
    let resp = Response::new(Query::new(String::from("q")), vec![1], 0..2);
    let r = process_searcher_reply(searcher::Reply::DidSearch(resp));
    match r {
        state::Input::PutSearchResponse(resp) => {
            assert_eq!(resp.query.as_str(), "q");
            assert_eq!(resp.match_info.line_indices, vec![1]);
        },
        _ => panic!("expected a search response"),
    }
}

#[test]
fn state_replies_are_routed() {
    let r = process_state_reply(state::Reply::Complete(vec![Line::new(b"x".to_vec())]));
    match r {
        Dispatch::Finish(lines) => assert_eq!(lines[0].as_str(), "x"),
        _ => panic!("expected completion"),
    }
    let req = Request { query: Query::new(String::from("q")), start: 3 };
    let r = process_state_reply(state::Reply::SendSearchRequest(req));
    match r {
        Dispatch::ToSearcher(searcher::Input::Search(req)) => assert_eq!(req.start, 3),
        _ => panic!("expected a searcher request"),
    }
}
