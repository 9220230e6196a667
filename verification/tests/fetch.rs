use clipdmenu::fetch::{
    fetch_selection, wait_for_property_new_value, wait_for_selection_notify, Fetch, FetchAction,
    FetchState, Wait, ANSWER_TIMEOUT_MS, PIECE_TIMEOUT_MS, POLL_PAUSE_MS, PROPERTY_LENGTH,
};
use clipdmenu::serve::{advance_incr_send, IncrSend, INCR_CHUNK};
use clipdmenu::x11::{PropertyReply, PropertyState, SelectionNotify, XEvent, XRequest};

const WINDOW: u32 = 77;
const INCR: u32 = 102;

fn notify(target: u32, property: u32) -> SelectionNotify {
    SelectionNotify { time: 0, requestor: WINDOW, selection: 100, target, property }
}

fn new_value() -> Option<XEvent> {
    Some(XEvent::PropertyNotify { window: WINDOW, atom: 105, state: PropertyState::NewValue })
}

fn reply(type_: u32, value: Vec<u8>, bytes_after: u32) -> PropertyReply {
    PropertyReply { type_, value, bytes_after }
}

fn read_whole() -> FetchAction {
    FetchAction::GetProperty { delete: false, offset: 0, length: PROPERTY_LENGTH }
}

/// A fetch of target 31 whose owner has answered.
fn answered() -> Fetch {
    let (f, action) = fetch_selection(WINDOW, 100, 31, 105, INCR);
    assert_eq!(action, FetchAction::Convert { timeout_ms: ANSWER_TIMEOUT_MS });
    assert!(f.is_polling() && !f.is_reading());
    let (f, action) = f.on_poll(&Some(XEvent::SelectionNotify(notify(31, 105))), false);
    assert_eq!(action, read_whole());
    assert!(f.is_reading() && !f.is_polling());
    f
}

#[test]
fn waiting_for_the_answer() {
    let w = |e: Option<XEvent>, late: bool| wait_for_selection_notify(&e, late, WINDOW, 100, 31);
    let n = notify(31, 105);
    assert_eq!(w(Some(XEvent::SelectionNotify(n)), true), Wait::Found(n));
    assert_eq!(w(Some(XEvent::SelectionNotify(notify(32, 105))), true), Wait::Again);
    let other_window = SelectionNotify { requestor: 1, ..n };
    assert_eq!(w(Some(XEvent::SelectionNotify(other_window)), true), Wait::Again);
    let other_selection = SelectionNotify { selection: 1, ..n };
    assert_eq!(w(Some(XEvent::SelectionNotify(other_selection)), true), Wait::Again);
    assert_eq!(w(Some(XEvent::Other), true), Wait::Again);
    assert_eq!(w(None, false), Wait::Pause);
    assert_eq!(w(None, true), Wait::TimedOut);
}

#[test]
fn waiting_for_a_piece() {
    let w = |e: Option<XEvent>, late: bool| wait_for_property_new_value(&e, late, WINDOW, 105);
    assert_eq!(w(new_value(), true), Wait::Found(()));
    let deleted =
        XEvent::PropertyNotify { window: WINDOW, atom: 105, state: PropertyState::Deleted };
    assert_eq!(w(Some(deleted), true), Wait::Again);
    let other = XEvent::PropertyNotify { window: WINDOW, atom: 1, state: PropertyState::NewValue };
    assert_eq!(w(Some(other), true), Wait::Again);
    assert_eq!(w(Some(XEvent::Other), false), Wait::Pause);
    assert_eq!(w(Some(XEvent::Other), true), Wait::TimedOut);
    assert_eq!(w(None, false), Wait::Pause);
    assert_eq!(w(None, true), Wait::TimedOut);
}

#[test]
fn refusal_and_silence_end_the_fetch() {
    let (f, _) = fetch_selection(WINDOW, 100, 31, 105, INCR);
    let (f, action) = f.on_poll(&Some(XEvent::SelectionNotify(notify(31, 0))), false);
    assert_eq!(action, FetchAction::Finish { delete: false });
    assert_eq!(f.state, FetchState::Done { contents: None });
    let (f, _) = fetch_selection(WINDOW, 100, 31, 105, INCR);
    let (f, action) = f.on_poll(&Some(XEvent::Other), true);
    assert_eq!(action, FetchAction::Poll);
    let (f, action) = f.on_poll(&None, false);
    assert_eq!(action, FetchAction::PauseThenPoll { pause_ms: POLL_PAUSE_MS });
    let (f, action) = f.on_poll(&None, true);
    assert_eq!(action, FetchAction::Finish { delete: false });
    assert_eq!(f.state, FetchState::Done { contents: None });
}

#[test]
fn plain_property_in_one_part() {
    let (f, action) = answered().on_reply(reply(31, vec![1, 2, 3], 0));
    assert_eq!(action, FetchAction::Finish { delete: true });
    assert_eq!(f.state, FetchState::Done { contents: Some((vec![1, 2, 3], 31)) });
}

#[test]
fn plain_property_in_parts() {
    let (f, action) = answered().on_reply(reply(31, vec![1; 8], 12));
    assert_eq!(
        action,
        FetchAction::GetProperty { delete: false, offset: 2, length: PROPERTY_LENGTH }
    );
    let (f, action) = f.on_reply(reply(99, vec![2; 4], 8));
    assert_eq!(
        action,
        FetchAction::GetProperty { delete: false, offset: 3, length: PROPERTY_LENGTH }
    );
    let (f, action) = f.on_reply(reply(99, vec![3; 8], 0));
    assert_eq!(action, FetchAction::Finish { delete: true });
    let want = [vec![1; 8], vec![2; 4], vec![3; 8]].concat();
    assert_eq!(f.state, FetchState::Done { contents: Some((want, 31)) });
}

#[test]
fn incr_transfer_piece_by_piece() {
    let (f, action) = answered().on_reply(reply(INCR, vec![0, 0, 0, 9], 0));
    assert_eq!(action, FetchAction::AcceptIncr { timeout_ms: PIECE_TIMEOUT_MS });
    let (f, action) = f.on_poll(&new_value(), false);
    assert_eq!(
        action,
        FetchAction::GetProperty { delete: true, offset: 0, length: PROPERTY_LENGTH }
    );
    let (f, action) = f.on_reply(reply(40, vec![1, 2], 0));
    assert_eq!(action, FetchAction::PollAfresh { timeout_ms: PIECE_TIMEOUT_MS });
    let (f, action) = f.on_poll(&None, false);
    assert_eq!(action, FetchAction::PauseThenPoll { pause_ms: POLL_PAUSE_MS });
    let (f, _) = f.on_poll(&new_value(), false);
    let (f, _) = f.on_reply(reply(41, vec![3], 0));
    let (f, _) = f.on_poll(&new_value(), false);
    let (f, action) = f.on_reply(reply(42, vec![], 0));
    assert_eq!(action, FetchAction::Finish { delete: false });
    assert_eq!(f.state, FetchState::Done { contents: Some((vec![1, 2, 3], 41)) });
}

#[test]
fn incr_transfer_of_nothing_and_one_that_stops() {
    let (f, _) = answered().on_reply(reply(INCR, vec![], 0));
    let (f, _) = f.on_poll(&new_value(), false);
    let (f, _) = f.on_reply(reply(42, vec![], 0));
    assert_eq!(f.state, FetchState::Done { contents: Some((vec![], 31)) });
    let (f, _) = answered().on_reply(reply(INCR, vec![], 0));
    let (f, _) = f.on_poll(&new_value(), false);
    let (f, _) = f.on_reply(reply(31, vec![1], 0));
    let (f, action) = f.on_poll(&None, true);
    assert_eq!(action, FetchAction::Finish { delete: false });
    assert_eq!(f.state, FetchState::Done { contents: None });
}

#[test]
fn sent_pieces_are_fetched_whole() {
    let data: Vec<u8> = (0..INCR_CHUNK + 1234).map(|i| (i % 253) as u8).collect();
    let mut pending = vec![IncrSend {
        requestor: WINDOW,
        property: 105,
        target: 31,
        data: data.clone(),
        offset: 0,
    }];
    let (mut f, _) = answered().on_reply(reply(INCR, vec![], 0));
    while let Some(q) = advance_incr_send(&mut pending, WINDOW, 105) {
        if let XRequest::ReplaceBytes { type_, bytes, .. } = q {
            let (noticed, _) = f.on_poll(&new_value(), false);
            let (next, _) = noticed.on_reply(reply(type_, bytes, 0));
            f = next;
        }
    }
    assert_eq!(f.state, FetchState::Done { contents: Some((data, 31)) });
}
