use clipdmenu::args::Config;
use clipdmenu::daemon::{
    answer_ping, answer_unknown, watched_selections, Daemon, Reaction, LOOP_PAUSE_MS,
};
use clipdmenu::ipc::parse_command;
use clipdmenu::serve::{
    advance_incr_send, handle_selection_request, IncrSend, OwnedSelection, INCR_CHUNK,
};
use clipdmenu::x11::{
    Atoms, PropertyState, SelectionNotify, SelectionRequest, XEvent, XRequest,
};

const WINDOW: u32 = 77;

fn atoms() -> Atoms {
    Atoms {
        clipboard: 100,
        primary: 1,
        targets: 101,
        incr: 102,
        utf8_string: 103,
        string: 31,
        text: 104,
        transfer_prop: 105,
    }
}

fn config(watch_primary: bool) -> Config {
    Config { max_items: 10, watch_primary }
}

fn request(target: u32, property: u32) -> SelectionRequest {
    SelectionRequest { time: 9, requestor: 500, selection: 100, target, property }
}

fn answer(target: u32, property: u32) -> SelectionNotify {
    SelectionNotify { time: 9, requestor: 500, selection: 100, target, property }
}

fn owned(data: Vec<u8>, is_text: bool) -> Option<OwnedSelection> {
    Some(OwnedSelection { mime_atom: 200, data, is_text })
}

#[test]
fn request_without_anything_owned_is_refused() {
    let plan = handle_selection_request(&request(103, 600), &None, &atoms());
    assert!(plan.requests.is_empty());
    assert!(plan.transfer.is_none());
    assert_eq!(plan.notify, answer(103, 0));
}

#[test]
fn targets_of_text_and_of_images() {
    let plan = handle_selection_request(&request(101, 600), &owned(vec![1], true), &atoms());
    assert_eq!(
        plan.requests,
        vec![XRequest::ReplaceAtoms {
            window: 500,
            property: 600,
            atoms: vec![101, 200, 103, 31, 104],
        }]
    );
    assert_eq!(plan.notify, answer(101, 600));
    let plan = handle_selection_request(&request(101, 0), &owned(vec![1], false), &atoms());
    assert_eq!(
        plan.requests,
        vec![XRequest::ReplaceAtoms { window: 500, property: 101, atoms: vec![101, 200] }]
    );
    assert_eq!(plan.notify, answer(101, 101));
}

#[test]
fn offered_targets_are_served_and_no_others() {
    for is_text in [true, false] {
        let o = owned(vec![1, 2], is_text);
        let list = handle_selection_request(&request(101, 600), &o, &atoms());
        let offered = match &list.requests[0] {
            XRequest::ReplaceAtoms { atoms, .. } => atoms.clone(),
            _ => unreachable!(),
        };
        for target in 1..300u32 {
            let plan = handle_selection_request(&request(target, 600), &o, &atoms());
            assert_eq!(plan.notify.property != 0, offered.contains(&target));
        }
    }
}

#[test]
fn small_contents_are_served_at_once() {
    let data = vec![7u8; INCR_CHUNK];
    let plan = handle_selection_request(&request(31, 600), &owned(data.clone(), true), &atoms());
    assert_eq!(
        plan.requests,
        vec![XRequest::ReplaceBytes { window: 500, property: 600, type_: 31, bytes: data }]
    );
    assert!(plan.transfer.is_none());
    assert_eq!(plan.notify, answer(31, 600));
}

#[test]
fn large_contents_are_announced() {
    let data = vec![7u8; INCR_CHUNK + 1];
    let plan = handle_selection_request(&request(200, 0), &owned(data.clone(), false), &atoms());
    assert_eq!(
        plan.requests,
        vec![
            XRequest::WatchProperties { window: 500 },
            XRequest::ReplaceNumber {
                window: 500,
                property: 200,
                type_: 102,
                number: INCR_CHUNK as u32 + 1,
            },
        ]
    );
    assert_eq!(
        plan.transfer,
        Some(IncrSend { requestor: 500, property: 200, target: 200, data, offset: 0 })
    );
    assert_eq!(plan.notify, answer(200, 200));
}

#[test]
fn pieces_add_up_and_end_with_an_empty_one() {
    let data: Vec<u8> = (0..INCR_CHUNK * 2 + 5).map(|i| (i % 251) as u8).collect();
    let other = IncrSend { requestor: 1, property: 2, target: 3, data: vec![1], offset: 0 };
    let mut pending = vec![
        other,
        IncrSend { requestor: 500, property: 600, target: 31, data: data.clone(), offset: 0 },
    ];
    let mut got: Vec<u8> = Vec::new();
    let mut sizes: Vec<usize> = Vec::new();
    while let Some(q) = advance_incr_send(&mut pending, 500, 600) {
        match q {
            XRequest::ReplaceBytes { window, property, type_, bytes } => {
                assert_eq!((window, property, type_), (500, 600, 31));
                sizes.push(bytes.len());
                got.extend(bytes);
            }
            _ => unreachable!(),
        }
    }
    assert_eq!(got, data);
    assert_eq!(sizes, vec![INCR_CHUNK, INCR_CHUNK, 5, 0]);
    assert_eq!(pending.len(), 1);
    assert_eq!((pending[0].requestor, pending[0].offset), (1, 0));
}

#[test]
fn first_of_two_transfers_to_one_property_goes_first() {
    let mut pending = vec![
        IncrSend { requestor: 5, property: 6, target: 31, data: vec![1], offset: 1 },
        IncrSend { requestor: 5, property: 6, target: 32, data: vec![2], offset: 0 },
    ];
    let first = advance_incr_send(&mut pending, 5, 6).unwrap();
    assert_eq!(
        first,
        XRequest::ReplaceBytes { window: 5, property: 6, type_: 31, bytes: vec![] }
    );
    assert_eq!(pending.len(), 1);
    let second = advance_incr_send(&mut pending, 5, 6).unwrap();
    assert_eq!(
        second,
        XRequest::ReplaceBytes { window: 5, property: 6, type_: 32, bytes: vec![2] }
    );
    assert!(advance_incr_send(&mut pending, 5, 7).is_none());
    assert!(advance_incr_send(&mut pending, 4, 6).is_none());
}

#[test]
fn new_owners_are_captured() {
    let mut d = Daemon::new();
    let clip = XEvent::OwnerChanged { owner: 5, selection: 100 };
    let primary = XEvent::OwnerChanged { owner: 5, selection: 1 };
    let other = XEvent::OwnerChanged { owner: 5, selection: 2 };
    let own = XEvent::OwnerChanged { owner: WINDOW, selection: 100 };
    let none = XEvent::OwnerChanged { owner: 0, selection: 100 };
    let a = atoms();
    assert_eq!(
        d.handle_event(&clip, WINDOW, &config(false), &a),
        Reaction::Capture { selection: 100 }
    );
    assert_eq!(d.handle_event(&primary, WINDOW, &config(false), &a), Reaction::Ignore);
    assert_eq!(
        d.handle_event(&primary, WINDOW, &config(true), &a),
        Reaction::Capture { selection: 1 }
    );
    assert_eq!(d.handle_event(&other, WINDOW, &config(true), &a), Reaction::Ignore);
    assert_eq!(d.handle_event(&own, WINDOW, &config(true), &a), Reaction::Ignore);
    assert_eq!(d.handle_event(&none, WINDOW, &config(true), &a), Reaction::Ignore);
    assert_eq!(watched_selections(&config(false), &a), vec![100]);
    assert_eq!(watched_selections(&config(true), &a), vec![100, 1]);
}

#[test]
fn selection_is_kept_until_it_is_taken() {
    let mut d = Daemon::new();
    let a = atoms();
    let c = config(false);
    let reply = d.answer_select(Ok(OwnedSelection {
        mime_atom: 200,
        data: vec![1, 2, 3],
        is_text: true,
    }));
    assert_eq!(reply, "OK");
    let reply = d.answer_select(Err("history entry not found".to_string()));
    assert_eq!(reply, "ERR history entry not found");
    d.handle_event(&XEvent::SelectionClear { selection: 1 }, WINDOW, &c, &a);
    d.handle_event(&XEvent::Other, WINDOW, &c, &a);
    assert!(d.owned.is_some());
    match d.handle_event(&XEvent::SelectionRequest(request(103, 600)), WINDOW, &c, &a) {
        Reaction::Serve { plan } => assert_eq!(
            plan.requests,
            vec![XRequest::ReplaceBytes {
                window: 500,
                property: 600,
                type_: 103,
                bytes: vec![1, 2, 3],
            }]
        ),
        _ => unreachable!(),
    }
    let clear = XEvent::SelectionClear { selection: 100 };
    assert_eq!(d.handle_event(&clear, WINDOW, &c, &a), Reaction::Ignore);
    assert!(d.owned.is_none());
    assert_eq!(answer_ping(), "PONG");
    assert_eq!(answer_unknown(), "ERR unknown command");
    assert_eq!(LOOP_PAUSE_MS, 25);
}

#[test]
fn commands_are_answered() {
    let mut d = Daemon::new();
    let select = parse_command("SELECT h");
    let owned = || OwnedSelection { mime_atom: 200, data: vec![1], is_text: false };
    assert_eq!(d.answer(&parse_command("PING"), None), "PONG");
    assert_eq!(d.answer(&parse_command("PONG"), None), "ERR unknown command");
    assert!(d.owned.is_none());
    assert_eq!(d.answer(&select, Some(Ok(owned()))), "OK");
    assert_eq!(d.owned, Some(owned()));
    let error = Some(Err("no image cached yet".to_string()));
    assert_eq!(d.answer(&select, error), "ERR no image cached yet");
    assert_eq!(d.owned, Some(owned()));
    assert_eq!(d.answer(&parse_command("PING"), None), "PONG");
    assert_eq!(d.owned, Some(owned()));
}

#[test]
fn transfer_goes_on_when_its_property_is_deleted() {
    let mut d = Daemon::new();
    let a = atoms();
    let c = config(false);
    assert!(d.is_wf());
    d.begin(IncrSend { requestor: 500, property: 600, target: 31, data: vec![8, 9], offset: 0 });
    assert!(d.is_wf());
    let set = XEvent::PropertyNotify { window: 500, atom: 600, state: PropertyState::NewValue };
    let deleted = XEvent::PropertyNotify { window: 500, atom: 600, state: PropertyState::Deleted };
    assert_eq!(d.handle_event(&set, WINDOW, &c, &a), Reaction::Ignore);
    assert_eq!(
        d.handle_event(&deleted, WINDOW, &c, &a),
        Reaction::Send {
            request: XRequest::ReplaceBytes {
                window: 500,
                property: 600,
                type_: 31,
                bytes: vec![8, 9],
            }
        }
    );
    assert_eq!(
        d.handle_event(&deleted, WINDOW, &c, &a),
        Reaction::Send {
            request: XRequest::ReplaceBytes { window: 500, property: 600, type_: 31, bytes: vec![] }
        }
    );
    assert!(d.pending.is_empty());
    assert_eq!(d.handle_event(&deleted, WINDOW, &c, &a), Reaction::Ignore);
}
