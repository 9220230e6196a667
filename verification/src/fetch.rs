//! Fetching a selection from its owner: the conversion request, the wait for the answer, and the
//! reassembly of contents that come in parts or piece by piece (the ICCCM `INCR` protocol).
//!
//! A [`Fetch`] decides, and the caller acts: it performs the [`FetchAction`] that it is given and
//! hands back what came of it, the result of a poll or a property.
use vstd::prelude::*;

use crate::serve::{pieces, IncrView};
use crate::x11::{
    Atom, PropertyReply, PropertyReplyView, PropertyState, SelectionNotify, Window, XEvent,
};

verus! {

/// How long the owner of a selection may take to answer.
pub const ANSWER_TIMEOUT_MS: u64 = 2_000;

/// How long the owner of a selection may take for each piece of an `INCR` transfer.
pub const PIECE_TIMEOUT_MS: u64 = 5_000;

/// How long to sleep where no event has come.
pub const POLL_PAUSE_MS: u64 = 5;

/// How much of a property to ask for at once, in units of four bytes.
pub const PROPERTY_LENGTH: u32 = 0x1FFF_FFFF;

/// What one poll for an awaited event comes to.
#[derive(Debug, PartialEq, Eq)]
pub enum Wait<T> {
    /// The awaited event is here.
    Found(T),
    /// Another event came: poll again at once.
    Again,
    /// Sleep for [`POLL_PAUSE_MS`], then poll again.
    Pause,
    /// The time is over.
    TimedOut,
}

/// What a poll comes to for one who waits for the answer to a conversion request. Any other event
/// is dropped, and the clock is read only where no event came.
pub open spec fn notify_wait(
    polled: Option<XEvent>,
    late: bool,
    window: Window,
    selection: Atom,
    target: Atom,
) -> Wait<SelectionNotify> {
    match polled {
        Some(XEvent::SelectionNotify(n)) if n.requestor == window && n.selection == selection
            && n.target == target => Wait::Found(n),
        Some(_) => Wait::Again,
        None => if late {
            Wait::TimedOut
        } else {
            Wait::Pause
        },
    }
}

/// What a poll comes to for one who waits for a new value of a property. News of other properties
/// is dropped; where any other event, or none, came, the clock is read.
pub open spec fn property_wait(
    polled: Option<XEvent>,
    late: bool,
    window: Window,
    property: Atom,
) -> Wait<()> {
    match polled {
        Some(XEvent::PropertyNotify { window: w, atom, state }) => if w == window && atom
            == property && state == PropertyState::NewValue {
            Wait::Found(())
        } else {
            Wait::Again
        },
        _ => if late {
            Wait::TimedOut
        } else {
            Wait::Pause
        },
    }
}

/// Decides what a poll comes to for one who waits for the answer to a conversion request.
pub fn wait_for_selection_notify(
    polled: &Option<XEvent>,
    late: bool,
    window: Window,
    selection: Atom,
    target: Atom,
) -> (r: Wait<SelectionNotify>)
    ensures
        r == notify_wait(*polled, late, window, selection, target),
{
    match polled {
        Some(event) => {
            if let XEvent::SelectionNotify(n) = event {
                if n.requestor == window && n.selection == selection && n.target == target {
                    return Wait::Found(*n);
                }
            }
            Wait::Again
        },
        None => if late {
            Wait::TimedOut
        } else {
            Wait::Pause
        },
    }
}

/// Decides what a poll comes to for one who waits for a new value of a property.
pub fn wait_for_property_new_value(
    polled: &Option<XEvent>,
    late: bool,
    window: Window,
    property: Atom,
) -> (r: Wait<()>)
    ensures
        r == property_wait(*polled, late, window, property),
{
    if let Some(XEvent::PropertyNotify { window: w, atom, state }) = polled {
        if *w == window && *atom == property && *state == PropertyState::NewValue {
            Wait::Found(())
        } else {
            Wait::Again
        }
    } else if late {
        Wait::TimedOut
    } else {
        Wait::Pause
    }
}

/// How far a fetch has come.
#[derive(Debug, PartialEq, Eq)]
pub enum FetchState {
    /// The conversion is requested; the answer is awaited.
    AwaitAnswer,
    /// The property is asked for.
    AwaitFirst,
    /// An `INCR` transfer runs; the next piece is awaited.
    AwaitPieceNotice { data: Vec<u8>, type_: Atom },
    /// An `INCR` transfer runs; the next piece is asked for.
    AwaitPiece { data: Vec<u8>, type_: Atom },
    /// The first part of the property is here; the next is asked for.
    AwaitPart { data: Vec<u8>, type_: Atom },
    /// The contents and their type are here, or the owner refused or took too long.
    Done { contents: Option<(Vec<u8>, Atom)> },
}

/// The mathematical content of a [`FetchState`].
#[verifier::ext_equal]
pub enum FetchStateView {
    AwaitAnswer,
    AwaitFirst,
    AwaitPieceNotice { data: Seq<u8>, type_: Atom },
    AwaitPiece { data: Seq<u8>, type_: Atom },
    AwaitPart { data: Seq<u8>, type_: Atom },
    Done { contents: Option<(Seq<u8>, Atom)> },
}

/// The contents of a fetched selection, if there are any.
pub open spec fn contents_view(c: Option<(Vec<u8>, Atom)>) -> Option<(Seq<u8>, Atom)> {
    match c {
        Some(p) => Some((p.0@, p.1)),
        None => None,
    }
}

impl View for FetchState {
    type V = FetchStateView;

    open spec fn view(&self) -> FetchStateView {
        match *self {
            FetchState::AwaitAnswer => FetchStateView::AwaitAnswer,
            FetchState::AwaitFirst => FetchStateView::AwaitFirst,
            FetchState::AwaitPieceNotice { data, type_ } => FetchStateView::AwaitPieceNotice {
                data: data@,
                type_,
            },
            FetchState::AwaitPiece { data, type_ } => FetchStateView::AwaitPiece {
                data: data@,
                type_,
            },
            FetchState::AwaitPart { data, type_ } => FetchStateView::AwaitPart {
                data: data@,
                type_,
            },
            FetchState::Done { contents } => FetchStateView::Done {
                contents: contents_view(contents),
            },
        }
    }
}

/// One fetch of a selection.
#[derive(Debug, PartialEq, Eq)]
pub struct Fetch {
    pub window: Window,
    pub selection: Atom,
    pub target: Atom,
    pub property: Atom,
    pub incr: Atom,
    pub state: FetchState,
}

/// The mathematical content of a [`Fetch`].
#[verifier::ext_equal]
pub struct FetchView {
    pub window: Window,
    pub selection: Atom,
    pub target: Atom,
    pub property: Atom,
    pub incr: Atom,
    pub state: FetchStateView,
}

impl View for Fetch {
    type V = FetchView;

    open spec fn view(&self) -> FetchView {
        FetchView {
            window: self.window,
            selection: self.selection,
            target: self.target,
            property: self.property,
            incr: self.incr,
            state: self.state@,
        }
    }
}

impl FetchView {
    /// Whether the fetch waits for the result of a poll.
    pub open spec fn polls(self) -> bool {
        self.state is AwaitAnswer || self.state is AwaitPieceNotice
    }

    /// Whether the fetch waits for a property.
    pub open spec fn reads(self) -> bool {
        self.state is AwaitFirst || self.state is AwaitPiece || self.state is AwaitPart
    }

    /// The fetch in another state.
    pub open spec fn with(self, state: FetchStateView) -> FetchView {
        FetchView { state, ..self }
    }

    /// The notice that the next piece is in the property.
    pub open spec fn piece_notice(self) -> XEvent {
        XEvent::PropertyNotify {
            window: self.window,
            atom: self.property,
            state: PropertyState::NewValue,
        }
    }
}

/// What the caller does next.
#[derive(Clone, Copy, Debug, PartialEq, Eq, Structural)]
pub enum FetchAction {
    /// Delete the property, ask the owner to convert the selection, and poll. The time that
    /// counts as late begins `timeout_ms` from now.
    Convert { timeout_ms: u64 },
    /// Poll again at once.
    Poll,
    /// Sleep for `pause_ms`, then poll again.
    PauseThenPoll { pause_ms: u64 },
    /// Read the property from `offset`, in units of four bytes, and delete it if it is to be
    /// deleted.
    GetProperty { delete: bool, offset: u32, length: u32 },
    /// Delete the property, which tells the owner to begin, and poll, late from `timeout_ms`.
    AcceptIncr { timeout_ms: u64 },
    /// Poll, late from `timeout_ms`.
    PollAfresh { timeout_ms: u64 },
    /// All is done, but for the property where it is still to be deleted.
    Finish { delete: bool },
}

/// The request for the next part of a property, behind the bytes that are here already.
pub open spec fn next_part(len: nat) -> FetchAction {
    FetchAction::GetProperty {
        delete: false,
        offset: ((len / 4) % 0x1_0000_0000) as u32,
        length: PROPERTY_LENGTH,
    }
}

/// The fetch, and what to do, after a poll.
pub open spec fn after_poll(f: FetchView, polled: Option<XEvent>, late: bool) -> (
    FetchView,
    FetchAction,
) {
    let given_up = f.with(FetchStateView::Done { contents: None });
    match f.state {
        FetchStateView::AwaitAnswer => match notify_wait(
            polled,
            late,
            f.window,
            f.selection,
            f.target,
        ) {
            Wait::Found(n) => if n.property == 0 {
                (given_up, FetchAction::Finish { delete: false })
            } else {
                (
                    f.with(FetchStateView::AwaitFirst),
                    FetchAction::GetProperty { delete: false, offset: 0, length: PROPERTY_LENGTH },
                )
            },
            Wait::Again => (f, FetchAction::Poll),
            Wait::Pause => (f, FetchAction::PauseThenPoll { pause_ms: POLL_PAUSE_MS }),
            Wait::TimedOut => (given_up, FetchAction::Finish { delete: false }),
        },
        FetchStateView::AwaitPieceNotice { data, type_ } => match property_wait(
            polled,
            late,
            f.window,
            f.property,
        ) {
            Wait::Found(_) => (
                f.with(FetchStateView::AwaitPiece { data, type_ }),
                FetchAction::GetProperty { delete: true, offset: 0, length: PROPERTY_LENGTH },
            ),
            Wait::Again => (f, FetchAction::Poll),
            Wait::Pause => (f, FetchAction::PauseThenPoll { pause_ms: POLL_PAUSE_MS }),
            Wait::TimedOut => (given_up, FetchAction::Finish { delete: false }),
        },
        _ => (f, FetchAction::Finish { delete: false }),
    }
}

/// The fetch, and what to do, once a part of a plain property is here: `data` in all so far.
pub open spec fn after_part(f: FetchView, data: Seq<u8>, type_: Atom, bytes_after: u32) -> (
    FetchView,
    FetchAction,
) {
    if bytes_after > 0 {
        (f.with(FetchStateView::AwaitPart { data, type_ }), next_part(data.len()))
    } else {
        (
            f.with(FetchStateView::Done { contents: Some((data, type_)) }),
            FetchAction::Finish { delete: true },
        )
    }
}

/// The fetch, and what to do, once a property is here.
pub open spec fn after_reply(f: FetchView, reply: PropertyReplyView) -> (FetchView, FetchAction) {
    match f.state {
        FetchStateView::AwaitFirst => if reply.type_ == f.incr {
            (
                f.with(FetchStateView::AwaitPieceNotice { data: seq![], type_: f.target }),
                FetchAction::AcceptIncr { timeout_ms: PIECE_TIMEOUT_MS },
            )
        } else {
            after_part(f, reply.value, reply.type_, reply.bytes_after)
        },
        FetchStateView::AwaitPart { data, type_ } => after_part(
            f,
            data + reply.value,
            type_,
            reply.bytes_after,
        ),
        FetchStateView::AwaitPiece { data, type_ } => if reply.value.len() == 0 {
            (
                f.with(FetchStateView::Done { contents: Some((data, type_)) }),
                FetchAction::Finish { delete: false },
            )
        } else {
            (
                f.with(
                    FetchStateView::AwaitPieceNotice {
                        data: data + reply.value,
                        type_: reply.type_,
                    },
                ),
                FetchAction::PollAfresh { timeout_ms: PIECE_TIMEOUT_MS },
            )
        },
        _ => (f, FetchAction::Finish { delete: false }),
    }
}

/// Appends bytes.
fn append_bytes(data: &mut Vec<u8>, more: &[u8])
    ensures
        final(data)@ == old(data)@ + more@,
{
    for i in 0..more.len()
        invariant
            data@ == old(data)@ + more@.take(i as int),
    {
        data.push(more[i]);
    }
    assert(more@.take(more@.len() as int) == more@);
}

/// Begins to fetch `target` of `selection` through `property` of `window`.
pub fn fetch_selection(
    window: Window,
    selection: Atom,
    target: Atom,
    property: Atom,
    incr: Atom,
) -> (r: (Fetch, FetchAction))
    ensures
        r.0@ == (FetchView {
            window,
            selection,
            target,
            property,
            incr,
            state: FetchStateView::AwaitAnswer,
        }),
        r.1 == (FetchAction::Convert { timeout_ms: ANSWER_TIMEOUT_MS }),
{
    (
        Fetch { window, selection, target, property, incr, state: FetchState::AwaitAnswer },
        FetchAction::Convert { timeout_ms: ANSWER_TIMEOUT_MS },
    )
}

/// The state, and what to do, once a part of a plain property is here: `data` in all so far.
fn part_state(data: Vec<u8>, type_: Atom, bytes_after: u32) -> (r: (FetchState, FetchAction))
    ensures
        forall|f: FetchView|
            (f.with(r.0@), r.1) == #[trigger] after_part(f, data@, type_, bytes_after),
{
    if bytes_after > 0 {
        let offset: u32 = ((data.len() / 4) as u64 % 0x1_0000_0000) as u32;
        (
            FetchState::AwaitPart { data, type_ },
            FetchAction::GetProperty { delete: false, offset, length: PROPERTY_LENGTH },
        )
    } else {
        (
            FetchState::Done { contents: Some((data, type_)) },
            FetchAction::Finish { delete: true },
        )
    }
}

impl Fetch {
    /// Whether the fetch waits for the result of a poll.
    pub fn is_polling(&self) -> (r: bool)
        ensures
            r == self@.polls(),
    {
        match &self.state {
            FetchState::AwaitAnswer => true,
            FetchState::AwaitPieceNotice { .. } => true,
            _ => false,
        }
    }

    /// Whether the fetch waits for a property.
    pub fn is_reading(&self) -> (r: bool)
        ensures
            r == self@.reads(),
    {
        match &self.state {
            FetchState::AwaitFirst => true,
            FetchState::AwaitPiece { .. } => true,
            FetchState::AwaitPart { .. } => true,
            _ => false,
        }
    }

    /// Decides what follows from a poll. `late` says whether the time was over then.
    pub fn on_poll(self, polled: &Option<XEvent>, late: bool) -> (r: (Fetch, FetchAction))
        requires
            self@.polls(),
        ensures
            (r.0@, r.1) == after_poll(self@, *polled, late),
    {
        let Fetch { window, selection, target, property, incr, state } = self;
        let (state, action) = match state {
            FetchState::AwaitAnswer => match wait_for_selection_notify(
                polled,
                late,
                window,
                selection,
                target,
            ) {
                Wait::Found(n) => if n.property == 0 {
                    // The owner refused this target.
                    (FetchState::Done { contents: None }, FetchAction::Finish { delete: false })
                } else {
                    (
                        FetchState::AwaitFirst,
                        FetchAction::GetProperty {
                            delete: false,
                            offset: 0,
                            length: PROPERTY_LENGTH,
                        },
                    )
                },
                Wait::Again => (FetchState::AwaitAnswer, FetchAction::Poll),
                Wait::Pause => (
                    FetchState::AwaitAnswer,
                    FetchAction::PauseThenPoll { pause_ms: POLL_PAUSE_MS },
                ),
                Wait::TimedOut => (
                    FetchState::Done { contents: None },
                    FetchAction::Finish { delete: false },
                ),
            },
            FetchState::AwaitPieceNotice { data, type_ } => match wait_for_property_new_value(
                polled,
                late,
                window,
                property,
            ) {
                Wait::Found(_) => (
                    FetchState::AwaitPiece { data, type_ },
                    FetchAction::GetProperty { delete: true, offset: 0, length: PROPERTY_LENGTH },
                ),
                Wait::Again => (FetchState::AwaitPieceNotice { data, type_ }, FetchAction::Poll),
                Wait::Pause => (
                    FetchState::AwaitPieceNotice { data, type_ },
                    FetchAction::PauseThenPoll { pause_ms: POLL_PAUSE_MS },
                ),
                Wait::TimedOut => (
                    FetchState::Done { contents: None },
                    FetchAction::Finish { delete: false },
                ),
            },
            other => (other, FetchAction::Finish { delete: false }),
        };
        (Fetch { window, selection, target, property, incr, state }, action)
    }

    /// Decides what follows from a property that was read.
    pub fn on_reply(self, reply: PropertyReply) -> (r: (Fetch, FetchAction))
        requires
            self@.reads(),
        ensures
            (r.0@, r.1) == after_reply(self@, reply@),
    {
        let Fetch { window, selection, target, property, incr, state } = self;
        let (state, action) = match state {
            FetchState::AwaitFirst => if reply.type_ == incr {
                (
                    FetchState::AwaitPieceNotice { data: Vec::new(), type_: target },
                    FetchAction::AcceptIncr { timeout_ms: PIECE_TIMEOUT_MS },
                )
            } else {
                part_state(reply.value, reply.type_, reply.bytes_after)
            },
            FetchState::AwaitPart { data, type_ } => {
                let mut data = data;
                append_bytes(&mut data, reply.value.as_slice());
                part_state(data, type_, reply.bytes_after)
            },
            FetchState::AwaitPiece { data, type_ } => if reply.value.len() == 0 {
                (
                    FetchState::Done { contents: Some((data, type_)) },
                    FetchAction::Finish { delete: false },
                )
            } else {
                let mut data = data;
                append_bytes(&mut data, reply.value.as_slice());
                (
                    FetchState::AwaitPieceNotice { data, type_: reply.type_ },
                    FetchAction::PollAfresh { timeout_ms: PIECE_TIMEOUT_MS },
                )
            },
            other => (other, FetchAction::Finish { delete: false }),
        };
        let fetch = Fetch { window, selection, target, property, incr, state };
        assert(fetch@.state =~= after_reply(self@, reply@).0.state);
        (fetch, action)
    }
}

// ---------------------------------------------------------------------------------------------
// Laws
// ---------------------------------------------------------------------------------------------

/// The fetch after an `INCR` transfer has brought `replies`, each with its notice before it.
pub open spec fn after_pieces(f: FetchView, replies: Seq<PropertyReplyView>) -> FetchView
    decreases replies.len(),
{
    if replies.len() == 0 {
        f
    } else {
        let noticed = after_poll(f, Some(f.piece_notice()), false).0;
        after_pieces(after_reply(noticed, replies[0]).0, replies.skip(1))
    }
}

/// The fetch after the parts of a plain property.
pub open spec fn after_parts(f: FetchView, replies: Seq<PropertyReplyView>) -> FetchView
    decreases replies.len(),
{
    if replies.len() == 0 {
        f
    } else {
        after_parts(after_reply(f, replies[0]).0, replies.skip(1))
    }
}

/// The values of some properties, one behind the other.
pub open spec fn all_values(replies: Seq<PropertyReplyView>) -> Seq<u8> {
    replies.map_values(|r: PropertyReplyView| r.value).flatten()
}

/// The values of `replies` begin with the value of the first.
proof fn lemma_all_values(replies: Seq<PropertyReplyView>)
    requires
        replies.len() > 0,
    ensures
        all_values(replies) == replies[0].value + all_values(replies.skip(1)),
{
    let value = |r: PropertyReplyView| r.value;
    assert(replies.map_values(value).drop_first() =~= replies.skip(1).map_values(value));
}

/// An owner that refuses ends the fetch without contents.
pub proof fn law_refusal_ends_the_fetch(f: FetchView, n: SelectionNotify, late: bool)
    requires
        f.state is AwaitAnswer,
        n.requestor == f.window,
        n.selection == f.selection,
        n.target == f.target,
        n.property == 0,
    ensures
        after_poll(f, Some(XEvent::SelectionNotify(n)), late) == (
            f.with(FetchStateView::Done { contents: None }),
            FetchAction::Finish { delete: false },
        ),
{
}

/// An owner that stays silent ends the fetch without contents, once the time is over.
pub proof fn law_silence_ends_the_fetch(f: FetchView)
    requires
        f.polls(),
    ensures
        after_poll(f, None, true) == (
            f.with(FetchStateView::Done { contents: None }),
            FetchAction::Finish { delete: false },
        ),
{
}

/// The pieces of an `INCR` transfer are put together in order, up to the empty one that ends it.
pub proof fn law_pieces_are_reassembled(
    f: FetchView,
    data: Seq<u8>,
    type_: Atom,
    replies: Seq<PropertyReplyView>,
)
    requires
        f.state == (FetchStateView::AwaitPieceNotice { data, type_ }),
        replies.len() > 0,
        replies.last().value.len() == 0,
        forall|i: int| 0 <= i < replies.len() - 1 ==> (#[trigger] replies[i]).value.len() > 0,
    ensures
        after_pieces(f, replies) == f.with(
            FetchStateView::Done {
                contents: Some(
                    (
                        data + all_values(replies),
                        if replies.len() == 1 {
                            type_
                        } else {
                            replies[replies.len() - 2].type_
                        },
                    ),
                ),
            },
        ),
    decreases replies.len(),
{
    let noticed = after_poll(f, Some(f.piece_notice()), false).0;
    assert(noticed == f.with(FetchStateView::AwaitPiece { data, type_ }));
    let next = after_reply(noticed, replies[0]).0;
    let rest = replies.skip(1);
    lemma_all_values(replies);
    if replies.len() == 1 {
        assert(after_pieces(next, rest) == next);
        assert(rest.map_values(|r: PropertyReplyView| r.value) =~= seq![]);
        assert(data + all_values(replies) =~= data);
        assert(next =~= f.with(FetchStateView::Done { contents: Some((data, type_)) }));
    } else {
        assert(replies[0].value.len() > 0);
        assert(rest.last() == replies.last());
        assert forall|i: int| 0 <= i < rest.len() - 1 implies (#[trigger] rest[i]).value.len()
            > 0 by {
            assert(rest[i] == replies[i + 1]);
        }
        law_pieces_are_reassembled(next, data + replies[0].value, replies[0].type_, rest);
        assert(data + replies[0].value + all_values(rest) =~= data + all_values(replies));
        if rest.len() > 1 {
            assert(rest[rest.len() - 2] == replies[replies.len() - 2]);
        }
    }
}

/// The parts of a plain property are put together in order, up to the one behind which no bytes
/// are left. The type is that of the first part.
pub proof fn law_parts_are_reassembled(f: FetchView, replies: Seq<PropertyReplyView>)
    requires
        f.state is AwaitFirst,
        replies.len() > 0,
        replies[0].type_ != f.incr,
        replies.last().bytes_after == 0,
        forall|i: int| 0 <= i < replies.len() - 1 ==> (#[trigger] replies[i]).bytes_after > 0,
    ensures
        after_parts(f, replies) == f.with(
            FetchStateView::Done { contents: Some((all_values(replies), replies[0].type_)) },
        ),
{
    let rest = replies.skip(1);
    let next = after_reply(f, replies[0]).0;
    lemma_all_values(replies);
    if replies.len() == 1 {
        assert(after_parts(next, rest) == next);
        assert(rest.map_values(|r: PropertyReplyView| r.value) =~= seq![]);
        assert(all_values(replies) =~= replies[0].value);
    } else {
        assert(replies[0].bytes_after > 0);
        lemma_more_parts(next, replies[0].value, replies[0].type_, rest, replies);
    }
}

/// The parts behind the first are put together in order.
proof fn lemma_more_parts(
    f: FetchView,
    data: Seq<u8>,
    type_: Atom,
    rest: Seq<PropertyReplyView>,
    replies: Seq<PropertyReplyView>,
)
    requires
        f.state == (FetchStateView::AwaitPart { data, type_ }),
        0 < rest.len() < replies.len(),
        rest == replies.skip(replies.len() - rest.len()),
        replies.last().bytes_after == 0,
        forall|i: int| 0 <= i < replies.len() - 1 ==> (#[trigger] replies[i]).bytes_after > 0,
    ensures
        after_parts(f, rest) == f.with(
            FetchStateView::Done { contents: Some((data + all_values(rest), type_)) },
        ),
    decreases rest.len(),
{
    let next = after_reply(f, rest[0]).0;
    let tail = rest.skip(1);
    lemma_all_values(rest);
    assert(rest[0] == replies[replies.len() - rest.len()]);
    if rest.len() == 1 {
        assert(after_parts(next, tail) == next);
        assert(tail.map_values(|r: PropertyReplyView| r.value) =~= seq![]);
        assert(data + all_values(rest) =~= data + rest[0].value);
    } else {
        assert(tail =~= replies.skip(replies.len() - tail.len()));
        lemma_more_parts(next, data + rest[0].value, type_, tail, replies);
        assert(data + rest[0].value + all_values(tail) =~= data + all_values(rest));
    }
}

/// What one daemon sends piece by piece, another fetches whole: a receiver that reads the pieces
/// of a transfer ends up with the bytes that the sender had, under the target it asked for.
pub proof fn law_sent_pieces_are_fetched_whole(
    f: FetchView,
    t: IncrView,
    replies: Seq<PropertyReplyView>,
)
    requires
        t.wf(),
        t.offset == 0,
        t.target == f.target,
        f.state == (FetchStateView::AwaitPieceNotice { data: seq![], type_: f.target }),
        replies.len() == pieces(t).len(),
        forall|i: int|
            0 <= i < replies.len() ==> (#[trigger] replies[i]).value == pieces(t)[i]
                && replies[i].type_ == t.target,
    ensures
        after_pieces(f, replies) == f.with(
            FetchStateView::Done { contents: Some((t.data, f.target)) },
        ),
{
    crate::serve::law_pieces_add_up(t);
    assert forall|i: int| 0 <= i < replies.len() - 1 implies (#[trigger] replies[i]).value.len()
        > 0 by {
        assert(0 < pieces(t)[i].len());
    }
    law_pieces_are_reassembled(f, seq![], f.target, replies);
    assert(replies.map_values(|r: PropertyReplyView| r.value) =~= pieces(t));
    assert(Seq::<u8>::empty() + all_values(replies) =~= t.data.skip(0));
    assert(t.data.skip(0) =~= t.data);
}

/// Whoever does as a fetch says comes to the contents: it is told to finish where the fetch is done
/// and only there, to poll as long as an event is awaited, and to read as long as a property is. A
/// fetch never changes what it asks for, of whom, and through which property.
pub proof fn law_actions_lead_to_the_contents(
    f: FetchView,
    polled: Option<XEvent>,
    late: bool,
    reply: PropertyReplyView,
)
    requires
        !(f.state is Done),
    ensures
        ({
            let awaits_event = f.state is AwaitAnswer || f.state is AwaitPieceNotice;
            let (next, action) = if awaits_event {
                after_poll(f, polled, late)
            } else {
                after_reply(f, reply)
            };
            &&& f.polls() == awaits_event
            &&& f.reads() == !awaits_event
            &&& action is Finish <==> next.state is Done
            &&& next.state is AwaitAnswer || next.state is AwaitPieceNotice ==> action is Poll
                || action is PauseThenPoll || action is AcceptIncr || action is PollAfresh
            &&& next.state is AwaitFirst || next.state is AwaitPiece || next.state is AwaitPart
                ==> action is GetProperty
            &&& next.window == f.window && next.selection == f.selection && next.target == f.target
                && next.property == f.property && next.incr == f.incr
        }),
{
}

/// The answer that is awaited is the one to this very request. Where it names a property, that is
/// read from its beginning, without being deleted. Any other event is passed over at once, however
/// late it is, and where there is none the fetch rests for a moment until the time is over.
pub proof fn law_answer_is_awaited(f: FetchView, event: XEvent, late: bool)
    requires
        f.state is AwaitAnswer,
    ensures
        ({
            let is_answer = event matches XEvent::SelectionNotify(n) && n.requestor == f.window
                && n.selection == f.selection && n.target == f.target;
            &&& is_answer && event->SelectionNotify_0.property != 0 ==> after_poll(
                f,
                Some(event),
                late,
            ) == (
                f.with(FetchStateView::AwaitFirst),
                FetchAction::GetProperty { delete: false, offset: 0, length: 0x1FFF_FFFF },
            )
            &&& !is_answer ==> after_poll(f, Some(event), late) == (f, FetchAction::Poll)
            &&& after_poll(f, None, false) == (f, FetchAction::PauseThenPoll { pause_ms: 5 })
        }),
        ANSWER_TIMEOUT_MS == 2000,
{
}

/// The notice that is awaited is that of a new value in this very property, which is then read whole
/// and deleted, so that the owner goes on. News of other properties is passed over at once. Where
/// any other event comes, or none, the fetch rests for a moment, or ends without contents if the
/// time is over; what it has so far it keeps as long as it goes on.
pub proof fn law_piece_is_awaited(
    f: FetchView,
    data: Seq<u8>,
    type_: Atom,
    polled: Option<XEvent>,
    late: bool,
)
    requires
        f.state == (FetchStateView::AwaitPieceNotice { data, type_ }),
    ensures
        ({
            let now = after_poll(f, polled, late);
            match polled {
                Some(XEvent::PropertyNotify { window, atom, state }) => if window == f.window
                    && atom == f.property && state == PropertyState::NewValue {
                    now == (
                        f.with(FetchStateView::AwaitPiece { data, type_ }),
                        FetchAction::GetProperty { delete: true, offset: 0, length: 0x1FFF_FFFF },
                    )
                } else {
                    now == (f, FetchAction::Poll)
                },
                _ => if late {
                    now == (
                        f.with(FetchStateView::Done { contents: None }),
                        FetchAction::Finish { delete: false },
                    )
                } else {
                    now == (f, FetchAction::PauseThenPoll { pause_ms: 5 })
                },
            }
        }),
{
}

/// Every piece of an `INCR` transfer that holds anything, the first as any later one, is put behind
/// what is there, all of it, and the next one is awaited for five seconds. The empty piece ends the
/// transfer, with the type of the last piece before it.
pub proof fn law_every_piece_is_followed_by_the_next(
    f: FetchView,
    data: Seq<u8>,
    type_: Atom,
    reply: PropertyReplyView,
)
    requires
        f.state == (FetchStateView::AwaitPiece { data, type_ }),
    ensures
        reply.value.len() > 0 ==> after_reply(f, reply) == (
            f.with(
                FetchStateView::AwaitPieceNotice { data: data + reply.value, type_: reply.type_ },
            ),
            FetchAction::PollAfresh { timeout_ms: 5000 },
        ),
        reply.value.len() == 0 ==> after_reply(f, reply) == (
            f.with(FetchStateView::Done { contents: Some((data, type_)) }),
            FetchAction::Finish { delete: false },
        ),
{
}

/// A property of the type `INCR` announces a transfer: it is deleted, so that the owner begins, and
/// the first piece is awaited for five seconds, with nothing there yet.
pub proof fn law_announcement_begins_a_transfer(f: FetchView, reply: PropertyReplyView)
    requires
        f.state is AwaitFirst,
        reply.type_ == f.incr,
    ensures
        after_reply(f, reply) == (
            f.with(FetchStateView::AwaitPieceNotice { data: seq![], type_: f.target }),
            FetchAction::AcceptIncr { timeout_ms: 5000 },
        ),
        PIECE_TIMEOUT_MS == 5000,
{
}

/// A plain property is read to its end, part by part: as long as bytes are left, the next part is
/// asked for from behind the whole words that are there, and where none are left the contents are
/// what was read, all of it, and the property is deleted.
pub proof fn law_plain_property_is_read_to_its_end(
    f: FetchView,
    data: Seq<u8>,
    type_: Atom,
    reply: PropertyReplyView,
)
    requires
        (f.state is AwaitFirst && reply.type_ != f.incr && data.len() == 0 && type_ == reply.type_)
            || f.state == (FetchStateView::AwaitPart { data, type_ }),
    ensures
        ({
            let (next, action) = after_reply(f, reply);
            let read = data + reply.value;
            if reply.bytes_after == 0 {
                &&& next == f.with(FetchStateView::Done { contents: Some((read, type_)) })
                &&& action == (FetchAction::Finish { delete: true })
            } else {
                &&& next == f.with(FetchStateView::AwaitPart { data: read, type_ })
                &&& action matches FetchAction::GetProperty { delete, offset, length } && !delete
                    && length == 0x1FFF_FFFF && (read.len() < 0x4_0000_0000 ==> 4 * offset
                    <= read.len() < 4 * offset + 4)
            }
        }),
{
    let read = data + reply.value;
    if f.state is AwaitFirst {
        assert(read =~= reply.value);
    }
}

/// The content of a fetch is all that it holds: what it asks for, and what it has so far.
pub proof fn law_content_of_a_fetch_is_whole(f: Fetch, contents: Option<(Vec<u8>, Atom)>)
    ensures
        f@.window == f.window && f@.selection == f.selection && f@.target == f.target,
        f@.property == f.property && f@.incr == f.incr && f@.state == f.state@,
        contents is None <==> contents_view(contents) is None,
        contents matches Some(p) ==> contents_view(contents) == Some((p.0@, p.1)),
        f.state is AwaitAnswer <==> f@.state is AwaitAnswer,
        f.state is AwaitFirst <==> f@.state is AwaitFirst,
        f.state matches FetchState::AwaitPieceNotice { data, type_ } ==> f@.state == (
        FetchStateView::AwaitPieceNotice { data: data@, type_ }),
        f.state matches FetchState::AwaitPiece { data, type_ } ==> f@.state == (
        FetchStateView::AwaitPiece { data: data@, type_ }),
        f.state matches FetchState::AwaitPart { data, type_ } ==> f@.state == (
        FetchStateView::AwaitPart { data: data@, type_ }),
        f.state matches FetchState::Done { contents: c } ==> f@.state == (FetchStateView::Done {
            contents: contents_view(c),
        }),
{
}

}
