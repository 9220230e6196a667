//! The daemon's main loop: what it does about an event, and what it answers to a command.
use vstd::prelude::*;

use crate::args::Config;
use crate::ipc::{error_reply, reply_error, Command, CommandView};
use crate::serve::{
    advance_incr_send, after_piece, all_wf, handle_selection_request, incr_views,
    lemma_transfer_position, owned_view, piece_request, request_plan, transfer_position, IncrSend,
    IncrView, OwnedSelection, OwnedView, PlanView, RequestPlan,
};
use crate::x11::{Atom, Atoms, PropertyState, Window, XEvent, XRequest, XRequestView};

verus! {

/// How long the daemon sleeps before it looks for events and commands again.
pub const LOOP_PAUSE_MS: u64 = 25;

/// What the daemon has in hand.
#[derive(Debug, PartialEq, Eq)]
pub struct Daemon {
    /// What it owns of the clipboard.
    pub owned: Option<OwnedSelection>,
    /// The transfers under way.
    pub pending: Vec<IncrSend>,
}

/// The mathematical content of a [`Daemon`].
#[verifier::ext_equal]
pub struct DaemonView {
    pub owned: Option<OwnedView>,
    pub pending: Seq<IncrView>,
}

impl View for Daemon {
    type V = DaemonView;

    open spec fn view(&self) -> DaemonView {
        DaemonView { owned: owned_view(self.owned), pending: incr_views(self.pending@) }
    }
}

impl DaemonView {
    /// No transfer has sent more than there is.
    pub open spec fn wf(self) -> bool {
        all_wf(self.pending)
    }
}

/// What the daemon does about an event.
#[derive(Debug, PartialEq, Eq)]
pub enum Reaction {
    Ignore,
    /// Capture the selection.
    Capture { selection: Atom },
    /// Answer a request. A transfer that begins is handed back to [`Daemon::begin`] once the
    /// changes have been made.
    Serve { plan: RequestPlan },
    /// Send the next piece of a transfer.
    Send { request: XRequest },
}

/// The mathematical content of a [`Reaction`].
#[verifier::ext_equal]
pub enum ReactionView {
    Ignore,
    Capture { selection: Atom },
    Serve { plan: PlanView },
    Send { request: XRequestView },
}

impl View for Reaction {
    type V = ReactionView;

    open spec fn view(&self) -> ReactionView {
        match *self {
            Reaction::Ignore => ReactionView::Ignore,
            Reaction::Capture { selection } => ReactionView::Capture { selection },
            Reaction::Serve { plan } => ReactionView::Serve { plan: plan@ },
            Reaction::Send { request } => ReactionView::Send { request: request@ },
        }
    }
}

/// The selections that the daemon watches: the clipboard, and `PRIMARY` if it is told to.
pub open spec fn watched(config: Config, atoms: Atoms) -> Seq<Atom> {
    if config.watch_primary {
        seq![atoms.clipboard, atoms.primary]
    } else {
        seq![atoms.clipboard]
    }
}

/// The selections that the daemon watches.
pub fn watched_selections(config: &Config, atoms: &Atoms) -> (r: Vec<Atom>)
    ensures
        r@ == watched(*config, *atoms),
{
    let mut out: Vec<Atom> = Vec::new();
    out.push(atoms.clipboard);
    if config.watch_primary {
        out.push(atoms.primary);
    }
    assert(out@ =~= watched(*config, *atoms));
    out
}

/// What the daemon has in hand after an event, and what it does. It captures a watched selection
/// that another client has come to own; it answers requests; it lets go of the clipboard when
/// another client takes it; and it sends the next piece of a transfer when the last one was read.
pub open spec fn after_event(
    d: DaemonView,
    event: XEvent,
    window: Window,
    config: Config,
    atoms: Atoms,
) -> (DaemonView, ReactionView) {
    match event {
        XEvent::OwnerChanged { owner, selection } => (
            d,
            if owner != 0 && owner != window && (selection == atoms.clipboard || (
            config.watch_primary && selection == atoms.primary)) {
                ReactionView::Capture { selection }
            } else {
                ReactionView::Ignore
            },
        ),
        XEvent::SelectionRequest(request) => (
            d,
            ReactionView::Serve { plan: request_plan(request, d.owned, atoms) },
        ),
        XEvent::SelectionClear { selection } => (
            if selection == atoms.clipboard {
                DaemonView { owned: None, ..d }
            } else {
                d
            },
            ReactionView::Ignore,
        ),
        XEvent::PropertyNotify { window: w, atom, state } => if state == PropertyState::Deleted {
            (
                DaemonView { pending: after_piece(d.pending, w, atom), ..d },
                match piece_request(d.pending, w, atom) {
                    Some(request) => ReactionView::Send { request },
                    None => ReactionView::Ignore,
                },
            )
        } else {
            (d, ReactionView::Ignore)
        },
        _ => (d, ReactionView::Ignore),
    }
}

/// What came of a selection: what is now owned, or the text of the error.
pub open spec fn outcome_view(outcome: Option<Result<OwnedSelection, String>>) -> Option<
    Result<OwnedView, Seq<char>>,
> {
    match outcome {
        Some(Ok(selection)) => Some(Ok(selection@)),
        Some(Err(message)) => Some(Err(message@)),
        None => None,
    }
}

/// What the daemon has in hand after a command, and what it replies: a selection is taken over, or
/// its error reported, a ping is answered, and any other command is refused.
pub open spec fn after_command(
    d: DaemonView,
    command: CommandView,
    outcome: Option<Result<OwnedView, Seq<char>>>,
) -> (DaemonView, Seq<char>)
    recommends
        command is Select ==> outcome is Some,
{
    match command {
        CommandView::Select { .. } => match outcome->0 {
            Ok(selection) => (DaemonView { owned: Some(selection), ..d }, "OK"@),
            Err(message) => (d, error_reply(message)),
        },
        CommandView::Ping => (d, "PONG"@),
        CommandView::Unknown => (d, error_reply("unknown command"@)),
    }
}

impl Daemon {
    /// A daemon that owns nothing and sends nothing.
    pub fn new() -> (r: Daemon)
        ensures
            r@ == (DaemonView { owned: None, pending: seq![] }),
            r@.wf(),
    {
        let d = Daemon { owned: None, pending: Vec::new() };
        assert(d@ =~= DaemonView { owned: None, pending: seq![] });
        d
    }

    /// Whether no transfer has sent more than there is, as holds of every daemon that only its own
    /// functions have changed.
    pub fn is_wf(&self) -> (r: bool)
        ensures
            r == self@.wf(),
    {
        for i in 0..self.pending.len()
            invariant
                forall|j: int|
                    0 <= j < i ==> (#[trigger] incr_views(self.pending@)[j]).wf(),
        {
            assert(incr_views(self.pending@)[i as int] == self.pending@[i as int]@);
            if self.pending[i].offset > self.pending[i].data.len() {
                assert(!incr_views(self.pending@)[i as int].wf());
                return false;
            }
        }
        true
    }

    /// Decides what to do about an event.
    pub fn handle_event(
        &mut self,
        event: &XEvent,
        window: Window,
        config: &Config,
        atoms: &Atoms,
    ) -> (r: Reaction)
        requires
            old(self)@.wf(),
        ensures
            final(self)@.wf(),
            (final(self)@, r@) == after_event(old(self)@, *event, window, *config, *atoms),
            r matches Reaction::Serve { plan } ==> (plan.transfer matches Some(t) ==> t@.wf()),
    {
        match *event {
            XEvent::OwnerChanged { owner, selection } => {
                if owner != 0 && owner != window && (selection == atoms.clipboard || (
                config.watch_primary && selection == atoms.primary)) {
                    Reaction::Capture { selection }
                } else {
                    Reaction::Ignore
                }
            },
            XEvent::SelectionRequest(request) => {
                Reaction::Serve { plan: handle_selection_request(&request, &self.owned, atoms) }
            },
            XEvent::SelectionClear { selection } => {
                if selection == atoms.clipboard {
                    self.owned = None;
                }
                Reaction::Ignore
            },
            XEvent::PropertyNotify { window: w, atom, state } => {
                if state == PropertyState::Deleted {
                    match advance_incr_send(&mut self.pending, w, atom) {
                        Some(request) => Reaction::Send { request },
                        None => Reaction::Ignore,
                    }
                } else {
                    Reaction::Ignore
                }
            },
            _ => Reaction::Ignore,
        }
    }

    /// Begins a transfer, behind those that are under way.
    pub fn begin(&mut self, transfer: IncrSend)
        requires
            old(self)@.wf(),
            transfer@.wf(),
        ensures
            final(self)@.wf(),
            final(self)@ == (DaemonView {
                pending: old(self)@.pending.push(transfer@),
                ..old(self)@
            }),
    {
        let ghost before = self@;
        self.pending.push(transfer);
        assert(self@ =~= DaemonView { pending: before.pending.push(transfer@), ..before });
    }

    /// Answers a command, given what came of the selection that it asks for, if it asks for one.
    pub fn answer(
        &mut self,
        command: &Command,
        outcome: Option<Result<OwnedSelection, String>>,
    ) -> (r: String)
        requires
            command@ is Select ==> outcome is Some,
        ensures
            final(self)@.wf() == old(self)@.wf(),
            (final(self)@, r@) == after_command(old(self)@, command@, outcome_view(outcome)),
    {
        match command {
            Command::Select { .. } => match outcome {
                Some(outcome) => self.answer_select(outcome),
                None => answer_unknown(),
            },
            Command::Ping => answer_ping(),
            Command::Unknown => answer_unknown(),
        }
    }

    /// Takes a selection over, or not, and says so to the client that asked for it: the daemon owns
    /// what was selected, or keeps what it had and reports the error.
    pub fn answer_select(&mut self, outcome: Result<OwnedSelection, String>) -> (r: String)
        ensures
            final(self)@.wf() == old(self)@.wf(),
            match outcome {
                Ok(selection) => final(self)@ == (DaemonView {
                    owned: Some(selection@),
                    ..old(self)@
                }) && r@ == "OK"@,
                Err(message) => final(self)@ == old(self)@ && r@ == error_reply(message@),
            },
    {
        match outcome {
            Ok(selection) => {
                self.owned = Some(selection);
                "OK".to_owned()
            },
            Err(message) => reply_error(message.as_str()),
        }
    }
}

/// The answer to a client that asks whether the daemon is there.
pub fn answer_ping() -> (r: String)
    ensures
        r@ == "PONG"@,
{
    "PONG".to_owned()
}

/// The answer to a command that the daemon does not know.
pub fn answer_unknown() -> (r: String)
    ensures
        r@ == error_reply("unknown command"@),
{
    reply_error("unknown command")
}

// ---------------------------------------------------------------------------------------------
// Laws
// ---------------------------------------------------------------------------------------------

/// The daemon captures only what it watches, and never what it owns itself: what a client selects
/// does not go into the history a second time. It watches the clipboard, and `PRIMARY` if and only
/// if it is told to.
pub proof fn law_only_watched_selections_of_others_are_captured(
    d: DaemonView,
    event: XEvent,
    window: Window,
    config: Config,
    atoms: Atoms,
)
    ensures
        after_event(d, event, window, config, atoms).1 matches ReactionView::Capture { selection }
            ==> watched(config, atoms).contains(selection) && (event
            matches XEvent::OwnerChanged { owner, selection: s } && s == selection && owner
            != window && owner != 0),
        forall|owner: Window, selection: Atom|
            owner != 0 && owner != window && watched(config, atoms).contains(selection) ==> (
            #[trigger] after_event(
                d,
                XEvent::OwnerChanged { owner, selection },
                window,
                config,
                atoms,
            )).1 == (ReactionView::Capture { selection }),
        watched(config, atoms) == seq![atoms.clipboard] + (if config.watch_primary {
            seq![atoms.primary]
        } else {
            seq![]
        }),
{
    let list = watched(config, atoms);
    assert(list =~= seq![atoms.clipboard] + (if config.watch_primary {
        seq![atoms.primary]
    } else {
        seq![]
    }));
    assert(list[0] == atoms.clipboard);
    if config.watch_primary {
        assert(list[1] == atoms.primary);
    }
}

/// Whatever happens, the daemon owns what it owned, until another client takes the clipboard.
pub proof fn law_selection_is_kept_until_taken(
    d: DaemonView,
    event: XEvent,
    window: Window,
    config: Config,
    atoms: Atoms,
)
    ensures
        after_event(d, event, window, config, atoms).0.owned == (if event
            == (XEvent::SelectionClear { selection: atoms.clipboard }) {
            None
        } else {
            d.owned
        }),
{
}

/// No event makes the daemon forget a transfer of which something is left to send: the transfer
/// stays as it was, or one more piece of it has gone out. And no transfer moves on but where its
/// property was deleted, which says that the last piece was read.
pub proof fn law_unread_transfers_stay(
    d: DaemonView,
    event: XEvent,
    window: Window,
    config: Config,
    atoms: Atoms,
    i: int,
)
    requires
        0 <= i < d.pending.len(),
        0 <= d.pending[i].offset < d.pending[i].data.len(),
    ensures
        ({
            let t = d.pending[i];
            let now = after_event(d, event, window, config, atoms).0.pending;
            let read = XEvent::PropertyNotify {
                window: t.requestor,
                atom: t.property,
                state: PropertyState::Deleted,
            };
            now.contains(t) || (event == read && now.contains(t.advanced()))
        }),
{
    let t = d.pending[i];
    let now = after_event(d, event, window, config, atoms).0.pending;
    if let XEvent::PropertyNotify { window: w, atom, state } = event {
        if state == PropertyState::Deleted {
            let k = transfer_position(d.pending, w, atom);
            lemma_transfer_position(d.pending, w, atom);
            assert(t.next_piece().len() > 0);
            if k < d.pending.len() && d.pending[k].next_piece().len() == 0 && i > k {
                assert(now[i - 1] == t);
            } else if i == k {
                assert(now[i] == t.advanced());
            } else {
                assert(now[i] == t);
            }
        } else {
            assert(now[i] == t);
        }
    } else {
        assert(now[i] == t);
    }
}

/// Only a selection that succeeds changes what the daemon has in hand, and it changes only what the
/// daemon owns: a command that fails leaves it as it was. Every command has its reply, and one that
/// fails says why.
pub proof fn law_only_a_selection_changes_the_daemon(
    d: DaemonView,
    command: CommandView,
    outcome: Option<Result<OwnedView, Seq<char>>>,
)
    requires
        command is Select ==> outcome is Some,
    ensures
        ({
            let (now, reply) = after_command(d, command, outcome);
            &&& now == (match (command, outcome) {
                (CommandView::Select { .. }, Some(Ok(selection))) => DaemonView {
                    owned: Some(selection),
                    ..d
                },
                _ => d,
            })
            &&& now.pending == d.pending
            &&& reply == "OK"@ <==> command is Select && outcome->0 is Ok
            &&& command is Ping ==> reply == "PONG"@
            &&& command is Unknown ==> reply == "ERR unknown command"@
            &&& command is Select && outcome->0 is Err ==> reply == "ERR "@ + outcome->0->Err_0
        }),
{
    reveal_strlit("ERR ");
    reveal_strlit("unknown command");
    reveal_strlit("ERR unknown command");
    assert(error_reply("unknown command"@) =~= "ERR unknown command"@);
    reveal_strlit("OK");
    reveal_strlit("PONG");
    assert("OK"@[0] == 'O');
    assert("PONG"@[0] == 'P');
    assert("ERR "@[0] == 'E');
    assert(error_reply("unknown command"@)[0] == 'E');
    if let Some(Err(message)) = outcome {
        assert(error_reply(message)[0] == 'E');
    }
}

/// Every request for a selection is answered from what the daemon owns at that time, and changes
/// nothing that it has in hand until the transfer begins that it may ask for.
pub proof fn law_every_request_is_answered(
    d: DaemonView,
    request: crate::x11::SelectionRequest,
    window: Window,
    config: Config,
    atoms: Atoms,
)
    ensures
        after_event(d, XEvent::SelectionRequest(request), window, config, atoms) == (
            d,
            ReactionView::Serve { plan: request_plan(request, d.owned, atoms) },
        ),
{
}

/// When a property has been deleted, the next piece of the transfer to it is sent, if there is one,
/// whatever else the daemon has in hand. What it owns stays.
pub proof fn law_read_property_brings_the_next_piece(
    d: DaemonView,
    requestor: Window,
    property: Atom,
    window: Window,
    config: Config,
    atoms: Atoms,
)
    ensures
        ({
            let deleted = XEvent::PropertyNotify {
                window: requestor,
                atom: property,
                state: PropertyState::Deleted,
            };
            let (now, reaction) = after_event(d, deleted, window, config, atoms);
            &&& now.owned == d.owned
            &&& now.pending == after_piece(d.pending, requestor, property)
            &&& reaction == (match piece_request(d.pending, requestor, property) {
                Some(request) => ReactionView::Send { request },
                None => ReactionView::Ignore,
            })
        }),
{
}

/// Every other event changes nothing but what is owned, and that only where the clipboard is taken;
/// it is ignored, unless a selection has a new owner.
pub proof fn law_other_events_change_nothing(
    d: DaemonView,
    event: XEvent,
    window: Window,
    config: Config,
    atoms: Atoms,
)
    requires
        !(event matches XEvent::PropertyNotify { state, .. } && state == PropertyState::Deleted),
    ensures
        ({
            let (now, reaction) = after_event(d, event, window, config, atoms);
            &&& now.pending == d.pending
            &&& !(event is SelectionClear) ==> now == d
            &&& !(event is OwnerChanged) && !(event is SelectionRequest) ==> reaction
                == ReactionView::Ignore
            &&& event is OwnerChanged ==> reaction is Capture || reaction is Ignore
        }),
        LOOP_PAUSE_MS == 25,
{
}

/// The content of a daemon and of its reactions is all that they hold, and that of an outcome is
/// what is owned, or the error.
pub proof fn law_content_of_a_daemon_is_whole(
    d: Daemon,
    reaction: Reaction,
    selection: OwnedSelection,
    message: String,
)
    ensures
        d@.owned == owned_view(d.owned) && d@.pending == incr_views(d.pending@),
        reaction is Ignore <==> reaction@ is Ignore,
        reaction matches Reaction::Capture { selection: s } ==> reaction@ == (
        ReactionView::Capture { selection: s }),
        reaction matches Reaction::Serve { plan } ==> reaction@ == (ReactionView::Serve {
            plan: plan@,
        }),
        reaction matches Reaction::Send { request } ==> reaction@ == (ReactionView::Send {
            request: request@,
        }),
        outcome_view(None) is None,
        outcome_view(Some(Ok(selection))) == Some(Ok::<OwnedView, Seq<char>>(selection@)),
        outcome_view(Some(Err(message))) == Some(Err::<OwnedView, Seq<char>>(message@)),
{
}

}
