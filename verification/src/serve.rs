//! Serving the selection that the daemon owns: which targets it offers, what it answers to a
//! request, and how large contents go out piece by piece (the ICCCM `INCR` protocol).
use vstd::prelude::*;
use vstd::slice::{slice_subrange, slice_to_vec};

use crate::x11::{
    request_views, Atom, Atoms, SelectionNotify, SelectionRequest, Window, XRequest, XRequestView,
};

verus! {

/// The largest contents that go out in one piece, and the size of the pieces of larger ones.
/// Kept well under typical X server request limits.
pub const INCR_CHUNK: usize = 200_000;

/// A selection that the daemon owns.
#[derive(Debug, PartialEq, Eq)]
pub struct OwnedSelection {
    pub mime_atom: Atom,
    pub data: Vec<u8>,
    pub is_text: bool,
}

/// The mathematical content of an [`OwnedSelection`].
#[verifier::ext_equal]
pub struct OwnedView {
    pub mime_atom: Atom,
    pub data: Seq<u8>,
    pub is_text: bool,
}

impl View for OwnedSelection {
    type V = OwnedView;

    open spec fn view(&self) -> OwnedView {
        OwnedView { mime_atom: self.mime_atom, data: self.data@, is_text: self.is_text }
    }
}

/// The content of what the daemon owns, if it owns anything.
pub open spec fn owned_view(o: Option<OwnedSelection>) -> Option<OwnedView> {
    match o {
        Some(s) => Some(s@),
        None => None,
    }
}

/// A transfer that goes out piece by piece.
#[derive(Debug, PartialEq, Eq)]
pub struct IncrSend {
    pub requestor: Window,
    pub property: Atom,
    pub target: Atom,
    pub data: Vec<u8>,
    pub offset: usize,
}

/// The mathematical content of an [`IncrSend`].
#[verifier::ext_equal]
pub struct IncrView {
    pub requestor: Window,
    pub property: Atom,
    pub target: Atom,
    pub data: Seq<u8>,
    pub offset: int,
}

impl View for IncrSend {
    type V = IncrView;

    open spec fn view(&self) -> IncrView {
        IncrView {
            requestor: self.requestor,
            property: self.property,
            target: self.target,
            data: self.data@,
            offset: self.offset as int,
        }
    }
}

impl IncrView {
    /// No more has gone out than there is.
    pub open spec fn wf(self) -> bool {
        0 <= self.offset <= self.data.len()
    }

    /// Whether this transfer goes to the given property of the given window.
    pub open spec fn goes_to(self, requestor: Window, property: Atom) -> bool {
        self.requestor == requestor && self.property == property
    }

    /// The next piece: all that is left, up to [`INCR_CHUNK`] bytes.
    pub open spec fn next_piece(self) -> Seq<u8> {
        let left = self.data.len() - self.offset;
        let take = if left < INCR_CHUNK {
            left
        } else {
            INCR_CHUNK as int
        };
        self.data.subrange(self.offset, self.offset + take)
    }

    /// The transfer after one more piece.
    pub open spec fn advanced(self) -> IncrView {
        IncrView { offset: self.offset + self.next_piece().len(), ..self }
    }
}

/// The contents of the transfers under way.
pub open spec fn incr_views(v: Seq<IncrSend>) -> Seq<IncrView> {
    Seq::new(v.len(), |i: int| v[i]@)
}

/// Every transfer under way is well formed.
pub open spec fn all_wf(v: Seq<IncrView>) -> bool {
    forall|i: int| 0 <= i < v.len() ==> (#[trigger] v[i]).wf()
}

/// The position of the first transfer to the given property of the given window; the number of
/// transfers if there is none.
pub open spec fn transfer_position(v: Seq<IncrView>, requestor: Window, property: Atom) -> int
    decreases v.len(),
{
    if v.len() == 0 || v[0].goes_to(requestor, property) {
        0
    } else {
        1 + transfer_position(v.skip(1), requestor, property)
    }
}

/// The transfers under way after one more piece went to the given property: an empty piece ends
/// its transfer.
pub open spec fn after_piece(v: Seq<IncrView>, requestor: Window, property: Atom) -> Seq<IncrView> {
    let i = transfer_position(v, requestor, property);
    if i >= v.len() {
        v
    } else if v[i].next_piece().len() == 0 {
        v.remove(i)
    } else {
        v.update(i, v[i].advanced())
    }
}

/// What the daemon sends when the given property has been read: the next piece of the first
/// transfer that goes there.
pub open spec fn piece_request(v: Seq<IncrView>, requestor: Window, property: Atom) -> Option<
    XRequestView,
> {
    let i = transfer_position(v, requestor, property);
    if i >= v.len() {
        None
    } else {
        Some(
            XRequestView::ReplaceBytes {
                window: requestor,
                property,
                type_: v[i].target,
                bytes: v[i].next_piece(),
            },
        )
    }
}

/// What the daemon does about a request for a selection.
#[derive(Debug, PartialEq, Eq)]
pub struct RequestPlan {
    /// The changes on the requestor's window, in order.
    pub requests: Vec<XRequest>,
    /// The transfer that begins once those changes have been made.
    pub transfer: Option<IncrSend>,
    /// The answer, sent last.
    pub notify: SelectionNotify,
}

/// The mathematical content of a [`RequestPlan`].
#[verifier::ext_equal]
pub struct PlanView {
    pub requests: Seq<XRequestView>,
    pub transfer: Option<IncrView>,
    pub notify: SelectionNotify,
}

impl View for RequestPlan {
    type V = PlanView;

    open spec fn view(&self) -> PlanView {
        PlanView {
            requests: request_views(self.requests@),
            transfer: match self.transfer {
                Some(t) => Some(t@),
                None => None,
            },
            notify: self.notify,
        }
    }
}

/// The targets that the daemon offers for a selection that it owns.
pub open spec fn offered(owned: OwnedView, atoms: Atoms) -> Seq<Atom> {
    if owned.is_text {
        seq![atoms.targets, owned.mime_atom, atoms.utf8_string, atoms.string, atoms.text]
    } else {
        seq![atoms.targets, owned.mime_atom]
    }
}

/// Whether the contents themselves are served under the given target.
pub open spec fn content_target(owned: OwnedView, atoms: Atoms, target: Atom) -> bool {
    ||| target == owned.mime_atom
    ||| owned.is_text && (target == atoms.utf8_string || target == atoms.string || target
        == atoms.text)
}

/// The property that an answer goes to. Old clients leave it to the owner and name none.
pub open spec fn answer_property(ev: SelectionRequest) -> Atom {
    if ev.property == 0 {
        ev.target
    } else {
        ev.property
    }
}

/// The answer to a request, with the property that holds the contents, or 0 for a refusal.
pub open spec fn answer(ev: SelectionRequest, property: Atom) -> SelectionNotify {
    SelectionNotify {
        time: ev.time,
        requestor: ev.requestor,
        selection: ev.selection,
        target: ev.target,
        property,
    }
}

/// What the daemon does about a request: it refuses one for contents that it does not have, lists
/// the targets that it offers, and serves the contents, at once or piece by piece.
pub open spec fn request_plan(
    ev: SelectionRequest,
    owned: Option<OwnedView>,
    atoms: Atoms,
) -> PlanView {
    let property = answer_property(ev);
    match owned {
        Some(o) => if ev.target == atoms.targets {
            PlanView {
                requests: seq![
                    XRequestView::ReplaceAtoms {
                        window: ev.requestor,
                        property,
                        atoms: offered(o, atoms),
                    },
                ],
                transfer: None,
                notify: answer(ev, property),
            }
        } else if !content_target(o, atoms, ev.target) {
            PlanView { requests: seq![], transfer: None, notify: answer(ev, 0) }
        } else if o.data.len() > INCR_CHUNK {
            PlanView {
                requests: seq![
                    XRequestView::WatchProperties { window: ev.requestor },
                    XRequestView::ReplaceNumber {
                        window: ev.requestor,
                        property,
                        type_: atoms.incr,
                        number: (o.data.len() % 0x1_0000_0000) as u32,
                    },
                ],
                transfer: Some(
                    IncrView {
                        requestor: ev.requestor,
                        property,
                        target: ev.target,
                        data: o.data,
                        offset: 0,
                    },
                ),
                notify: answer(ev, property),
            }
        } else {
            PlanView {
                requests: seq![
                    XRequestView::ReplaceBytes {
                        window: ev.requestor,
                        property,
                        type_: ev.target,
                        bytes: o.data,
                    },
                ],
                transfer: None,
                notify: answer(ev, property),
            }
        },
        None => PlanView { requests: seq![], transfer: None, notify: answer(ev, 0) },
    }
}

/// The answer to a request, with the property that holds the contents, or 0 for a refusal.
pub fn send_notify(ev: &SelectionRequest, property: Atom) -> (r: SelectionNotify)
    ensures
        r == answer(*ev, property),
{
    SelectionNotify {
        time: ev.time,
        requestor: ev.requestor,
        selection: ev.selection,
        target: ev.target,
        property,
    }
}

/// Decides what to do about a request for a selection.
pub fn handle_selection_request(
    ev: &SelectionRequest,
    owned: &Option<OwnedSelection>,
    atoms: &Atoms,
) -> (r: RequestPlan)
    ensures
        r@ == request_plan(*ev, owned_view(*owned), *atoms),
        r.transfer matches Some(t) ==> t@.wf(),
{
    let property: Atom = if ev.property == 0 {
        ev.target
    } else {
        ev.property
    };
    let mut requests: Vec<XRequest> = Vec::new();
    let o = match owned {
        Some(o) => o,
        None => {
            let plan = RequestPlan { requests, transfer: None, notify: send_notify(ev, 0) };
            assert(plan@ =~= request_plan(*ev, owned_view(*owned), *atoms));
            return plan;
        },
    };
    if ev.target == atoms.targets {
        let mut list: Vec<Atom> = Vec::new();
        list.push(atoms.targets);
        list.push(o.mime_atom);
        if o.is_text {
            list.push(atoms.utf8_string);
            list.push(atoms.string);
            list.push(atoms.text);
        }
        assert(list@ =~= offered(o@, *atoms));
        requests.push(XRequest::ReplaceAtoms { window: ev.requestor, property, atoms: list });
        let plan = RequestPlan { requests, transfer: None, notify: send_notify(ev, property) };
        assert(plan@.requests =~= request_plan(*ev, owned_view(*owned), *atoms).requests);
        return plan;
    }
    let matches_target = ev.target == o.mime_atom || (o.is_text && (ev.target == atoms.utf8_string
        || ev.target == atoms.string || ev.target == atoms.text));
    if !matches_target {
        let plan = RequestPlan { requests, transfer: None, notify: send_notify(ev, 0) };
        assert(plan@.requests =~= request_plan(*ev, owned_view(*owned), *atoms).requests);
        return plan;
    }
    let mut transfer: Option<IncrSend> = None;
    if o.data.len() > INCR_CHUNK {
        requests.push(XRequest::WatchProperties { window: ev.requestor });
        let number: u32 = (o.data.len() as u64 % 0x1_0000_0000) as u32;
        requests.push(
            XRequest::ReplaceNumber { window: ev.requestor, property, type_: atoms.incr, number },
        );
        transfer =
        Some(
            IncrSend {
                requestor: ev.requestor,
                property,
                target: ev.target,
                data: slice_to_vec(o.data.as_slice()),
                offset: 0,
            },
        );
    } else {
        requests.push(
            XRequest::ReplaceBytes {
                window: ev.requestor,
                property,
                type_: ev.target,
                bytes: slice_to_vec(o.data.as_slice()),
            },
        );
    }
    let plan = RequestPlan { requests, transfer, notify: send_notify(ev, property) };
    assert(plan@.requests =~= request_plan(*ev, owned_view(*owned), *atoms).requests);
    plan
}

/// The first transfer stands where `transfer_position` says, and none stands before it.
pub(crate) proof fn lemma_transfer_position(v: Seq<IncrView>, requestor: Window, property: Atom)
    ensures
        0 <= transfer_position(v, requestor, property) <= v.len(),
        transfer_position(v, requestor, property) < v.len() ==> v[transfer_position(
            v,
            requestor,
            property,
        )].goes_to(requestor, property),
        forall|i: int|
            0 <= i < transfer_position(v, requestor, property) ==> !(#[trigger] v[i]).goes_to(
                requestor,
                property,
            ),
    decreases v.len(),
{
    if v.len() > 0 && !v[0].goes_to(requestor, property) {
        let rest = v.skip(1);
        lemma_transfer_position(rest, requestor, property);
        assert forall|i: int|
            0 <= i < transfer_position(v, requestor, property) implies !(#[trigger] v[i]).goes_to(
            requestor,
            property,
        ) by {
            if i > 0 {
                assert(rest[i - 1] == v[i]);
            }
        }
    }
}

/// Sends the next piece of a transfer, once the requestor has read the one before it.
pub fn advance_incr_send(pending: &mut Vec<IncrSend>, requestor: Window, property: Atom) -> (r:
    Option<XRequest>)
    requires
        all_wf(incr_views(old(pending)@)),
    ensures
        all_wf(incr_views(final(pending)@)),
        incr_views(final(pending)@) == after_piece(
            incr_views(old(pending)@),
            requestor,
            property,
        ),
        r is Some <==> piece_request(incr_views(old(pending)@), requestor, property) is Some,
        r matches Some(q) ==> piece_request(incr_views(old(pending)@), requestor, property) == Some(
            q@,
        ),
{
    let ghost views = incr_views(pending@);
    let mut idx: usize = 0;
    while idx < pending.len() && !(pending[idx].requestor == requestor && pending[idx].property
        == property)
        invariant
            idx <= pending.len(),
            views == incr_views(pending@),
            forall|i: int| 0 <= i < idx ==> !(#[trigger] views[i]).goes_to(requestor, property),
        decreases pending.len() - idx,
    {
        assert(views[idx as int] == pending[idx as int]@);
        idx += 1;
    }
    proof {
        lemma_transfer_position(views, requestor, property);
        let k = transfer_position(views, requestor, property);
        if idx < pending.len() {
            assert(views[idx as int] == pending[idx as int]@);
            assert(views[idx as int].goes_to(requestor, property));
        }
        assert(k == idx);
    }
    if idx >= pending.len() {
        return None;
    }
    assert(views[idx as int].wf());
    let left: usize = pending[idx].data.len() - pending[idx].offset;
    let take: usize = if left < INCR_CHUNK {
        left
    } else {
        INCR_CHUNK
    };
    let offset: usize = pending[idx].offset;
    let target: Atom = pending[idx].target;
    let bytes: Vec<u8> = slice_to_vec(
        slice_subrange(pending[idx].data.as_slice(), offset, offset + take),
    );
    assert(bytes@ == views[idx as int].next_piece());
    if take == 0 {
        pending.remove(idx);
        assert(incr_views(pending@) =~= views.remove(idx as int));
    } else {
        pending[idx].offset = offset + take;
        assert(incr_views(pending@) =~= views.update(idx as int, views[idx as int].advanced()));
    }
    assert(all_wf(incr_views(pending@))) by {
        let now = incr_views(pending@);
        assert forall|i: int| 0 <= i < now.len() implies (#[trigger] now[i]).wf() by {
            if take == 0 && i >= idx {
                assert(now[i] == views[i + 1]);
            } else if i != idx {
                assert(now[i] == views[i]);
            }
        }
    }
    Some(XRequest::ReplaceBytes { window: requestor, property, type_: target, bytes })
}

// ---------------------------------------------------------------------------------------------
// Laws
// ---------------------------------------------------------------------------------------------

/// The pieces in which the rest of a transfer goes out. The last one is empty, which tells the
/// receiver that the contents are complete.
pub open spec fn pieces(t: IncrView) -> Seq<Seq<u8>>
    decreases t.data.len() - t.offset,
{
    if !t.wf() || t.next_piece().len() == 0 {
        seq![seq![]]
    } else {
        seq![t.next_piece()] + pieces(t.advanced())
    }
}

/// The transfers under way after the given property has been read `n` times.
pub open spec fn after_reads(
    v: Seq<IncrView>,
    requestor: Window,
    property: Atom,
    n: nat,
) -> Seq<IncrView>
    decreases n,
{
    if n == 0 {
        v
    } else {
        after_reads(after_piece(v, requestor, property), requestor, property, (n - 1) as nat)
    }
}

/// What the daemon sends while the given property is read `n` times.
pub open spec fn sent_in_reads(
    v: Seq<IncrView>,
    requestor: Window,
    property: Atom,
    n: nat,
) -> Seq<Option<XRequestView>>
    decreases n,
{
    if n == 0 {
        seq![]
    } else {
        seq![piece_request(v, requestor, property)] + sent_in_reads(
            after_piece(v, requestor, property),
            requestor,
            property,
            (n - 1) as nat,
        )
    }
}

/// The daemon serves exactly the targets that it offers: a request is refused if and only if the
/// list of targets, which the daemon gives to whoever asks for it, does not hold its target.
pub proof fn law_served_targets_are_the_offered_ones(
    ev: SelectionRequest,
    owned: OwnedView,
    atoms: Atoms,
)
    requires
        answer_property(ev) != 0,
    ensures
        request_plan(ev, Some(owned), atoms).notify.property == 0 <==> !offered(
            owned,
            atoms,
        ).contains(ev.target),
{
    let list = offered(owned, atoms);
    assert(list[0] == atoms.targets);
    assert(list[1] == owned.mime_atom);
    if owned.is_text {
        assert(list[2] == atoms.utf8_string);
        assert(list[3] == atoms.string);
        assert(list[4] == atoms.text);
    }
}

/// A daemon that owns nothing refuses every request and changes nothing.
pub proof fn law_nothing_owned_nothing_served(ev: SelectionRequest, atoms: Atoms)
    ensures
        request_plan(ev, None, atoms) == (PlanView {
            requests: seq![],
            transfer: None,
            notify: answer(ev, 0),
        }),
        request_plan(ev, None, atoms).notify.property == 0,
{
}

/// Whoever asks for the contents gets all of them, byte for byte, in the property that the answer
/// names. Up to 200,000 bytes come at once. More are announced there, with their length, before the
/// answer, and come as a transfer to that very property, whose pieces add up to them.
pub proof fn law_contents_are_served_whole(ev: SelectionRequest, owned: OwnedView, atoms: Atoms)
    requires
        ev.target != atoms.targets,
        content_target(owned, atoms, ev.target),
    ensures
        ({
            let plan = request_plan(ev, Some(owned), atoms);
            let property = if ev.property == 0 {
                ev.target
            } else {
                ev.property
            };
            &&& plan.notify.property == property
            &&& plan.notify == answer(ev, answer_property(ev))
            &&& plan.transfer is Some <==> owned.data.len() > 200_000
            &&& match plan.transfer {
                None => plan.requests == seq![
                    XRequestView::ReplaceBytes {
                        window: ev.requestor,
                        property,
                        type_: ev.target,
                        bytes: owned.data,
                    },
                ],
                Some(t) => {
                    &&& plan.requests.len() == 2
                    &&& plan.requests[0] == (XRequestView::WatchProperties {
                        window: ev.requestor,
                    })
                    &&& plan.requests[1] matches XRequestView::ReplaceNumber {
                        window,
                        property: announced,
                        type_,
                        number,
                    } && window == t.requestor && announced == t.property && type_ == atoms.incr
                        && number == owned.data.len() % 0x1_0000_0000
                    &&& t.requestor == ev.requestor && t.property == property
                    &&& t.target == ev.target && t.data == owned.data && t.offset == 0
                    &&& pieces(t).flatten() == owned.data
                },
            }
        }),
{
    let plan = request_plan(ev, Some(owned), atoms);
    if let Some(t) = plan.transfer {
        law_pieces_add_up(t);
        assert(t.data.skip(0) == t.data);
    }
}

/// The answer to a request goes to the window that asked and repeats the request. All that is
/// changed is on that window, and every property that is changed is the one that the answer names;
/// where it names none, nothing is changed and no transfer begins.
pub proof fn law_changes_go_where_the_answer_says(
    ev: SelectionRequest,
    owned: Option<OwnedView>,
    atoms: Atoms,
)
    ensures
        ({
            let plan = request_plan(ev, owned, atoms);
            let property = plan.notify.property;
            &&& plan.notify.time == ev.time && plan.notify.requestor == ev.requestor
            &&& plan.notify.selection == ev.selection && plan.notify.target == ev.target
            &&& property == 0 || (ev.property != 0 && property == ev.property) || (ev.property == 0
                && property == ev.target)
            &&& forall|i: int|
                0 <= i < plan.requests.len() ==> match #[trigger] plan.requests[i] {
                    XRequestView::WatchProperties { window } => window == ev.requestor,
                    XRequestView::ReplaceAtoms { window, property: p, .. } => window
                        == ev.requestor && p == property,
                    XRequestView::ReplaceNumber { window, property: p, .. } => window
                        == ev.requestor && p == property,
                    XRequestView::ReplaceBytes { window, property: p, .. } => window
                        == ev.requestor && p == property,
                }
            &&& plan.transfer matches Some(t) ==> t.requestor == ev.requestor && t.property
                == property
            &&& property == 0 && ev.target != 0 ==> plan.requests.len() == 0 && plan.transfer
                is None
        }),
{
}

/// Whoever asks for the targets gets the list of them in the property that the answer names: the
/// list itself, the mime type, and for text the three names that text goes by.
pub proof fn law_targets_are_listed(ev: SelectionRequest, owned: OwnedView, atoms: Atoms)
    requires
        ev.target == atoms.targets,
    ensures
        ({
            let plan = request_plan(ev, Some(owned), atoms);
            &&& plan.transfer is None
            &&& plan.notify.property == (if ev.property == 0 {
                ev.target
            } else {
                ev.property
            })
            &&& plan.requests.len() == 1
            &&& plan.requests[0] matches XRequestView::ReplaceAtoms { atoms: list, .. } && list
                == seq![atoms.targets, owned.mime_atom] + (if owned.is_text {
                seq![atoms.utf8_string, atoms.string, atoms.text]
            } else {
                seq![]
            })
        }),
{
    let plan = request_plan(ev, Some(owned), atoms);
    assert(offered(owned, atoms) =~= seq![atoms.targets, owned.mime_atom] + (if owned.is_text {
        seq![atoms.utf8_string, atoms.string, atoms.text]
    } else {
        seq![]
    }));
    assert(plan.requests[0] == (XRequestView::ReplaceAtoms {
        window: ev.requestor,
        property: answer_property(ev),
        atoms: offered(owned, atoms),
    }));
}

/// A request is refused, and nothing is done, if it asks neither for the targets, nor for the mime
/// type of what is owned, nor, where that is text, for text under one of its three names. Only such
/// a request is refused.
pub proof fn law_other_targets_are_refused(ev: SelectionRequest, owned: OwnedView, atoms: Atoms)
    ensures
        ({
            let plan = request_plan(ev, Some(owned), atoms);
            let known = ev.target == atoms.targets || ev.target == owned.mime_atom || (owned.is_text
                && (ev.target == atoms.utf8_string || ev.target == atoms.string || ev.target
                == atoms.text));
            &&& !known ==> plan.requests.len() == 0 && plan.transfer is None
                && plan.notify.property == 0
            &&& known ==> plan.requests.len() > 0
            &&& known && ev.target != atoms.targets ==> content_target(owned, atoms, ev.target)
            &&& content_target(owned, atoms, ev.target) ==> known
        }),
{
}

/// When a property has been read, the next piece of the first transfer to it goes out: up to 200,000
/// bytes from where that transfer stands, under its target. It then stands behind them, or is gone
/// if the piece was empty, and every other transfer stays as it was. Where no transfer goes to the
/// property, nothing is sent and nothing changes.
pub proof fn law_next_piece_goes_out(v: Seq<IncrView>, requestor: Window, property: Atom, i: int)
    requires
        0 <= i <= v.len(),
        forall|k: int|
            0 <= k < i ==> !((#[trigger] v[k]).requestor == requestor && v[k].property == property),
        i < v.len() ==> v[i].wf() && v[i].requestor == requestor && v[i].property == property,
    ensures
        i == v.len() ==> piece_request(v, requestor, property) is None && after_piece(
            v,
            requestor,
            property,
        ) == v,
        i < v.len() ==> ({
            let t = v[i];
            let left = t.data.len() - t.offset;
            let take = if left < 200_000 {
                left
            } else {
                200_000
            };
            &&& piece_request(v, requestor, property) == Some(
                XRequestView::ReplaceBytes {
                    window: requestor,
                    property,
                    type_: t.target,
                    bytes: t.data.subrange(t.offset, t.offset + take),
                },
            )
            &&& after_piece(v, requestor, property) == (if left == 0 {
                v.remove(i)
            } else {
                v.update(i, IncrView { offset: t.offset + take, ..t })
            })
        }),
{
    lemma_transfer_position(v, requestor, property);
    let k = transfer_position(v, requestor, property);
    if k < i {
        assert(v[k].goes_to(requestor, property));
    }
    if i < k {
        assert(v[i].goes_to(requestor, property));
    }
    assert(k == i);
}

/// The pieces of a transfer add up to what was left of it. None is larger than [`INCR_CHUNK`], none
/// is smaller but the last two, and the last one, and no other, is empty.
pub proof fn law_pieces_add_up(t: IncrView)
    requires
        t.wf(),
    ensures
        pieces(t).flatten() == t.data.skip(t.offset),
        pieces(t).len() > 0,
        pieces(t).last().len() == 0,
        forall|i: int|
            0 <= i < pieces(t).len() - 1 ==> 0 < (#[trigger] pieces(t)[i]).len() <= INCR_CHUNK,
        forall|i: int|
            0 <= i < pieces(t).len() - 2 ==> (#[trigger] pieces(t)[i]).len() == INCR_CHUNK,
        INCR_CHUNK == 200_000,
    decreases t.data.len() - t.offset,
{
    let head = t.next_piece();
    if head.len() == 0 {
        let one = seq![Seq::<u8>::empty()];
        assert(one.drop_first().flatten() =~= seq![]);
        assert(one.flatten() =~= seq![]);
        assert(t.data.skip(t.offset) =~= seq![]);
    } else {
        let next = t.advanced();
        law_pieces_add_up(next);
        let all = pieces(t);
        assert(all.drop_first() == pieces(next));
        assert(all.flatten() == head + pieces(next).flatten());
        assert(t.data.skip(t.offset) =~= head + t.data.skip(next.offset));
        assert forall|i: int| 0 <= i < all.len() - 1 implies 0 < (#[trigger] all[i]).len()
            <= INCR_CHUNK by {
            if i > 0 {
                assert(all[i] == pieces(next)[i - 1]);
            }
        }
        assert(all.last() == pieces(next).last());
        assert forall|i: int| 0 <= i < all.len() - 2 implies (#[trigger] all[i]).len()
            == INCR_CHUNK by {
            if i > 0 {
                assert(all[i] == pieces(next)[i - 1]);
            } else {
                assert(pieces(next).len() > 1);
            }
        }
    }
}

/// A transfer comes to its end: as often as the receiver reads the property, the daemon sends the
/// next piece, and after the empty one the transfer is gone. Every other transfer stays as it was.
pub proof fn law_transfer_completes(v: Seq<IncrView>, requestor: Window, property: Atom)
    requires
        all_wf(v),
        transfer_position(v, requestor, property) < v.len(),
    ensures
        ({
            let i = transfer_position(v, requestor, property);
            let n = pieces(v[i]).len();
            &&& after_reads(v, requestor, property, n) == v.remove(i)
            &&& sent_in_reads(v, requestor, property, n) == pieces(v[i]).map_values(
                |piece: Seq<u8>|
                    Some(
                        XRequestView::ReplaceBytes {
                            window: requestor,
                            property,
                            type_: v[i].target,
                            bytes: piece,
                        },
                    ),
            )
        }),
    decreases
            v[transfer_position(v, requestor, property)].data.len() - v[transfer_position(
                v,
                requestor,
                property,
            )].offset,
{
    lemma_transfer_position(v, requestor, property);
    let i = transfer_position(v, requestor, property);
    let t = v[i];
    let as_request = |piece: Seq<u8>|
        Some(
            XRequestView::ReplaceBytes {
                window: requestor,
                property,
                type_: t.target,
                bytes: piece,
            },
        );
    let next = after_piece(v, requestor, property);
    assert(t.wf());
    if t.next_piece().len() == 0 {
        assert(pieces(t).len() == 1);
        assert(after_reads(next, requestor, property, 0) == next);
        assert(sent_in_reads(next, requestor, property, 0) =~= seq![]);
        assert(t.next_piece() =~= seq![]);
        assert(sent_in_reads(v, requestor, property, 1) =~= pieces(t).map_values(as_request));
    } else {
        assert(next[i] == t.advanced());
        assert(next[i].goes_to(requestor, property));
        lemma_transfer_position(next, requestor, property);
        let k = transfer_position(next, requestor, property);
        assert(k == i) by {
            if k < i {
                assert(next[k] == v[k]);
            }
        }
        assert(all_wf(next)) by {
            assert forall|j: int| 0 <= j < next.len() implies (#[trigger] next[j]).wf() by {
                if j != i {
                    assert(next[j] == v[j]);
                }
            }
        }
        law_transfer_completes(next, requestor, property);
        let n = pieces(t).len();
        assert(pieces(t) == seq![t.next_piece()] + pieces(next[i]));
        assert(next.remove(i) =~= v.remove(i));
        assert(sent_in_reads(v, requestor, property, n) =~= pieces(t).map_values(as_request));
    }
}

/// The content of what is owned, of transfers and of plans is all that they hold.
pub proof fn law_content_of_plans_is_whole(
    owned: OwnedSelection,
    t: IncrSend,
    v: Seq<IncrSend>,
    plan: RequestPlan,
)
    ensures
        owned@.mime_atom == owned.mime_atom && owned@.data == owned.data@ && owned@.is_text
            == owned.is_text,
        owned_view(Some(owned)) == Some(owned@),
        owned_view(None) is None,
        t@.requestor == t.requestor && t@.property == t.property && t@.target == t.target,
        t@.data == t.data@ && t@.offset == t.offset,
        incr_views(v).len() == v.len(),
        forall|i: int| 0 <= i < v.len() ==> #[trigger] incr_views(v)[i] == v[i]@,
        plan@.requests == request_views(plan.requests@),
        plan.transfer is None <==> plan@.transfer is None,
        plan.transfer matches Some(begun) ==> plan@.transfer == Some(begun@),
        plan@.notify == plan.notify,
{
}

}
