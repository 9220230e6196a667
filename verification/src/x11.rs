//! The part of the X11 protocol that the daemon's decisions speak of, as plain values.
use vstd::prelude::*;

verus! {

/// An X11 atom: the number that stands for a name on one server.
pub type Atom = u32;

/// The number of an X11 window.
pub type Window = u32;

/// The atoms that the daemon works with.
#[derive(Clone, Copy, Debug)]
pub struct Atoms {
    pub clipboard: Atom,
    pub primary: Atom,
    pub targets: Atom,
    pub incr: Atom,
    pub utf8_string: Atom,
    pub string: Atom,
    pub text: Atom,
    pub transfer_prop: Atom,
}

/// Another client asks for the contents of a selection.
#[derive(Clone, Copy, Debug, PartialEq, Eq, Structural)]
pub struct SelectionRequest {
    pub time: u32,
    pub requestor: Window,
    pub selection: Atom,
    pub target: Atom,
    pub property: Atom,
}

/// The answer to a request for a selection. A `property` of 0 refuses it.
#[derive(Clone, Copy, Debug, PartialEq, Eq, Structural)]
pub struct SelectionNotify {
    pub time: u32,
    pub requestor: Window,
    pub selection: Atom,
    pub target: Atom,
    pub property: Atom,
}

/// What happened to a property.
#[derive(Clone, Copy, Debug, PartialEq, Eq, Structural)]
pub enum PropertyState {
    NewValue,
    Deleted,
    Other,
}

/// An event that the X server sent.
#[derive(Clone, Copy, Debug, PartialEq, Eq, Structural)]
pub enum XEvent {
    /// A selection has a new owner; `owner` is 0 where it has none.
    OwnerChanged { owner: Window, selection: Atom },
    SelectionRequest(SelectionRequest),
    SelectionClear { selection: Atom },
    SelectionNotify(SelectionNotify),
    PropertyNotify { window: Window, atom: Atom, state: PropertyState },
    Other,
}

/// A property as the server handed it out.
pub struct PropertyReply {
    pub type_: Atom,
    pub value: Vec<u8>,
    pub bytes_after: u32,
}

/// The mathematical content of a [`PropertyReply`].
#[verifier::ext_equal]
pub struct PropertyReplyView {
    pub type_: Atom,
    pub value: Seq<u8>,
    pub bytes_after: u32,
}

impl View for PropertyReply {
    type V = PropertyReplyView;

    open spec fn view(&self) -> PropertyReplyView {
        PropertyReplyView {
            type_: self.type_,
            value: self.value@,
            bytes_after: self.bytes_after,
        }
    }
}

/// A change that the daemon makes on another client's window.
#[derive(Debug, PartialEq, Eq)]
pub enum XRequest {
    /// Ask to be told of property changes on the window.
    WatchProperties { window: Window },
    /// Replace a property by a list of atoms, of type `ATOM`.
    ReplaceAtoms { window: Window, property: Atom, atoms: Vec<Atom> },
    /// Replace a property by one 32-bit number.
    ReplaceNumber { window: Window, property: Atom, type_: Atom, number: u32 },
    /// Replace a property by bytes.
    ReplaceBytes { window: Window, property: Atom, type_: Atom, bytes: Vec<u8> },
}

/// The mathematical content of an [`XRequest`].
#[verifier::ext_equal]
pub enum XRequestView {
    WatchProperties { window: Window },
    ReplaceAtoms { window: Window, property: Atom, atoms: Seq<Atom> },
    ReplaceNumber { window: Window, property: Atom, type_: Atom, number: u32 },
    ReplaceBytes { window: Window, property: Atom, type_: Atom, bytes: Seq<u8> },
}

impl View for XRequest {
    type V = XRequestView;

    open spec fn view(&self) -> XRequestView {
        match *self {
            XRequest::WatchProperties { window } => XRequestView::WatchProperties { window },
            XRequest::ReplaceAtoms { window, property, atoms } => XRequestView::ReplaceAtoms {
                window,
                property,
                atoms: atoms@,
            },
            XRequest::ReplaceNumber { window, property, type_, number } => {
                XRequestView::ReplaceNumber { window, property, type_, number }
            },
            XRequest::ReplaceBytes { window, property, type_, bytes } => {
                XRequestView::ReplaceBytes { window, property, type_, bytes: bytes@ }
            },
        }
    }
}

/// The contents of a sequence of requests.
pub open spec fn request_views(v: Seq<XRequest>) -> Seq<XRequestView> {
    Seq::new(v.len(), |i: int| v[i]@)
}

/// The content of a property and of a request is all that they hold, and that of several requests
/// is theirs, in their order.
pub proof fn law_content_of_requests_is_whole(
    reply: PropertyReply,
    request: XRequest,
    v: Seq<XRequest>,
)
    ensures
        reply@.type_ == reply.type_ && reply@.value == reply.value@ && reply@.bytes_after
            == reply.bytes_after,
        request matches XRequest::WatchProperties { window } ==> request@ == (
        XRequestView::WatchProperties { window }),
        request matches XRequest::ReplaceAtoms { window, property, atoms } ==> request@ == (
        XRequestView::ReplaceAtoms { window, property, atoms: atoms@ }),
        request matches XRequest::ReplaceNumber { window, property, type_, number } ==> request@
            == (XRequestView::ReplaceNumber { window, property, type_, number }),
        request matches XRequest::ReplaceBytes { window, property, type_, bytes } ==> request@ == (
        XRequestView::ReplaceBytes { window, property, type_, bytes: bytes@ }),
        request_views(v).len() == v.len(),
        forall|i: int| 0 <= i < v.len() ==> #[trigger] request_views(v)[i] == v[i]@,
{
}

}
