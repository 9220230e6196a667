//! Capturing what was copied: which of the targets that the new owner offers to fetch, and what of
//! the contents to keep.
//!
//! A [`Capture`] decides, and the caller acts: it performs the [`CaptureAction`] that it is given
//! and hands back what came of it.
use vstd::endian::endianness;
use vstd::prelude::*;

use vstd::utf8::{decode_utf8, encode_utf8, valid_utf8};

use crate::fetch::contents_view;
use crate::hash::{hash_bytes, hash_of};
use crate::index::{Entry, EntryView};
use crate::outside::{
    lossy_text, string_from_utf8, string_from_utf8_lossy, u32_from_ne_bytes, u32_of,
};
use crate::preview::{make_text_preview, text_preview};
use crate::text::{is_white_space, same_str, starts_with, to_chars, trim, trimmed};
use crate::x11::{Atom, Atoms};

verus! {

/// How long a new owner has to settle before it is asked for its targets.
pub const SETTLE_MS: u64 = 50;

/// The mime type under which text is kept.
pub const TEXT_MIME: &'static str = "text/plain";

/// The numbers that bytes hold, four bytes each, in the byte order of the machine. Bytes that are
/// left over at the end do not count.
pub open spec fn atoms_in(data: Seq<u8>) -> Seq<Atom> {
    Seq::new(data.len() / 4, |i: int| u32_of(data.subrange(4 * i, 4 * i + 4), endianness()))
}

/// The targets that the owner of a selection offers.
pub open spec fn offered_targets(fetched: Option<(Seq<u8>, Atom)>) -> Seq<Atom> {
    match fetched {
        Some((data, _)) => atoms_in(data),
        None => seq![],
    }
}

/// The targets that the owner of a selection offers, given the contents of the target `TARGETS`.
pub fn get_targets(fetched: &Option<(Vec<u8>, Atom)>) -> (r: Vec<Atom>)
    ensures
        r@ == offered_targets(contents_view(*fetched)),
{
    let mut out: Vec<Atom> = Vec::new();
    if let Some((data, _)) = fetched {
        let len: usize = data.len();
        let n: usize = len / 4;
        for i in 0..n
            invariant
                len == data@.len(),
                n == len / 4,
                out@ == atoms_in(data@).take(i as int),
        {
            let bytes: [u8; 4] = [data[4 * i], data[4 * i + 1], data[4 * i + 2], data[4 * i + 3]];
            assert(bytes@ =~= data@.subrange(4 * i, 4 * i + 4));
            out.push(u32_from_ne_bytes(bytes));
        }
        assert(out@ =~= atoms_in(data@));
    }
    assert(out@ =~= offered_targets(contents_view(*fetched)));
    out
}

/// A target that an owner offers, with its name.
#[derive(Debug, PartialEq, Eq)]
pub struct Target {
    pub atom: Atom,
    pub name: String,
}

/// The mathematical content of a [`Target`].
#[verifier::ext_equal]
pub struct TargetView {
    pub atom: Atom,
    pub name: Seq<char>,
}

impl View for Target {
    type V = TargetView;

    open spec fn view(&self) -> TargetView {
        TargetView { atom: self.atom, name: self.name@ }
    }
}

/// The contents of some targets.
pub open spec fn target_views(v: Seq<Target>) -> Seq<TargetView> {
    Seq::new(v.len(), |i: int| v[i]@)
}

/// The byte strings that a vector holds.
pub open spec fn byte_strings(v: Seq<Vec<u8>>) -> Seq<Seq<u8>> {
    Seq::new(v.len(), |i: int| v[i]@)
}

/// The targets with their names, as far as there are names. A name is read as UTF-8.
pub open spec fn named(atoms: Seq<Atom>, names: Seq<Seq<u8>>) -> Seq<TargetView> {
    let n = if atoms.len() < names.len() {
        atoms.len()
    } else {
        names.len()
    };
    Seq::new(n, |i: int| TargetView { atom: atoms[i], name: lossy_text(names[i]) })
}

/// Puts the names of the targets to them, as far as there are names.
pub fn name_targets(atoms: &Vec<Atom>, names: &Vec<Vec<u8>>) -> (r: Vec<Target>)
    ensures
        target_views(r@) == named(atoms@, byte_strings(names@)),
{
    let n: usize = if atoms.len() < names.len() {
        atoms.len()
    } else {
        names.len()
    };
    let mut out: Vec<Target> = Vec::new();
    for i in 0..n
        invariant
            n <= atoms@.len(),
            n <= names@.len(),
            n == named(atoms@, byte_strings(names@)).len(),
            target_views(out@) == named(atoms@, byte_strings(names@)).take(i as int),
    {
        let ghost before = out@;
        out.push(Target { atom: atoms[i], name: string_from_utf8_lossy(names[i].as_slice()) });
        assert(target_views(out@) =~= target_views(before).push(
            named(atoms@, byte_strings(names@))[i as int],
        ));
    }
    assert(target_views(out@) =~= named(atoms@, byte_strings(names@)));
    out
}

/// The first target of the given name.
pub open spec fn first_named(targets: Seq<TargetView>, name: Seq<char>) -> Option<TargetView>
    decreases targets.len(),
{
    if targets.len() == 0 {
        None
    } else if targets[0].name == name {
        Some(targets[0])
    } else {
        first_named(targets.skip(1), name)
    }
}

/// The first target whose name has the given beginning.
pub open spec fn first_beginning(targets: Seq<TargetView>, prefix: Seq<char>) -> Option<TargetView>
    decreases targets.len(),
{
    if targets.len() == 0 {
        None
    } else if prefix.is_prefix_of(targets[0].name) {
        Some(targets[0])
    } else {
        first_beginning(targets.skip(1), prefix)
    }
}

/// The first of two that is there.
pub open spec fn either(a: Option<TargetView>, b: Option<TargetView>) -> Option<TargetView> {
    if a is Some {
        a
    } else {
        b
    }
}

/// The text target to fetch: `UTF8_STRING` before `STRING` before `TEXT`.
pub open spec fn text_target(targets: Seq<TargetView>) -> Option<TargetView> {
    either(
        first_named(targets, "UTF8_STRING"@),
        either(first_named(targets, "STRING"@), first_named(targets, "TEXT"@)),
    )
}

/// The image target to fetch: a PNG image before the first of any other kind.
pub open spec fn image_target(targets: Seq<TargetView>) -> Option<TargetView> {
    either(first_named(targets, "image/png"@), first_beginning(targets, "image/"@))
}

/// What to fetch.
#[derive(Debug, PartialEq, Eq)]
pub enum Choice {
    Text { atom: Atom },
    Image { atom: Atom, mime: String },
    Nothing,
}

/// The mathematical content of a [`Choice`].
#[verifier::ext_equal]
pub enum ChoiceView {
    Text { atom: Atom },
    Image { atom: Atom, mime: Seq<char> },
    Nothing,
}

impl View for Choice {
    type V = ChoiceView;

    open spec fn view(&self) -> ChoiceView {
        match *self {
            Choice::Text { atom } => ChoiceView::Text { atom },
            Choice::Image { atom, mime } => ChoiceView::Image { atom, mime: mime@ },
            Choice::Nothing => ChoiceView::Nothing,
        }
    }
}

/// What to fetch of the targets that are offered: text if there is any, else an image.
pub open spec fn chosen(targets: Seq<TargetView>) -> ChoiceView {
    match text_target(targets) {
        Some(t) => ChoiceView::Text { atom: t.atom },
        None => match image_target(targets) {
            Some(t) => ChoiceView::Image { atom: t.atom, mime: t.name },
            None => ChoiceView::Nothing,
        },
    }
}

/// The position of the first target of the given name; the number of targets if there is none.
fn find_named(targets: &Vec<Target>, name: &str) -> (r: usize)
    ensures
        r <= targets@.len(),
        first_named(target_views(targets@), name@) == (if r < targets@.len() {
            Some(targets@[r as int]@)
        } else {
            None
        }),
{
    let ghost views = target_views(targets@);
    assert(views.skip(0) == views);
    for i in 0..targets.len()
        invariant
            views == target_views(targets@),
            first_named(views, name@) == first_named(views.skip(i as int), name@),
    {
        assert(views.skip(i as int)[0] == targets@[i as int]@);
        assert(views.skip(i as int).skip(1) == views.skip(i + 1));
        if same_str(targets[i].name.as_str(), name) {
            return i;
        }
    }
    targets.len()
}

/// The position of the first target whose name has the given beginning; the number of targets if
/// there is none.
fn find_beginning(targets: &Vec<Target>, prefix: &str) -> (r: usize)
    ensures
        r <= targets@.len(),
        first_beginning(target_views(targets@), prefix@) == (if r < targets@.len() {
            Some(targets@[r as int]@)
        } else {
            None
        }),
{
    let ghost views = target_views(targets@);
    assert(views.skip(0) == views);
    for i in 0..targets.len()
        invariant
            views == target_views(targets@),
            first_beginning(views, prefix@) == first_beginning(views.skip(i as int), prefix@),
    {
        assert(views.skip(i as int)[0] == targets@[i as int]@);
        assert(views.skip(i as int).skip(1) == views.skip(i + 1));
        if starts_with(to_chars(targets[i].name.as_str()).as_slice(), prefix) {
            return i;
        }
    }
    targets.len()
}

/// Chooses what to fetch of the targets that are offered.
pub fn choose_target(targets: &Vec<Target>) -> (r: Choice)
    ensures
        r@ == chosen(target_views(targets@)),
{
    let mut i = find_named(targets, "UTF8_STRING");
    if i >= targets.len() {
        i = find_named(targets, "STRING");
    }
    if i >= targets.len() {
        i = find_named(targets, "TEXT");
    }
    if i < targets.len() {
        return Choice::Text { atom: targets[i].atom };
    }
    i = find_named(targets, "image/png");
    if i >= targets.len() {
        i = find_beginning(targets, "image/");
    }
    if i < targets.len() {
        return Choice::Image { atom: targets[i].atom, mime: targets[i].name.clone() };
    }
    Choice::Nothing
}

/// A text that goes into the history.
#[derive(Debug, PartialEq, Eq)]
pub struct CapturedText {
    pub hash: String,
    pub preview: String,
    pub data: Vec<u8>,
}

/// The mathematical content of a [`CapturedText`].
#[verifier::ext_equal]
pub struct CapturedTextView {
    pub hash: Seq<char>,
    pub preview: Seq<char>,
    pub data: Seq<u8>,
}

impl View for CapturedText {
    type V = CapturedTextView;

    open spec fn view(&self) -> CapturedTextView {
        CapturedTextView { hash: self.hash@, preview: self.preview@, data: self.data@ }
    }
}

/// What goes into the history of the bytes that an owner gave as text: nothing if they are not
/// valid UTF-8 or hold nothing but white space.
pub open spec fn text_to_keep(data: Seq<u8>) -> Option<CapturedTextView> {
    if valid_utf8(data) && trimmed(decode_utf8(data)).len() > 0 {
        Some(
            CapturedTextView {
                hash: hash_of(data),
                preview: text_preview(decode_utf8(data)),
                data,
            },
        )
    } else {
        None
    }
}

/// Decides what goes into the history of the bytes that an owner gave as text.
pub fn capture_text(data: Vec<u8>) -> (r: Option<CapturedText>)
    ensures
        match text_to_keep(data@) {
            Some(t) => r matches Some(c) && c@ == t,
            None => r is None,
        },
{
    broadcast use vstd::utf8::decode_utf8_encode_utf8;

    let text = match string_from_utf8(data) {
        Some(text) => text,
        None => return None,
    };
    assert(encode_utf8(text@) == data@);
    let chars = to_chars(text.as_str());
    if trim(chars.as_slice()).len() == 0 {
        return None;
    }
    let bytes = vstd::slice::slice_to_vec(text.as_str().as_bytes());
    let kept = CapturedText {
        hash: hash_bytes(bytes.as_slice()),
        preview: make_text_preview(text.as_str()),
        data: bytes,
    };
    Some(kept)
}

/// The entry of a text that was copied: plain text, under its hash and with its preview.
pub open spec fn text_entry(t: CapturedTextView) -> EntryView {
    EntryView { hash: t.hash, mime: TEXT_MIME@, preview: t.preview }
}

/// The entry of a text that was copied, and the bytes that are stored for it.
pub fn copied_entry(text: CapturedText) -> (r: (Entry, Vec<u8>))
    ensures
        r.0@ == text_entry(text@),
        r.1@ == text@.data,
{
    let CapturedText { hash, preview, data } = text;
    (Entry { hash, mime: TEXT_MIME.to_owned(), preview }, data)
}

/// How far a capture has come.
#[derive(Debug, PartialEq, Eq)]
pub enum Capture {
    /// The targets are fetched.
    AwaitTargets,
    /// The names of the targets are asked for.
    AwaitNames { targets: Vec<Atom> },
    /// The text is fetched.
    AwaitText,
    /// The image is fetched.
    AwaitImage { mime: String },
    Done,
}

/// The mathematical content of a [`Capture`].
#[verifier::ext_equal]
pub enum CaptureView {
    AwaitTargets,
    AwaitNames { targets: Seq<Atom> },
    AwaitText,
    AwaitImage { mime: Seq<char> },
    Done,
}

impl View for Capture {
    type V = CaptureView;

    open spec fn view(&self) -> CaptureView {
        match *self {
            Capture::AwaitTargets => CaptureView::AwaitTargets,
            Capture::AwaitNames { targets } => CaptureView::AwaitNames { targets: targets@ },
            Capture::AwaitText => CaptureView::AwaitText,
            Capture::AwaitImage { mime } => CaptureView::AwaitImage { mime: mime@ },
            Capture::Done => CaptureView::Done,
        }
    }
}

impl CaptureView {
    /// Whether the capture waits for fetched contents.
    pub open spec fn fetches(self) -> bool {
        self is AwaitTargets || self is AwaitText || self is AwaitImage
    }
}

/// What the caller does next.
#[derive(Debug, PartialEq, Eq)]
pub enum CaptureAction {
    /// Fetch a target of the selection.
    Fetch { target: Atom },
    /// Ask the server for the names of some atoms.
    NameAtoms { atoms: Vec<Atom> },
    /// Put a text into the history.
    KeepText { text: CapturedText },
    /// Put an image into its slot.
    KeepImage { mime: String, data: Vec<u8> },
    /// All is done.
    Finish,
}

/// The mathematical content of a [`CaptureAction`].
#[verifier::ext_equal]
pub enum CaptureActionView {
    Fetch { target: Atom },
    NameAtoms { atoms: Seq<Atom> },
    KeepText { text: CapturedTextView },
    KeepImage { mime: Seq<char>, data: Seq<u8> },
    Finish,
}

impl View for CaptureAction {
    type V = CaptureActionView;

    open spec fn view(&self) -> CaptureActionView {
        match *self {
            CaptureAction::Fetch { target } => CaptureActionView::Fetch { target },
            CaptureAction::NameAtoms { atoms } => CaptureActionView::NameAtoms { atoms: atoms@ },
            CaptureAction::KeepText { text } => CaptureActionView::KeepText { text: text@ },
            CaptureAction::KeepImage { mime, data } => CaptureActionView::KeepImage {
                mime: mime@,
                data: data@,
            },
            CaptureAction::Finish => CaptureActionView::Finish,
        }
    }
}

/// The capture, and what to do, once contents have been fetched, or could not be.
pub open spec fn after_contents(c: CaptureView, fetched: Option<(Seq<u8>, Atom)>) -> (
    CaptureView,
    CaptureActionView,
) {
    let finished = (CaptureView::Done, CaptureActionView::Finish);
    match c {
        CaptureView::AwaitTargets => {
            let targets = offered_targets(fetched);
            if targets.len() == 0 {
                finished
            } else {
                (
                    CaptureView::AwaitNames { targets },
                    CaptureActionView::NameAtoms { atoms: targets },
                )
            }
        },
        CaptureView::AwaitText => match fetched {
            Some((data, _)) => match text_to_keep(data) {
                Some(text) => (CaptureView::Done, CaptureActionView::KeepText { text }),
                None => finished,
            },
            None => finished,
        },
        CaptureView::AwaitImage { mime } => match fetched {
            Some((data, _)) => if data.len() > 0 {
                (CaptureView::Done, CaptureActionView::KeepImage { mime, data })
            } else {
                finished
            },
            None => finished,
        },
        _ => finished,
    }
}

/// The capture, and what to do, once the targets have names.
pub open spec fn after_choice(choice: ChoiceView) -> (CaptureView, CaptureActionView) {
    match choice {
        ChoiceView::Text { atom } => (
            CaptureView::AwaitText,
            CaptureActionView::Fetch { target: atom },
        ),
        ChoiceView::Image { atom, mime } => (
            CaptureView::AwaitImage { mime },
            CaptureActionView::Fetch { target: atom },
        ),
        ChoiceView::Nothing => (CaptureView::Done, CaptureActionView::Finish),
    }
}

/// Begins to capture a selection that has a new owner: its targets come first.
pub fn capture_selection(atoms: &Atoms) -> (r: (Capture, CaptureAction))
    ensures
        r.0@ == CaptureView::AwaitTargets,
        r.1@ == (CaptureActionView::Fetch { target: atoms.targets }),
{
    (Capture::AwaitTargets, CaptureAction::Fetch { target: atoms.targets })
}

impl Capture {
    /// Whether the capture waits for fetched contents.
    pub fn is_fetching(&self) -> (r: bool)
        ensures
            r == self@.fetches(),
    {
        match self {
            Capture::AwaitTargets => true,
            Capture::AwaitText => true,
            Capture::AwaitImage { .. } => true,
            _ => false,
        }
    }

    /// Whether the capture waits for the names of the targets.
    pub fn is_naming(&self) -> (r: bool)
        ensures
            r == (self@ is AwaitNames),
    {
        match self {
            Capture::AwaitNames { .. } => true,
            _ => false,
        }
    }

    /// Decides what follows from fetched contents, or from a fetch that brought none.
    pub fn on_contents(self, fetched: Option<(Vec<u8>, Atom)>) -> (r: (Capture, CaptureAction))
        requires
            self@.fetches(),
        ensures
            (r.0@, r.1@) == after_contents(self@, contents_view(fetched)),
    {
        match self {
            Capture::AwaitTargets => {
                let targets = get_targets(&fetched);
                if targets.len() == 0 {
                    (Capture::Done, CaptureAction::Finish)
                } else {
                    let atoms = vstd::slice::slice_to_vec(targets.as_slice());
                    (Capture::AwaitNames { targets }, CaptureAction::NameAtoms { atoms })
                }
            },
            Capture::AwaitText => {
                let data = match fetched {
                    Some((data, _)) => data,
                    None => return (Capture::Done, CaptureAction::Finish),
                };
                match capture_text(data) {
                    Some(text) => (Capture::Done, CaptureAction::KeepText { text }),
                    None => (Capture::Done, CaptureAction::Finish),
                }
            },
            Capture::AwaitImage { mime } => {
                let data = match fetched {
                    Some((data, _)) => data,
                    None => return (Capture::Done, CaptureAction::Finish),
                };
                if data.len() > 0 {
                    (Capture::Done, CaptureAction::KeepImage { mime, data })
                } else {
                    (Capture::Done, CaptureAction::Finish)
                }
            },
            _ => (Capture::Done, CaptureAction::Finish),
        }
    }

    /// Decides what follows from the names of the targets, one for each in their order.
    pub fn on_names(self, names: &Vec<Vec<u8>>) -> (r: (Capture, CaptureAction))
        requires
            self@ is AwaitNames,
        ensures
            self@ matches CaptureView::AwaitNames { targets } && (r.0@, r.1@) == after_choice(
                chosen(named(targets, byte_strings(names@))),
            ),
    {
        let targets = match self {
            Capture::AwaitNames { targets } => targets,
            _ => Vec::new(),
        };
        let choice = choose_target(&name_targets(&targets, names));
        match choice {
            Choice::Text { atom } => (Capture::AwaitText, CaptureAction::Fetch { target: atom }),
            Choice::Image { atom, mime } => (
                Capture::AwaitImage { mime },
                CaptureAction::Fetch { target: atom },
            ),
            Choice::Nothing => (Capture::Done, CaptureAction::Finish),
        }
    }
}

// ---------------------------------------------------------------------------------------------
// Laws
// ---------------------------------------------------------------------------------------------

/// Whether some target has the given name.
pub open spec fn offers(targets: Seq<TargetView>, name: Seq<char>) -> bool {
    exists|i: int| 0 <= i < targets.len() && (#[trigger] targets[i]).name == name
}

/// Whether text is offered under any of the names for it.
pub open spec fn offers_text(targets: Seq<TargetView>) -> bool {
    offers(targets, "UTF8_STRING"@) || offers(targets, "STRING"@) || offers(targets, "TEXT"@)
}

/// Whether an image of any kind is offered.
pub open spec fn offers_image(targets: Seq<TargetView>) -> bool {
    exists|i: int| 0 <= i < targets.len() && "image/"@.is_prefix_of((#[trigger] targets[i]).name)
}

/// The first target of a name is one of the targets, and there is one if the name is offered.
proof fn lemma_first_named(targets: Seq<TargetView>, name: Seq<char>)
    ensures
        first_named(targets, name) is Some <==> offers(targets, name),
        first_named(targets, name) matches Some(t) ==> targets.contains(t) && t.name == name,
    decreases targets.len(),
{
    if targets.len() > 0 {
        let rest = targets.skip(1);
        lemma_first_named(rest, name);
        if targets[0].name == name {
            assert(targets.contains(targets[0]));
        } else {
            if offers(targets, name) {
                let i = choose|i: int|
                    0 <= i < targets.len() && (#[trigger] targets[i]).name == name;
                assert(rest[i - 1].name == name);
            }
            if let Some(t) = first_named(rest, name) {
                let i = choose|i: int| 0 <= i < rest.len() && rest[i] == t;
                assert(targets[i + 1] == t);
                assert(targets[i + 1].name == name);
            }
        }
    }
}

/// The first target of a beginning is one of the targets, and there is one if any has it.
proof fn lemma_first_beginning(targets: Seq<TargetView>, prefix: Seq<char>)
    ensures
        first_beginning(targets, prefix) is Some <==> exists|i: int|
            0 <= i < targets.len() && prefix.is_prefix_of((#[trigger] targets[i]).name),
        first_beginning(targets, prefix) matches Some(t) ==> targets.contains(t)
            && prefix.is_prefix_of(t.name),
    decreases targets.len(),
{
    if targets.len() > 0 {
        let rest = targets.skip(1);
        lemma_first_beginning(rest, prefix);
        if prefix.is_prefix_of(targets[0].name) {
            assert(targets.contains(targets[0]));
        } else {
            if exists|i: int|
                0 <= i < targets.len() && prefix.is_prefix_of((#[trigger] targets[i]).name) {
                let i = choose|i: int|
                    0 <= i < targets.len() && prefix.is_prefix_of((#[trigger] targets[i]).name);
                assert(prefix.is_prefix_of(rest[i - 1].name));
            }
            if let Some(t) = first_beginning(rest, prefix) {
                let i = choose|i: int| 0 <= i < rest.len() && rest[i] == t;
                assert(targets[i + 1] == t);
                assert(prefix.is_prefix_of(targets[i + 1].name));
            }
        }
    }
}

/// Text is fetched if any is offered, and an image only where no text is; nothing is fetched only
/// where neither is offered. What is fetched as an image is offered, and is PNG if PNG is offered.
pub proof fn law_text_goes_before_images(targets: Seq<TargetView>)
    ensures
        chosen(targets) is Text <==> offers_text(targets),
        chosen(targets) is Image <==> !offers_text(targets) && offers_image(targets),
        chosen(targets) matches ChoiceView::Image { atom, mime } ==> targets.contains(
            TargetView { atom, name: mime },
        ) && (offers(targets, "image/png"@) ==> mime == "image/png"@),
{
    lemma_first_named(targets, "UTF8_STRING"@);
    lemma_first_named(targets, "STRING"@);
    lemma_first_named(targets, "TEXT"@);
    lemma_first_named(targets, "image/png"@);
    lemma_first_beginning(targets, "image/"@);
    reveal_strlit("image/");
    reveal_strlit("image/png");
    assert("image/"@.is_prefix_of("image/png"@));
    if offers(targets, "image/png"@) {
        let i = choose|i: int|
            0 <= i < targets.len() && (#[trigger] targets[i]).name == "image/png"@;
        assert("image/"@.is_prefix_of(targets[i].name));
    }
    if let Some(t) = image_target(targets) {
        assert(t =~= TargetView { atom: t.atom, name: t.name });
    }
}

/// Every text is kept, however long it is: if the bytes are valid UTF-8 and hold any character that
/// is not white space, they go into the history, all of them and untrimmed, under their hash and
/// with their preview. Nothing else is kept as text, and either way the capture is done.
pub proof fn law_every_text_is_kept(data: Seq<u8>, type_: Atom)
    ensures
        ({
            let worth_it = valid_utf8(data) && exists|i: int|
                0 <= i < decode_utf8(data).len() && !is_white_space(
                    #[trigger] decode_utf8(data)[i],
                );
            let now = after_contents(CaptureView::AwaitText, Some((data, type_)));
            &&& text_to_keep(data) is Some <==> worth_it
            &&& worth_it ==> now == (
                CaptureView::Done,
                CaptureActionView::KeepText {
                    text: CapturedTextView {
                        hash: hash_of(data),
                        preview: text_preview(decode_utf8(data)),
                        data,
                    },
                },
            )
            &&& !worth_it ==> now == (CaptureView::Done, CaptureActionView::Finish)
        }),
        after_contents(CaptureView::AwaitText, None) == (
            CaptureView::Done,
            CaptureActionView::Finish,
        ),
{
    let text = decode_utf8(data);
    crate::text::law_trimming_takes_the_ends(text);
    if exists|i: int| 0 <= i < text.len() && !is_white_space(#[trigger] text[i]) {
        assert(trimmed(text).len() > 0);
    }
}

/// Every image is kept that holds anything, all its bytes, under the name of the target that it was
/// fetched by. Where nothing came, nothing is kept.
pub proof fn law_every_image_is_kept(mime: Seq<char>, data: Seq<u8>, type_: Atom)
    ensures
        data.len() > 0 ==> after_contents(CaptureView::AwaitImage { mime }, Some((data, type_))) == (
            CaptureView::Done,
            CaptureActionView::KeepImage { mime, data },
        ),
        data.len() == 0 ==> after_contents(CaptureView::AwaitImage { mime }, Some((data, type_)))
            == (CaptureView::Done, CaptureActionView::Finish),
        after_contents(CaptureView::AwaitImage { mime }, None) == (
            CaptureView::Done,
            CaptureActionView::Finish,
        ),
{
}

/// The list of targets is read four bytes by four, in the byte order of the machine, to its end;
/// less than four bytes hold none.
pub proof fn law_targets_are_read_four_bytes_by_four(head: Seq<u8>, rest: Seq<u8>)
    requires
        head.len() == 4,
    ensures
        atoms_in(head + rest).len() == 1 + atoms_in(rest).len(),
        atoms_in(head + rest)[0] == (if endianness() is Little {
            head[0] + 0x100 * head[1] + 0x1_0000 * head[2] + 0x100_0000 * head[3]
        } else {
            head[3] + 0x100 * head[2] + 0x1_0000 * head[1] + 0x100_0000 * head[0]
        }),
        atoms_in(head + rest).skip(1) == atoms_in(rest),
        rest.len() < 4 ==> atoms_in(rest).len() == 0,
{
    let all = head + rest;
    assert(all.subrange(0, 4) =~= head);
    assert forall|i: int| 0 <= i < atoms_in(rest).len() implies atoms_in(all)[i + 1] == atoms_in(
        rest,
    )[i] by {
        assert(all.subrange(4 * (i + 1), 4 * (i + 1) + 4) =~= rest.subrange(4 * i, 4 * i + 4));
    }
    assert(atoms_in(all).skip(1) =~= atoms_in(rest));
}

/// The names are asked for of all the targets that are offered, in their order, and nothing is done
/// where none is offered, or the owner does not tell.
pub proof fn law_all_offered_targets_are_named(data: Seq<u8>, type_: Atom)
    ensures
        data.len() >= 4 ==> after_contents(CaptureView::AwaitTargets, Some((data, type_))) == (
            CaptureView::AwaitNames { targets: atoms_in(data) },
            CaptureActionView::NameAtoms { atoms: atoms_in(data) },
        ),
        data.len() < 4 ==> after_contents(CaptureView::AwaitTargets, Some((data, type_))) == (
            CaptureView::Done,
            CaptureActionView::Finish,
        ),
        after_contents(CaptureView::AwaitTargets, None) == (
            CaptureView::Done,
            CaptureActionView::Finish,
        ),
        SETTLE_MS == 50,
{
}

/// Each target has the name that was told for it, in the order of the targets, and none has that of
/// another.
pub proof fn law_names_go_with_their_targets(
    atom: Atom,
    name: Seq<u8>,
    atoms: Seq<Atom>,
    names: Seq<Seq<u8>>,
)
    ensures
        named(seq![atom] + atoms, seq![name] + names) == seq![
            TargetView { atom, name: lossy_text(name) },
        ] + named(atoms, names),
        named(seq![], names) == Seq::<TargetView>::empty(),
        named(atoms, seq![]) == Seq::<TargetView>::empty(),
{
    assert(named(seq![atom] + atoms, seq![name] + names) =~= seq![
        TargetView { atom, name: lossy_text(name) },
    ] + named(atoms, names));
    assert(named(seq![], names) =~= seq![]);
    assert(named(atoms, seq![]) =~= seq![]);
}

/// The first target of a name is what `first_named` finds, if it stands where no other of the name
/// stands before it.
proof fn lemma_first_named_is(targets: Seq<TargetView>, name: Seq<char>, i: int)
    requires
        0 <= i < targets.len(),
        targets[i].name == name,
        forall|k: int| 0 <= k < i ==> (#[trigger] targets[k]).name != name,
    ensures
        first_named(targets, name) == Some(targets[i]),
    decreases targets.len(),
{
    if i > 0 {
        let rest = targets.skip(1);
        assert(targets[0].name != name);
        assert forall|k: int| 0 <= k < i - 1 implies (#[trigger] rest[k]).name != name by {
            assert(rest[k] == targets[k + 1]);
        }
        lemma_first_named_is(rest, name, i - 1);
    }
}

/// The first target of a beginning is what `first_beginning` finds, if it stands where no other of
/// the beginning stands before it.
proof fn lemma_first_beginning_is(targets: Seq<TargetView>, prefix: Seq<char>, i: int)
    requires
        0 <= i < targets.len(),
        prefix.is_prefix_of(targets[i].name),
        forall|k: int| 0 <= k < i ==> !prefix.is_prefix_of((#[trigger] targets[k]).name),
    ensures
        first_beginning(targets, prefix) == Some(targets[i]),
    decreases targets.len(),
{
    if i > 0 {
        let rest = targets.skip(1);
        assert(!prefix.is_prefix_of(targets[0].name));
        assert forall|k: int| 0 <= k < i - 1 implies !prefix.is_prefix_of(
            (#[trigger] rest[k]).name,
        ) by {
            assert(rest[k] == targets[k + 1]);
        }
        lemma_first_beginning_is(rest, prefix, i - 1);
    }
}

/// Text is fetched by the best of its names that is offered: `UTF8_STRING`, where any target has it,
/// else `STRING`, else `TEXT`; of several of one name, by the first. It does not matter what else is
/// offered, and where.
pub proof fn law_best_text_target_is_fetched(targets: Seq<TargetView>, i: int)
    requires
        0 <= i < targets.len(),
        forall|k: int| 0 <= k < i ==> (#[trigger] targets[k]).name != targets[i].name,
        targets[i].name == "UTF8_STRING"@ || (targets[i].name == "STRING"@ && !offers(
            targets,
            "UTF8_STRING"@,
        )) || (targets[i].name == "TEXT"@ && !offers(targets, "UTF8_STRING"@) && !offers(
            targets,
            "STRING"@,
        )),
    ensures
        chosen(targets) == (ChoiceView::Text { atom: targets[i].atom }),
        after_choice(chosen(targets)) == (
            CaptureView::AwaitText,
            CaptureActionView::Fetch { target: targets[i].atom },
        ),
{
    lemma_first_named(targets, "UTF8_STRING"@);
    lemma_first_named(targets, "STRING"@);
    lemma_first_named_is(targets, targets[i].name, i);
}

/// Where no text is offered, a PNG image is fetched if there is one, else the first image of any
/// kind, under its own name. Where no image is offered either, nothing is.
pub proof fn law_best_image_target_is_fetched(targets: Seq<TargetView>, i: int)
    requires
        !offers(targets, "UTF8_STRING"@),
        !offers(targets, "STRING"@),
        !offers(targets, "TEXT"@),
    ensures
        0 <= i < targets.len() && (if offers(targets, "image/png"@) {
            targets[i].name == "image/png"@ && forall|k: int|
                0 <= k < i ==> (#[trigger] targets[k]).name != "image/png"@
        } else {
            "image/"@.is_prefix_of(targets[i].name) && forall|k: int|
                0 <= k < i ==> !"image/"@.is_prefix_of((#[trigger] targets[k]).name)
        }) ==> after_choice(chosen(targets)) == (
            CaptureView::AwaitImage { mime: targets[i].name },
            CaptureActionView::Fetch { target: targets[i].atom },
        ),
        !offers_image(targets) ==> after_choice(chosen(targets)) == (
            CaptureView::Done,
            CaptureActionView::Finish,
        ),
{
    lemma_first_named(targets, "UTF8_STRING"@);
    lemma_first_named(targets, "STRING"@);
    lemma_first_named(targets, "TEXT"@);
    lemma_first_named(targets, "image/png"@);
    law_text_goes_before_images(targets);
    if 0 <= i < targets.len() {
        if offers(targets, "image/png"@) {
            if targets[i].name == "image/png"@ && forall|k: int|
                0 <= k < i ==> (#[trigger] targets[k]).name != "image/png"@ {
                lemma_first_named_is(targets, "image/png"@, i);
            }
        } else if "image/"@.is_prefix_of(targets[i].name) && forall|k: int|
            0 <= k < i ==> !"image/"@.is_prefix_of((#[trigger] targets[k]).name) {
            lemma_first_beginning_is(targets, "image/"@, i);
        }
    }
}

/// Whoever does as a capture says comes to its end: it is told to fetch where contents are awaited,
/// to ask for names where names are, and nothing more where the capture is done. A capture that
/// waits for contents says so.
pub proof fn law_capture_actions_lead_on(
    c: CaptureView,
    fetched: Option<(Seq<u8>, Atom)>,
    choice: ChoiceView,
)
    ensures
        c.fetches() <==> c is AwaitTargets || c is AwaitText || c is AwaitImage,
        ({
            let (next, action) = if c is AwaitNames {
                after_choice(choice)
            } else {
                after_contents(c, fetched)
            };
            &&& action is Fetch <==> next is AwaitText || next is AwaitImage
            &&& action is NameAtoms <==> next is AwaitNames
            &&& action is KeepText || action is KeepImage || action is Finish <==> next is Done
        }),
{
}

/// The content of targets, of choices and of captured texts is all that they hold.
pub proof fn law_content_of_targets_is_whole(
    target: Target,
    v: Seq<Target>,
    w: Seq<Vec<u8>>,
    choice: Choice,
    text: CapturedText,
)
    ensures
        target@.atom == target.atom && target@.name == target.name@,
        target_views(v).len() == v.len(),
        forall|i: int| 0 <= i < v.len() ==> #[trigger] target_views(v)[i] == v[i]@,
        byte_strings(w).len() == w.len(),
        forall|i: int| 0 <= i < w.len() ==> #[trigger] byte_strings(w)[i] == w[i]@,
        choice matches Choice::Text { atom } ==> choice@ == (ChoiceView::Text { atom }),
        choice matches Choice::Image { atom, mime } ==> choice@ == (ChoiceView::Image {
            atom,
            mime: mime@,
        }),
        choice is Nothing <==> choice@ is Nothing,
        text@.hash == text.hash@ && text@.preview == text.preview@ && text@.data == text.data@,
{
}

/// The content of a capture and of what it says is all that they hold.
pub proof fn law_content_of_a_capture_is_whole(c: Capture, action: CaptureAction)
    ensures
        c is AwaitTargets <==> c@ is AwaitTargets,
        c is AwaitText <==> c@ is AwaitText,
        c is Done <==> c@ is Done,
        c matches Capture::AwaitNames { targets } ==> c@ == (CaptureView::AwaitNames {
            targets: targets@,
        }),
        c matches Capture::AwaitImage { mime } ==> c@ == (CaptureView::AwaitImage { mime: mime@ }),
        action matches CaptureAction::Fetch { target } ==> action@ == (CaptureActionView::Fetch {
            target,
        }),
        action matches CaptureAction::NameAtoms { atoms } ==> action@ == (
        CaptureActionView::NameAtoms { atoms: atoms@ }),
        action matches CaptureAction::KeepText { text } ==> action@ == (
        CaptureActionView::KeepText { text: text@ }),
        action matches CaptureAction::KeepImage { mime, data } ==> action@ == (
        CaptureActionView::KeepImage { mime: mime@, data: data@ }),
        action is Finish <==> action@ is Finish,
{
}

}
