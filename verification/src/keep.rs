//! Putting an entry into the history, step by step: the directories, the entry's file, the index.
//!
//! An [`Upsert`] decides, and the caller acts: it performs the [`UpsertAction`] that it is given and
//! hands back what came of it. An operation that fails ends it all.
use vstd::prelude::*;

use crate::capture::{copied_entry, text_entry, CapturedText};
use crate::index::{parsed_index, text_view, Entry, EntryView};
use crate::model::{after_ops, after_upsert, text_at, Files};
use crate::paths::{entry_path, index_path, Environment, EnvironmentView};
use crate::store::{
    ensure_dirs, ensure_dirs_ops, op_views, store_entry, store_entry_ops, upsert_entry, upsert_ops,
    FileOp, FileOpView,
};

verus! {

/// How far an upsert has come.
#[derive(Clone, Copy, Debug, PartialEq, Eq, Structural)]
pub enum UpsertState {
    /// The directories are made.
    AwaitDirs,
    /// The file of the entry is looked for.
    AwaitLook,
    /// The bytes of the entry are stored.
    AwaitStored,
    /// The index is read.
    AwaitIndex,
    /// The index is changed.
    AwaitChanged,
    Done,
}

/// One upsert.
#[derive(Debug)]
pub struct Upsert {
    pub entry: Entry,
    pub data: Vec<u8>,
    pub max_items: usize,
    pub state: UpsertState,
}

/// The mathematical content of an [`Upsert`].
#[verifier::ext_equal]
pub struct UpsertView {
    pub entry: EntryView,
    pub data: Seq<u8>,
    pub max: nat,
    pub state: UpsertState,
}

impl View for Upsert {
    type V = UpsertView;

    open spec fn view(&self) -> UpsertView {
        UpsertView {
            entry: self.entry@,
            data: self.data@,
            max: self.max_items as nat,
            state: self.state,
        }
    }
}

impl UpsertView {
    /// Whether the upsert waits for operations to be performed.
    pub open spec fn performs(self) -> bool {
        self.state is AwaitDirs || self.state is AwaitStored || self.state is AwaitChanged
    }

    /// The upsert in another state.
    pub open spec fn with(self, state: UpsertState) -> UpsertView {
        UpsertView { state, ..self }
    }
}

/// What the caller does next.
#[derive(Debug, PartialEq, Eq)]
pub enum UpsertAction {
    /// Perform operations, in their order, up to the first that fails.
    Perform { ops: Vec<FileOp> },
    /// Look whether there is a file.
    LookFor { path: Vec<u8> },
    /// Read the text of a file, as far as it can be read.
    ReadText { path: Vec<u8> },
    /// All is done.
    Finish,
}

/// The mathematical content of an [`UpsertAction`].
#[verifier::ext_equal]
pub enum UpsertActionView {
    Perform { ops: Seq<FileOpView> },
    LookFor { path: Seq<u8> },
    ReadText { path: Seq<u8> },
    Finish,
}

impl View for UpsertAction {
    type V = UpsertActionView;

    open spec fn view(&self) -> UpsertActionView {
        match *self {
            UpsertAction::Perform { ops } => UpsertActionView::Perform { ops: op_views(ops@) },
            UpsertAction::LookFor { path } => UpsertActionView::LookFor { path: path@ },
            UpsertAction::ReadText { path } => UpsertActionView::ReadText { path: path@ },
            UpsertAction::Finish => UpsertActionView::Finish,
        }
    }
}

/// An upsert at its beginning, and what to do: the directories come first.
pub open spec fn upsert_begun(
    env: EnvironmentView,
    entry: EntryView,
    data: Seq<u8>,
    max: nat,
) -> (UpsertView, UpsertActionView) {
    (
        UpsertView { entry, data, max, state: UpsertState::AwaitDirs },
        UpsertActionView::Perform { ops: ensure_dirs_ops(env) },
    )
}

/// The upsert, and what to do, once operations have been performed: behind the directories the file
/// of the entry is looked for, and the index is read only once the entry's bytes are stored.
pub open spec fn after_performed(env: EnvironmentView, u: UpsertView) -> (
    UpsertView,
    UpsertActionView,
) {
    match u.state {
        UpsertState::AwaitDirs => (
            u.with(UpsertState::AwaitLook),
            UpsertActionView::LookFor { path: env.entry_path(u.entry.hash) },
        ),
        UpsertState::AwaitStored => (
            u.with(UpsertState::AwaitIndex),
            UpsertActionView::ReadText { path: env.index_path() },
        ),
        _ => (u.with(UpsertState::Done), UpsertActionView::Finish),
    }
}

/// The upsert, and what to do, once it is known whether there is a file for the entry.
pub open spec fn after_look(env: EnvironmentView, u: UpsertView, exists: bool) -> (
    UpsertView,
    UpsertActionView,
) {
    (
        u.with(UpsertState::AwaitStored),
        UpsertActionView::Perform { ops: store_entry_ops(env, u.entry.hash, u.data, exists) },
    )
}

/// The upsert, and what to do, once the index has been read, or could not be.
pub open spec fn after_index(env: EnvironmentView, u: UpsertView, index: Option<Seq<char>>) -> (
    UpsertView,
    UpsertActionView,
) {
    (
        u.with(UpsertState::AwaitChanged),
        UpsertActionView::Perform { ops: upsert_ops(env, parsed_index(index), u.entry, u.max) },
    )
}

/// Begins to put an entry, with its bytes, into the history.
pub fn begin_upsert(env: &Environment, entry: Entry, data: Vec<u8>, max_items: usize) -> (r: (
    Upsert,
    UpsertAction,
))
    requires
        env@.has_cache_dir(),
    ensures
        (r.0@, r.1@) == upsert_begun(env@, entry@, data@, max_items as nat),
{
    (
        Upsert { entry, data, max_items, state: UpsertState::AwaitDirs },
        UpsertAction::Perform { ops: ensure_dirs(env) },
    )
}

/// Begins to put a text that was copied into the history.
pub fn keep_text(env: &Environment, text: CapturedText, max_items: usize) -> (r: (
    Upsert,
    UpsertAction,
))
    requires
        env@.has_cache_dir(),
    ensures
        (r.0@, r.1@) == upsert_begun(env@, text_entry(text@), text@.data, max_items as nat),
{
    let (entry, data) = copied_entry(text);
    begin_upsert(env, entry, data, max_items)
}

impl Upsert {
    /// Whether the upsert waits for operations to be performed.
    pub fn is_performing(&self) -> (r: bool)
        ensures
            r == self@.performs(),
    {
        match self.state {
            UpsertState::AwaitDirs => true,
            UpsertState::AwaitStored => true,
            UpsertState::AwaitChanged => true,
            _ => false,
        }
    }

    /// Whether the upsert waits to know whether there is a file for the entry.
    pub fn is_looking(&self) -> (r: bool)
        ensures
            r == (self@.state is AwaitLook),
    {
        match self.state {
            UpsertState::AwaitLook => true,
            _ => false,
        }
    }

    /// Whether the upsert waits for the text of the index.
    pub fn is_reading(&self) -> (r: bool)
        ensures
            r == (self@.state is AwaitIndex),
    {
        match self.state {
            UpsertState::AwaitIndex => true,
            _ => false,
        }
    }

    /// Decides what follows from operations that were performed.
    pub fn on_performed(self, env: &Environment) -> (r: (Upsert, UpsertAction))
        requires
            env@.has_cache_dir(),
            self@.performs(),
        ensures
            (r.0@, r.1@) == after_performed(env@, self@),
    {
        let Upsert { entry, data, max_items, state } = self;
        let (state, action) = match state {
            UpsertState::AwaitDirs => (
                UpsertState::AwaitLook,
                UpsertAction::LookFor { path: entry_path(env, entry.hash.as_str()) },
            ),
            UpsertState::AwaitStored => (
                UpsertState::AwaitIndex,
                UpsertAction::ReadText { path: index_path(env) },
            ),
            _ => (UpsertState::Done, UpsertAction::Finish),
        };
        (Upsert { entry, data, max_items, state }, action)
    }

    /// Decides what follows from a look for the file of the entry.
    pub fn on_look(self, env: &Environment, exists: bool) -> (r: (Upsert, UpsertAction))
        requires
            env@.has_cache_dir(),
            self@.state is AwaitLook,
        ensures
            (r.0@, r.1@) == after_look(env@, self@, exists),
    {
        let Upsert { entry, data, max_items, state: _ } = self;
        let ops = store_entry(env, entry.hash.as_str(), data.as_slice(), exists);
        (
            Upsert { entry, data, max_items, state: UpsertState::AwaitStored },
            UpsertAction::Perform { ops },
        )
    }

    /// Decides what follows from the text of the index, or from an index that could not be read.
    pub fn on_index(self, env: &Environment, index: Option<&str>) -> (r: (Upsert, UpsertAction))
        requires
            env@.has_cache_dir(),
            self@.state is AwaitIndex,
        ensures
            (r.0@, r.1@) == after_index(env@, self@, text_view(index)),
    {
        let Upsert { entry, data, max_items, state: _ } = self;
        let ops = upsert_entry(
            env,
            entry.hash.as_str(),
            entry.mime.as_str(),
            entry.preview.as_str(),
            max_items,
            index,
        );
        assert(entry@ =~= EntryView {
            hash: entry.hash@,
            mime: entry.mime@,
            preview: entry.preview@,
        });
        (
            Upsert { entry, data, max_items, state: UpsertState::AwaitChanged },
            UpsertAction::Perform { ops },
        )
    }
}

// ---------------------------------------------------------------------------------------------
// Laws
// ---------------------------------------------------------------------------------------------

/// The files after a caller has done as it was told for `steps` steps, from the given action on,
/// and the action that is then next.
pub open spec fn after_steps(
    files: Files,
    env: EnvironmentView,
    u: UpsertView,
    action: UpsertActionView,
    steps: nat,
) -> (Files, UpsertActionView)
    decreases steps,
{
    if steps == 0 {
        (files, action)
    } else {
        match action {
            UpsertActionView::Perform { ops } => {
                let (next, then_do) = after_performed(env, u);
                after_steps(after_ops(files, ops), env, next, then_do, (steps - 1) as nat)
            },
            UpsertActionView::LookFor { path } => {
                let (next, then_do) = after_look(env, u, files.contains_key(path));
                after_steps(files, env, next, then_do, (steps - 1) as nat)
            },
            UpsertActionView::ReadText { path } => {
                let (next, then_do) = after_index(env, u, text_at(files, path));
                after_steps(files, env, next, then_do, (steps - 1) as nat)
            },
            UpsertActionView::Finish => (files, action),
        }
    }
}

/// Whoever does as an upsert says comes to its end in five steps, and the files are then those of
/// the upsert.
pub proof fn law_steps_make_the_upsert(
    files: Files,
    env: EnvironmentView,
    entry: EntryView,
    data: Seq<u8>,
    max: nat,
)
    ensures
        ({
            let (u, action) = upsert_begun(env, entry, data, max);
            after_steps(files, env, u, action, 5) == (
                after_upsert(files, env, entry, data, max),
                UpsertActionView::Finish,
            )
        }),
{
    reveal_with_fuel(after_steps, 6);
}

/// Whoever does as an upsert says is told to do what is awaited: to perform, to look or to read, and
/// to finish where the upsert is done. An upsert that waits for operations says so, and none ever
/// changes what it puts into the history.
pub proof fn law_upsert_actions_lead_on(
    env: EnvironmentView,
    u: UpsertView,
    exists: bool,
    index: Option<Seq<char>>,
)
    ensures
        u.performs() <==> u.state is AwaitDirs || u.state is AwaitStored || u.state is AwaitChanged,
        ({
            let (next, action) = match u.state {
                UpsertState::AwaitLook => after_look(env, u, exists),
                UpsertState::AwaitIndex => after_index(env, u, index),
                _ => after_performed(env, u),
            };
            &&& action is Perform <==> next.state is AwaitStored || next.state is AwaitChanged
            &&& action is LookFor <==> next.state is AwaitLook
            &&& action is ReadText <==> next.state is AwaitIndex
            &&& action is Finish <==> next.state is Done
            &&& next.entry == u.entry && next.data == u.data && next.max == u.max
        }),
{
}

/// The content of an upsert and of what it says is all that they hold.
pub proof fn law_content_of_an_upsert_is_whole(u: Upsert, action: UpsertAction)
    ensures
        u@.entry == u.entry@ && u@.data == u.data@ && u@.max == u.max_items && u@.state == u.state,
        action matches UpsertAction::Perform { ops } ==> action@ == (UpsertActionView::Perform {
            ops: op_views(ops@),
        }),
        action matches UpsertAction::LookFor { path } ==> action@ == (UpsertActionView::LookFor {
            path: path@,
        }),
        action matches UpsertAction::ReadText { path } ==> action@ == (UpsertActionView::ReadText {
            path: path@,
        }),
        action is Finish <==> action@ is Finish,
{
}

}
