//! What is done to the files of the cache.
//!
//! The functions here decide; the caller performs the [`FileOp`]s that it is given, in their order,
//! and stops at the first that fails. A removal that fails counts as done.
use vstd::prelude::*;
use vstd::slice::slice_to_vec;
use vstd::utf8::encode_utf8;

use crate::index::{
    dropped, entry_views, index_text, index_text_of, kept, parsed_index, read_index, text_view,
    upsert, with_entry, Entry, EntryView,
};
use crate::paths::{
    entries_dir, entry_path, index_path, last_image_data_path, last_image_meta_path, new_index_path,
    Environment, EnvironmentView,
};
use crate::text::strings;

verus! {

/// One thing to do to the files.
#[derive(Debug, PartialEq, Eq)]
pub enum FileOp {
    /// Create a directory, and those above it, as far as they are missing.
    CreateDirAll { path: Vec<u8> },
    /// Give a file the given contents, and create it if it is missing.
    Write { path: Vec<u8>, data: Vec<u8> },
    /// Remove a file. It does not matter if that fails.
    Remove { path: Vec<u8> },
    /// Give a file another name, in the place of whatever had that name.
    Rename { from: Vec<u8>, to: Vec<u8> },
}

/// The mathematical content of a [`FileOp`].
#[verifier::ext_equal]
pub enum FileOpView {
    CreateDirAll { path: Seq<u8> },
    Write { path: Seq<u8>, data: Seq<u8> },
    Remove { path: Seq<u8> },
    Rename { from: Seq<u8>, to: Seq<u8> },
}

impl View for FileOp {
    type V = FileOpView;

    open spec fn view(&self) -> FileOpView {
        match *self {
            FileOp::CreateDirAll { path } => FileOpView::CreateDirAll { path: path@ },
            FileOp::Write { path, data } => FileOpView::Write { path: path@, data: data@ },
            FileOp::Remove { path } => FileOpView::Remove { path: path@ },
            FileOp::Rename { from, to } => FileOpView::Rename { from: from@, to: to@ },
        }
    }
}

/// The contents of some operations.
pub open spec fn op_views(v: Seq<FileOp>) -> Seq<FileOpView> {
    Seq::new(v.len(), |i: int| v[i]@)
}

/// The operations that make the directories of the cache.
pub open spec fn ensure_dirs_ops(env: EnvironmentView) -> Seq<FileOpView> {
    seq![FileOpView::CreateDirAll { path: env.entries_path() }]
}

/// The operations that put an index in the place of the one before. It is written under another
/// name first, so that the old index stays whole until the new one is.
pub open spec fn write_index_ops(env: EnvironmentView, entries: Seq<EntryView>) -> Seq<FileOpView> {
    ensure_dirs_ops(env) + seq![
        FileOpView::Write {
            path: env.new_index_path(),
            data: encode_utf8(index_text_of(entries)),
        },
        FileOpView::Rename { from: env.new_index_path(), to: env.index_path() },
    ]
}

/// The operations that store the bytes of an entry: none if they are there already.
pub open spec fn store_entry_ops(
    env: EnvironmentView,
    hash: Seq<char>,
    data: Seq<u8>,
    exists: bool,
) -> Seq<FileOpView> {
    if exists {
        seq![]
    } else {
        seq![FileOpView::Write { path: env.entry_path(hash), data }]
    }
}

/// The operations that remove the files of some entries.
pub open spec fn remove_entries_ops(env: EnvironmentView, hashes: Seq<Seq<char>>) -> Seq<
    FileOpView,
> {
    Seq::new(hashes.len(), |i: int| FileOpView::Remove { path: env.entry_path(hashes[i]) })
}

/// The operations that put an entry at the head of the history, given the entries before: the
/// files of those that drop out go, and then the index changes.
pub open spec fn upsert_ops(
    env: EnvironmentView,
    entries: Seq<EntryView>,
    e: EntryView,
    max: nat,
) -> Seq<FileOpView> {
    remove_entries_ops(env, dropped(with_entry(entries, e), max)) + write_index_ops(
        env,
        kept(with_entry(entries, e), max),
    )
}

/// The operations that put an image in the single slot for images.
pub open spec fn save_image_ops(env: EnvironmentView, mime: Seq<char>, data: Seq<u8>) -> Seq<
    FileOpView,
> {
    ensure_dirs_ops(env) + seq![
        FileOpView::Write { path: env.image_data_path(), data },
        FileOpView::Write { path: env.image_meta_path(), data: encode_utf8(mime) },
    ]
}

/// Makes the directories of the cache.
pub fn ensure_dirs(env: &Environment) -> (r: Vec<FileOp>)
    requires
        env@.has_cache_dir(),
    ensures
        op_views(r@) == ensure_dirs_ops(env@),
{
    let mut ops: Vec<FileOp> = Vec::new();
    ops.push(FileOp::CreateDirAll { path: entries_dir(env) });
    assert(op_views(ops@) =~= ensure_dirs_ops(env@));
    ops
}

/// Puts an index in the place of the one before.
pub fn write_index(env: &Environment, entries: &Vec<Entry>) -> (r: Vec<FileOp>)
    requires
        env@.has_cache_dir(),
    ensures
        op_views(r@) == write_index_ops(env@, entry_views(entries@)),
{
    let mut ops = ensure_dirs(env);
    let text = index_text(entries);
    ops.push(
        FileOp::Write { path: new_index_path(env), data: slice_to_vec(text.as_str().as_bytes()) },
    );
    ops.push(FileOp::Rename { from: new_index_path(env), to: index_path(env) });
    proof {
        let last = ops@.len() as int;
        assert(op_views(ops@).take(last - 2) =~= ensure_dirs_ops(env@));
        assert(op_views(ops@) =~= write_index_ops(env@, entry_views(entries@)));
    }
    ops
}

/// Stores the bytes of an entry, unless a file for its hash exists: the same hash stands for the
/// same bytes.
pub fn store_entry(env: &Environment, hash: &str, data: &[u8], exists: bool) -> (r: Vec<FileOp>)
    requires
        env@.has_cache_dir(),
    ensures
        op_views(r@) == store_entry_ops(env@, hash@, data@, exists),
{
    let mut ops: Vec<FileOp> = Vec::new();
    if !exists {
        ops.push(FileOp::Write { path: entry_path(env, hash), data: slice_to_vec(data) });
    }
    assert(op_views(ops@) =~= store_entry_ops(env@, hash@, data@, exists));
    ops
}

/// Puts an entry, whose bytes are stored, at the head of the history, given the text of the index
/// as far as it could be read. What is then behind the first `max_items` entries goes.
pub fn upsert_entry(
    env: &Environment,
    hash: &str,
    mime: &str,
    preview: &str,
    max_items: usize,
    index: Option<&str>,
) -> (r: Vec<FileOp>)
    requires
        env@.has_cache_dir(),
    ensures
        op_views(r@) == upsert_ops(
            env@,
            parsed_index(text_view(index)),
            EntryView { hash: hash@, mime: mime@, preview: preview@ },
            max_items as nat,
        ),
{
    let mut entries = read_index(index);
    let entry = Entry {
        hash: hash.to_owned(),
        mime: mime.to_owned(),
        preview: preview.to_owned(),
    };
    let ghost e = entry@;
    assert(e =~= EntryView { hash: hash@, mime: mime@, preview: preview@ });
    let gone = upsert(&mut entries, entry, max_items);
    let ghost hashes = strings(gone@);
    let mut ops: Vec<FileOp> = Vec::new();
    for i in 0..gone.len()
        invariant
            env@.has_cache_dir(),
            hashes == strings(gone@),
            op_views(ops@) == remove_entries_ops(env@, hashes).take(i as int),
    {
        let ghost before = ops@;
        ops.push(FileOp::Remove { path: entry_path(env, gone[i].as_str()) });
        assert(op_views(ops@) =~= op_views(before).push(
            remove_entries_ops(env@, hashes)[i as int],
        ));
    }
    let ghost removals = ops@;
    assert(op_views(removals) =~= remove_entries_ops(env@, hashes));
    let mut rest = write_index(env, &entries);
    let ghost written = rest@;
    ops.append(&mut rest);
    assert(op_views(ops@) =~= op_views(removals) + op_views(written));
    ops
}

/// Puts an image in the single slot for images.
pub fn save_last_image(env: &Environment, mime: &str, data: &[u8]) -> (r: Vec<FileOp>)
    requires
        env@.has_cache_dir(),
    ensures
        op_views(r@) == save_image_ops(env@, mime@, data@),
{
    let mut ops = ensure_dirs(env);
    ops.push(FileOp::Write { path: last_image_data_path(env), data: slice_to_vec(data) });
    ops.push(
        FileOp::Write { path: last_image_meta_path(env), data: slice_to_vec(mime.as_bytes()) },
    );
    proof {
        let last = ops@.len() as int;
        assert(op_views(ops@).take(last - 2) =~= ensure_dirs_ops(env@));
        assert(op_views(ops@) =~= save_image_ops(env@, mime@, data@));
    }
    ops
}

// ---------------------------------------------------------------------------------------------
// Laws
// ---------------------------------------------------------------------------------------------

/// The directory of the entries is made before anything is written: it is the first thing that is
/// done for an index and for an image, and the only thing that making the directories does.
pub proof fn law_directories_come_first(
    env: EnvironmentView,
    entries: Seq<EntryView>,
    mime: Seq<char>,
    data: Seq<u8>,
)
    ensures
        ensure_dirs_ops(env) == seq![FileOpView::CreateDirAll { path: env.entries_path() }],
        write_index_ops(env, entries)[0] == (FileOpView::CreateDirAll { path: env.entries_path() }),
        save_image_ops(env, mime, data)[0] == (FileOpView::CreateDirAll {
            path: env.entries_path(),
        }),
{
}

/// A new index is written whole under another name before it takes the place of the old one, which
/// nothing else touches.
pub proof fn law_index_is_replaced_at_once(env: EnvironmentView, entries: Seq<EntryView>)
    ensures
        ({
            let ops = write_index_ops(env, entries);
            &&& ops.len() == 3
            &&& ops[1] == (FileOpView::Write {
                path: env.new_index_path(),
                data: encode_utf8(index_text_of(entries)),
            })
            &&& ops[2] == (FileOpView::Rename { from: env.new_index_path(), to: env.index_path() })
        }),
{
}

/// The bytes of an entry are written whole, once: where no file for the entry is there, and else
/// not at all.
pub proof fn law_bytes_are_written_once(env: EnvironmentView, hash: Seq<char>, data: Seq<u8>)
    ensures
        store_entry_ops(env, hash, data, false) == seq![
            FileOpView::Write { path: env.entry_path(hash), data },
        ],
        store_entry_ops(env, hash, data, true) == Seq::<FileOpView>::empty(),
{
}

/// An upsert removes the files of the entries that drop out, each of them, from the last on, and
/// then replaces the index by one of the entries that stay. It does nothing else.
pub proof fn law_upsert_removes_and_replaces(
    env: EnvironmentView,
    entries: Seq<EntryView>,
    e: EntryView,
    max: nat,
)
    ensures
        ({
            let ops = upsert_ops(env, entries, e, max);
            let gone = dropped(with_entry(entries, e), max);
            &&& ops.len() == gone.len() + 3
            &&& forall|i: int|
                0 <= i < gone.len() ==> #[trigger] ops[i] == (FileOpView::Remove {
                    path: env.entry_path(gone[i]),
                })
            &&& ops.skip(gone.len() as int) == write_index_ops(
                env,
                kept(with_entry(entries, e), max),
            )
        }),
{
    let gone = dropped(with_entry(entries, e), max);
    let ops = upsert_ops(env, entries, e, max);
    assert(ops.skip(gone.len() as int) =~= write_index_ops(
        env,
        kept(with_entry(entries, e), max),
    ));
}

/// Both files of an image are written whole, its bytes first.
pub proof fn law_both_files_of_an_image_are_written(
    env: EnvironmentView,
    mime: Seq<char>,
    data: Seq<u8>,
)
    ensures
        ({
            let ops = save_image_ops(env, mime, data);
            &&& ops.len() == 3
            &&& ops[1] == (FileOpView::Write { path: env.image_data_path(), data })
            &&& ops[2] == (FileOpView::Write {
                path: env.image_meta_path(),
                data: encode_utf8(mime),
            })
        }),
{
}

/// The content of an operation is what it names and what it writes, whole, and that of several
/// operations is theirs, in their order.
pub proof fn law_content_of_operations_is_whole(op: FileOp, v: Seq<FileOp>)
    ensures
        op matches FileOp::CreateDirAll { path } ==> op@ == (FileOpView::CreateDirAll {
            path: path@,
        }),
        op matches FileOp::Write { path, data } ==> op@ == (FileOpView::Write {
            path: path@,
            data: data@,
        }),
        op matches FileOp::Remove { path } ==> op@ == (FileOpView::Remove { path: path@ }),
        op matches FileOp::Rename { from, to } ==> op@ == (FileOpView::Rename {
            from: from@,
            to: to@,
        }),
        op_views(v).len() == v.len(),
        forall|i: int| 0 <= i < v.len() ==> #[trigger] op_views(v)[i] == v[i]@,
{
}

}
