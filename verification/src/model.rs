//! What the operations on the cache come to: a model of the files, and the laws of the history.
//!
//! The files are a map from names to contents, where names are compared as they are written, and
//! each file stands in it under one name: the one that [`paths`](crate::paths) gives it. A hash that
//! is not a plain name, such as `./a`, can spell a file by another name. So the laws on what the
//! files hold ask that the entries whose files are removed have plain names for hashes.
//!
//! The laws speak of operations that all succeed, but for those on what is cut short.
use vstd::prelude::*;
use vstd::utf8::{decode_utf8, encode_utf8, valid_utf8};

use crate::hash::{hash_of, is_hex_digit, law_hash_is_hexadecimal};
use crate::image::last_image;
use crate::index::{
    all_fit, all_reread, dropped, hashes_differ, index_text_of, kept, law_index_gives_entries_back,
    law_read_entries_take_one_line, law_upsert, law_upsert_again_changes_nothing, parsed_index, with_entry,
    without_hash, EntryView,
};
use crate::paths::{EnvironmentView, SEPARATOR};
use crate::store::{
    ensure_dirs_ops, remove_entries_ops, save_image_ops, store_entry_ops, upsert_ops,
    write_index_ops, FileOpView,
};
use crate::text::trimmed;

verus! {

/// The files: what each path holds.
pub type Files = Map<Seq<u8>, Seq<u8>>;

/// The files after one operation.
pub open spec fn after_op(files: Files, op: FileOpView) -> Files {
    match op {
        FileOpView::CreateDirAll { path } => files,
        FileOpView::Write { path, data } => files.insert(path, data),
        FileOpView::Remove { path } => files.remove(path),
        FileOpView::Rename { from, to } => files.remove(from).insert(to, files[from]),
    }
}

/// The files after some operations.
pub open spec fn after_ops(files: Files, ops: Seq<FileOpView>) -> Files
    decreases ops.len(),
{
    if ops.len() == 0 {
        files
    } else {
        after_op(after_ops(files, ops.drop_last()), ops.last())
    }
}

/// The text of a file, if there is one and it is valid UTF-8.
pub open spec fn text_at(files: Files, path: Seq<u8>) -> Option<Seq<char>> {
    if files.contains_key(path) && valid_utf8(files[path]) {
        Some(decode_utf8(files[path]))
    } else {
        None
    }
}

/// The bytes of a file, if there is one.
pub open spec fn bytes_at(files: Files, path: Seq<u8>) -> Option<Seq<u8>> {
    if files.contains_key(path) {
        Some(files[path])
    } else {
        None
    }
}

/// The history that the files hold.
pub open spec fn history(files: Files, env: EnvironmentView) -> Seq<EntryView> {
    parsed_index(text_at(files, env.index_path()))
}

/// The image that the files hold.
pub open spec fn image(files: Files, env: EnvironmentView) -> Option<(Seq<char>, Seq<u8>)> {
    last_image(text_at(files, env.image_meta_path()), bytes_at(files, env.image_data_path()))
}

/// Whether a hash is a plain name, the name of a file in a directory.
pub open spec fn names_a_file(hash: Seq<char>) -> bool {
    &&& hash.len() > 0
    &&& !hash.contains('/')
    &&& hash != seq!['.']
    &&& hash != seq!['.', '.']
}

/// Whether some entry has the given hash.
pub open spec fn lists(entries: Seq<EntryView>, hash: Seq<char>) -> bool {
    exists|i: int| 0 <= i < entries.len() && (#[trigger] entries[i]).hash == hash
}

/// The files once an entry, with its bytes, is in the history: first its bytes are stored, unless
/// there is a file for them, then the index is read and changed.
pub open spec fn after_upsert(
    files: Files,
    env: EnvironmentView,
    e: EntryView,
    data: Seq<u8>,
    max: nat,
) -> Files {
    let made = after_ops(files, ensure_dirs_ops(env));
    let exists = made.contains_key(env.entry_path(e.hash));
    let stored = after_ops(made, store_entry_ops(env, e.hash, data, exists));
    after_ops(stored, upsert_ops(env, history(stored, env), e, max))
}

/// The operations that put an entry, with its bytes, into the history, from the first to the last.
pub open spec fn all_upsert_ops(
    files: Files,
    env: EnvironmentView,
    e: EntryView,
    data: Seq<u8>,
    max: nat,
) -> Seq<FileOpView> {
    ensure_dirs_ops(env) + store_entry_ops(
        env,
        e.hash,
        data,
        files.contains_key(env.entry_path(e.hash)),
    ) + upsert_ops(env, history(files, env), e, max)
}

/// The hashes of the entries that drop out of the history as an entry comes in.
pub open spec fn dropped_for(
    files: Files,
    env: EnvironmentView,
    e: EntryView,
    max: nat,
) -> Seq<Seq<char>> {
    dropped(with_entry(history(files, env), e), max)
}

/// The history as it is written once an entry has come in.
pub open spec fn kept_with(files: Files, env: EnvironmentView, e: EntryView, max: nat) -> Seq<
    EntryView,
> {
    kept(with_entry(history(files, env), e), max)
}

/// Whether the entries that drop out of the history as an entry comes in all have plain names for
/// hashes.
pub open spec fn drops_plain_names(
    files: Files,
    env: EnvironmentView,
    e: EntryView,
    max: nat,
) -> bool {
    forall|i: int|
        0 <= i < dropped_for(files, env, e, max).len() ==> names_a_file(
            #[trigger] dropped_for(files, env, e, max)[i],
        )
}

/// Whether one of some hashes has its file at the given path.
spec fn is_path_of(env: EnvironmentView, hashes: Seq<Seq<char>>, p: Seq<u8>) -> bool {
    exists|i: int| 0 <= i < hashes.len() && env.entry_path(#[trigger] hashes[i]) == p
}

/// Whether an operation changes what a path holds.
pub open spec fn touches(op: FileOpView, p: Seq<u8>) -> bool {
    match op {
        FileOpView::CreateDirAll { path } => false,
        FileOpView::Write { path, data } => path == p,
        FileOpView::Remove { path } => path == p,
        FileOpView::Rename { from, to } => from == p || to == p,
    }
}

/// The files once an image is in its slot.
pub open spec fn after_save_image(
    files: Files,
    env: EnvironmentView,
    mime: Seq<char>,
    data: Seq<u8>,
) -> Files {
    after_ops(files, save_image_ops(env, mime, data))
}

/// Whether index and entry files agree: every entry survives the index, no hash occurs twice, and
/// the entries listed are exactly those that have a file.
pub open spec fn cache_agrees(files: Files, env: EnvironmentView) -> bool {
    let entries = history(files, env);
    &&& all_fit(entries)
    &&& hashes_differ(entries)
    &&& forall|i: int| 0 <= i < entries.len() ==> names_a_file((#[trigger] entries[i]).hash)
    &&& forall|h: Seq<char>| #[trigger]
        names_a_file(h) ==> (files.contains_key(env.entry_path(h)) <==> lists(entries, h))
}

// ---------------------------------------------------------------------------------------------
// Lemmas on operations
// ---------------------------------------------------------------------------------------------

/// Operations in a row.
proof fn lemma_ops_in_a_row(files: Files, a: Seq<FileOpView>, b: Seq<FileOpView>)
    ensures
        after_ops(files, a + b) == after_ops(after_ops(files, a), b),
    decreases b.len(),
{
    if b.len() == 0 {
        assert(a + b =~= a);
    } else {
        lemma_ops_in_a_row(files, a, b.drop_last());
        assert((a + b).drop_last() =~= a + b.drop_last());
        assert((a + b).last() == b.last());
    }
}

/// One operation.
proof fn lemma_one_op(files: Files, op: FileOpView)
    ensures
        after_ops(files, seq![op]) == after_op(files, op),
{
    let ops = seq![op];
    assert(ops.drop_last() =~= seq![]);
    assert(after_ops(files, ops.drop_last()) == files);
    assert(ops.last() == op);
}

/// Two operations.
proof fn lemma_two_ops(files: Files, a: FileOpView, b: FileOpView)
    ensures
        after_ops(files, seq![a, b]) == after_op(after_op(files, a), b),
{
    lemma_one_op(files, a);
    assert(seq![a, b].drop_last() =~= seq![a]);
    assert(seq![a, b].last() == b);
}

/// Operations that do not touch a path leave it as it is.
proof fn lemma_untouched(files: Files, ops: Seq<FileOpView>, p: Seq<u8>)
    requires
        forall|i: int| 0 <= i < ops.len() ==> !touches(#[trigger] ops[i], p),
    ensures
        bytes_at(after_ops(files, ops), p) == bytes_at(files, p),
        text_at(after_ops(files, ops), p) == text_at(files, p),
    decreases ops.len(),
{
    if ops.len() > 0 {
        let before = ops.drop_last();
        assert forall|i: int| 0 <= i < before.len() implies !touches(#[trigger] before[i], p) by {
            assert(before[i] == ops[i]);
        }
        lemma_untouched(files, before, p);
        assert(!touches(ops[ops.len() - 1], p));
        let prev = after_ops(files, before);
        let now = after_ops(files, ops);
        assert(now.contains_key(p) <==> prev.contains_key(p));
        assert(now.contains_key(p) ==> now[p] == prev[p]);
        assert(files.contains_key(p) <==> prev.contains_key(p));
        assert(prev.contains_key(p) ==> files[p] == prev[p]);
    }
}

/// Making directories changes no file.
proof fn lemma_ensure_dirs(files: Files, env: EnvironmentView)
    ensures
        after_ops(files, ensure_dirs_ops(env)) == files,
{
    lemma_one_op(files, FileOpView::CreateDirAll { path: env.entries_path() });
}

/// Writing an index changes the index, and leaves nothing behind.
proof fn lemma_write_index(files: Files, env: EnvironmentView, entries: Seq<EntryView>)
    ensures
        after_ops(files, write_index_ops(env, entries)) == files.remove(
            env.new_index_path(),
        ).insert(env.index_path(), encode_utf8(index_text_of(entries))),
{
    let text = encode_utf8(index_text_of(entries));
    let write = FileOpView::Write { path: env.new_index_path(), data: text };
    let rename = FileOpView::Rename { from: env.new_index_path(), to: env.index_path() };
    lemma_ops_in_a_row(files, ensure_dirs_ops(env), seq![write, rename]);
    lemma_ensure_dirs(files, env);
    lemma_two_ops(files, write, rename);
    assert(files.insert(env.new_index_path(), text).remove(env.new_index_path()) =~= files.remove(
        env.new_index_path(),
    ));
}

/// Removing the files of some entries leaves all other files as they are.
proof fn lemma_remove_entries(files: Files, env: EnvironmentView, hashes: Seq<Seq<char>>)
    ensures
        ({
            let now = after_ops(files, remove_entries_ops(env, hashes));
            forall|p: Seq<u8>|
                {
                    &&& #[trigger] now.contains_key(p) <==> files.contains_key(p) && (forall|i: int|
                        0 <= i < hashes.len() ==> p != env.entry_path(#[trigger] hashes[i]))
                    &&& now.contains_key(p) ==> now[p] == files[p]
                }
        }),
    decreases hashes.len(),
{
    let ops = remove_entries_ops(env, hashes);
    if hashes.len() > 0 {
        let before = hashes.drop_last();
        lemma_remove_entries(files, env, before);
        assert(ops.drop_last() =~= remove_entries_ops(env, before));
        let prev = after_ops(files, ops.drop_last());
        let now = after_ops(files, ops);
        let gone = env.entry_path(hashes.last());
        assert(now == prev.remove(gone));
        assert forall|p: Seq<u8>|
            {
                &&& #[trigger] now.contains_key(p) <==> files.contains_key(p) && (forall|i: int|
                    0 <= i < hashes.len() ==> p != env.entry_path(#[trigger] hashes[i]))
                &&& now.contains_key(p) ==> now[p] == files[p]
            } by {
            assert(now.contains_key(p) <==> prev.contains_key(p) && p != gone);
            if prev.contains_key(p) && p != gone {
                assert forall|i: int| 0 <= i < hashes.len() implies p != env.entry_path(
                    #[trigger] hashes[i],
                ) by {
                    if i < before.len() {
                        assert(before[i] == hashes[i]);
                    }
                }
            }
            if !prev.contains_key(p) && files.contains_key(p) {
                let i = choose|i: int|
                    0 <= i < before.len() && p == env.entry_path(#[trigger] before[i]);
                assert(before[i] == hashes[i]);
            }
            if p == gone {
                assert(p == env.entry_path(hashes[hashes.len() - 1]));
            }
        }
    }
}

// ---------------------------------------------------------------------------------------------
// Lemmas on paths
// ---------------------------------------------------------------------------------------------

/// The bytes of a name that does not begin with a separator do not begin with one either.
proof fn lemma_first_byte(name: Seq<char>)
    requires
        name.len() > 0,
        name[0] != '/',
    ensures
        encode_utf8(name).len() > 0,
        encode_utf8(name)[0] != SEPARATOR,
{
    let c = name[0] as u32;
    vstd::utf8::char_is_scalar(name[0]);
    vstd::utf8::char_u32_cast(name[0], c);
    assert(c != 0x2F);
    assert(c <= 0x7f && c != 0x2f ==> (c & 0x7f) as u8 != 0x2fu8) by (bit_vector);
    assert(0xC0u8 | ((c >> 6) & 0x1F) as u8 >= 0xC0u8) by (bit_vector);
    assert(0xE0u8 | ((c >> 12) & 0x0F) as u8 >= 0xE0u8) by (bit_vector);
    assert(0xF0u8 | ((c >> 18) & 0x7) as u8 >= 0xF0u8) by (bit_vector);
    let head = vstd::utf8::encode_scalar(c);
    assert(encode_utf8(name) == head + encode_utf8(name.drop_first()));
    assert(encode_utf8(name)[0] == head[0]);
}

/// Names with the same bytes are the same.
proof fn lemma_encoding_is_faithful(a: Seq<char>, b: Seq<char>)
    requires
        encode_utf8(a) == encode_utf8(b),
    ensures
        a == b,
{
    broadcast use vstd::utf8::encode_utf8_decode_utf8;

    assert(decode_utf8(encode_utf8(a)) == a);
    assert(decode_utf8(encode_utf8(b)) == b);
}

/// A directory with the separator that goes between it and a name.
spec fn with_separator(dir: Seq<u8>) -> Seq<u8> {
    if dir.len() > 0 && dir.last() != SEPARATOR {
        dir.push(SEPARATOR)
    } else {
        dir
    }
}

/// What the names in the cache directory begin with.
proof fn lemma_names_in_cache(env: EnvironmentView)
    ensures
        ({
            let base = with_separator(env.cache_path());
            let n = base.len() as int;
            &&& env.entries_path().len() > n && env.entries_path()[n] == 0x65
            &&& env.entries_path().last() != SEPARATOR
            &&& env.index_path().len() > n && env.index_path()[n] == 0x69
            &&& env.new_index_path().len() > env.index_path().len()
            &&& env.new_index_path()[n] == 0x69
            &&& env.image_data_path().len() > n && env.image_data_path()[n] == 0x6C
            &&& env.image_meta_path().len() > n && env.image_meta_path()[n] == 0x6C
            &&& env.image_data_path() != env.image_meta_path()
        }),
{
    reveal_strlit("entries");
    reveal_strlit("index.tsv");
    reveal_strlit("index.tsv.tmp");
    reveal_strlit("last_image.bin");
    reveal_strlit("last_image.meta");
    vstd::utf8::is_ascii_chars_encode_utf8("entries"@);
    vstd::utf8::is_ascii_chars_encode_utf8("index.tsv"@);
    vstd::utf8::is_ascii_chars_encode_utf8("index.tsv.tmp"@);
    vstd::utf8::is_ascii_chars_encode_utf8("last_image.bin"@);
    vstd::utf8::is_ascii_chars_encode_utf8("last_image.meta"@);
    let base = with_separator(env.cache_path());
    assert(env.entries_path() =~= base + encode_utf8("entries"@));
    assert(env.index_path() =~= base + encode_utf8("index.tsv"@));
    assert(env.new_index_path() =~= base + encode_utf8("index.tsv.tmp"@));
    assert(env.image_data_path() =~= base + encode_utf8("last_image.bin"@));
    assert(env.image_meta_path() =~= base + encode_utf8("last_image.meta"@));
    assert("entries"@[6] == 's');
}

/// The file of an entry is none of the other files of the cache.
proof fn lemma_entry_path_is_its_own(env: EnvironmentView, hash: Seq<char>)
    requires
        names_a_file(hash),
    ensures
        env.entry_path(hash) == env.entries_path().push(SEPARATOR) + encode_utf8(hash),
        env.entry_path(hash) != env.index_path(),
        env.entry_path(hash) != env.new_index_path(),
        env.entry_path(hash) != env.image_data_path(),
        env.entry_path(hash) != env.image_meta_path(),
{
    lemma_names_in_cache(env);
    assert(hash.contains(hash[0]));
    lemma_first_byte(hash);
    let n = with_separator(env.cache_path()).len() as int;
    assert(env.entry_path(hash)[n] == 0x65);
}

/// Entries of different hashes have different files.
proof fn lemma_entry_paths_differ(env: EnvironmentView, a: Seq<char>, b: Seq<char>)
    requires
        names_a_file(a),
        names_a_file(b),
        env.entry_path(a) == env.entry_path(b),
    ensures
        a == b,
{
    lemma_entry_path_is_its_own(env, a);
    lemma_entry_path_is_its_own(env, b);
    let dir = env.entries_path().push(SEPARATOR);
    assert(encode_utf8(a) =~= (dir + encode_utf8(a)).skip(dir.len() as int));
    assert(encode_utf8(b) =~= (dir + encode_utf8(b)).skip(dir.len() as int));
    lemma_encoding_is_faithful(a, b);
}

// ---------------------------------------------------------------------------------------------
// Lemmas on the history
// ---------------------------------------------------------------------------------------------

/// What it comes to that an entry's hash is taken out of the history.
proof fn lemma_without_hash(entries: Seq<EntryView>, hash: Seq<char>)
    ensures
        ({
            let rest = without_hash(entries, hash);
            &&& all_fit(entries) ==> all_fit(rest)
            &&& hashes_differ(entries) ==> hashes_differ(rest)
            &&& forall|h: Seq<char>| #[trigger]
                lists(rest, h) <==> lists(entries, h) && h != hash
        }),
    decreases entries.len(),
{
    reveal(Seq::filter);
    let rest = without_hash(entries, hash);
    if entries.len() == 0 {
        assert(rest =~= seq![]);
    } else {
        let before = entries.drop_last();
        let e = entries.last();
        let rest_before = without_hash(before, hash);
        lemma_without_hash(before, hash);
        assert(e == entries[entries.len() - 1]);
        assert(forall|i: int| 0 <= i < before.len() ==> before[i] == entries[i]);
        assert(rest == if e.hash != hash {
            rest_before.push(e)
        } else {
            rest_before
        });
        assert forall|h: Seq<char>| #[trigger] lists(entries, h) <==> lists(before, h) || h
            == e.hash by {
            if lists(entries, h) && h != e.hash {
                let i = choose|i: int|
                    0 <= i < entries.len() && (#[trigger] entries[i]).hash == h;
                assert(before[i].hash == h);
            }
            if lists(before, h) {
                let i = choose|i: int| 0 <= i < before.len() && (#[trigger] before[i]).hash == h;
                assert(entries[i].hash == h);
            }
        }
        assert forall|h: Seq<char>| #[trigger] lists(rest, h) <==> lists(rest_before, h) || (h
            == e.hash && e.hash != hash) by {
            if lists(rest, h) && !(h == e.hash && e.hash != hash) {
                let i = choose|i: int| 0 <= i < rest.len() && (#[trigger] rest[i]).hash == h;
                assert(rest_before[i].hash == h);
            }
            if lists(rest_before, h) {
                let i = choose|i: int|
                    0 <= i < rest_before.len() && (#[trigger] rest_before[i]).hash == h;
                assert(rest[i].hash == h);
            }
            if h == e.hash && e.hash != hash {
                assert(rest[rest.len() - 1].hash == h);
            }
        }
        if all_fit(entries) {
            assert(all_fit(before));
            assert forall|i: int| 0 <= i < rest.len() implies (#[trigger] rest[i]).fits_index() by {
                if i < rest_before.len() {
                    assert(rest[i] == rest_before[i]);
                }
            }
        }
        if hashes_differ(entries) {
            assert(hashes_differ(before));
            assert forall|i: int, j: int| 0 <= i < j < rest.len() implies (
            #[trigger] rest[i]).hash != (#[trigger] rest[j]).hash by {
                if j < rest_before.len() {
                    assert(rest[i] == rest_before[i] && rest[j] == rest_before[j]);
                } else {
                    assert(rest[i] == rest_before[i]);
                    assert(lists(rest_before, rest_before[i].hash));
                    assert(lists(before, rest_before[i].hash));
                    let k = choose|k: int|
                        0 <= k < before.len() && (#[trigger] before[k]).hash
                            == rest_before[i].hash;
                    assert(entries[k].hash != entries[entries.len() - 1].hash);
                }
            }
        }
    }
}

/// What it comes to that an entry is put at the head of the history.
pub proof fn lemma_with_entry(entries: Seq<EntryView>, e: EntryView)
    ensures
        ({
            let all = with_entry(entries, e);
            &&& all_fit(entries) && e.fits_index() ==> all_fit(all)
            &&& hashes_differ(entries) ==> hashes_differ(all)
            &&& forall|h: Seq<char>| #[trigger] lists(all, h) <==> lists(entries, h) || h == e.hash
        }),
{
    let rest = without_hash(entries, e.hash);
    let all = with_entry(entries, e);
    lemma_without_hash(entries, e.hash);
    assert(all[0] == e);
    assert(forall|i: int| 0 < i < all.len() ==> all[i] == rest[i - 1]);
    assert forall|h: Seq<char>| #[trigger] lists(all, h) <==> lists(entries, h) || h == e.hash by {
        if lists(all, h) && h != e.hash {
            let i = choose|i: int| 0 <= i < all.len() && (#[trigger] all[i]).hash == h;
            assert(rest[i - 1].hash == h);
            assert(lists(rest, h));
        }
        if lists(entries, h) && h != e.hash {
            assert(lists(rest, h));
            let i = choose|i: int| 0 <= i < rest.len() && (#[trigger] rest[i]).hash == h;
            assert(all[i + 1].hash == h);
        }
        if h == e.hash {
            assert(all[0].hash == h);
        }
    }
    if hashes_differ(entries) {
        assert forall|i: int, j: int| 0 <= i < j < all.len() implies (#[trigger] all[i]).hash != (
        #[trigger] all[j]).hash by {
            assert(all[j] == rest[j - 1]);
            if i == 0 {
                assert(lists(rest, rest[j - 1].hash));
            } else {
                assert(all[i] == rest[i - 1]);
            }
        }
    }
    if all_fit(entries) && e.fits_index() {
        assert forall|i: int| 0 <= i < all.len() implies (#[trigger] all[i]).fits_index() by {
            if i > 0 {
                assert(all[i] == rest[i - 1]);
            }
        }
    }
}

/// Behind an entry that is put at the head of the history stand entries of other hashes, and all of
/// them stood there before.
pub proof fn lemma_behind_the_head(entries: Seq<EntryView>, e: EntryView, i: int)
    requires
        0 < i < with_entry(entries, e).len(),
    ensures
        entries.contains(with_entry(entries, e)[i]),
        with_entry(entries, e)[i].hash != e.hash,
{
    broadcast use vstd::seq_lib::group_filter_ensures;

    let other = |x: EntryView| x.hash != e.hash;
    let rest = without_hash(entries, e.hash);
    assert(with_entry(entries, e)[i] == rest[i - 1]);
    assert(other(rest[i - 1]));
    assert(entries.filter(other).contains(rest[i - 1]));
    entries.lemma_filter_contains_rev(other, rest[i - 1]);
}

/// Where all hashes are plain names, as in every cache that agrees, those of the entries that drop
/// out are.
pub proof fn lemma_plain_history(files: Files, env: EnvironmentView, e: EntryView, max: nat)
    requires
        names_a_file(e.hash),
        forall|i: int|
            0 <= i < history(files, env).len() ==> names_a_file(
                (#[trigger] history(files, env)[i]).hash,
            ),
    ensures
        drops_plain_names(files, env, e, max),
{
    let entries = history(files, env);
    let all = with_entry(entries, e);
    let gone = dropped_for(files, env, e, max);
    assert forall|k: int| 0 <= k < gone.len() implies names_a_file(#[trigger] gone[k]) by {
        let j = all.len() - 1 - k;
        assert(gone[k] == all[j].hash);
        if j > 0 {
            lemma_behind_the_head(entries, e, j);
            let i = choose|i: int| 0 <= i < entries.len() && entries[i] == all[j];
            assert(names_a_file(entries[i].hash));
        } else {
            assert(all[0] == e);
        }
    }
}

/// The paths of entries that drop out, where they have plain names for hashes: they are the paths of
/// those entries only, and the new entry is one of them only if none is kept.
proof fn lemma_dropped_paths(files: Files, env: EnvironmentView, e: EntryView, max: nat)
    requires
        names_a_file(e.hash),
        drops_plain_names(files, env, e, max),
    ensures
        ({
            let gone = dropped_for(files, env, e, max);
            &&& !is_path_of(env, gone, env.index_path())
            &&& !is_path_of(env, gone, env.image_data_path())
            &&& !is_path_of(env, gone, env.image_meta_path())
            &&& forall|h: Seq<char>| #[trigger]
                names_a_file(h) ==> (is_path_of(env, gone, env.entry_path(h)) <==> gone.contains(h))
            &&& gone.contains(e.hash) <==> max == 0
        }),
{
    let entries = history(files, env);
    let all = with_entry(entries, e);
    let gone = dropped_for(files, env, e, max);
    assert forall|k: int| 0 <= k < gone.len() implies env.entry_path(#[trigger] gone[k])
        != env.index_path() && env.entry_path(gone[k]) != env.image_data_path() && env.entry_path(
        gone[k],
    ) != env.image_meta_path() by {
        lemma_entry_path_is_its_own(env, gone[k]);
    }
    assert forall|h: Seq<char>| #[trigger] names_a_file(h) implies (is_path_of(
        env,
        gone,
        env.entry_path(h),
    ) <==> gone.contains(h)) by {
        if is_path_of(env, gone, env.entry_path(h)) {
            let k = choose|k: int|
                0 <= k < gone.len() && env.entry_path(#[trigger] gone[k]) == env.entry_path(h);
            lemma_entry_paths_differ(env, gone[k], h);
        }
        if gone.contains(h) {
            let k = choose|k: int| 0 <= k < gone.len() && gone[k] == h;
            assert(env.entry_path(gone[k]) == env.entry_path(h));
        }
    }
    assert(all[0] == e);
    if max == 0 {
        assert(gone[all.len() - 1] == e.hash);
    } else if gone.contains(e.hash) {
        let k = choose|k: int| 0 <= k < gone.len() && gone[k] == e.hash;
        lemma_behind_the_head(entries, e, all.len() - 1 - k);
    }
}

/// Storing the bytes of an entry leaves everything else as it is.
proof fn lemma_store_entry(files: Files, env: EnvironmentView, hash: Seq<char>, data: Seq<u8>)
    requires
        names_a_file(hash),
    ensures
        ({
            let path = env.entry_path(hash);
            let now = after_ops(
                files,
                store_entry_ops(env, hash, data, files.contains_key(path)),
            );
            &&& now == (if files.contains_key(path) {
                files
            } else {
                files.insert(path, data)
            })
            &&& history(now, env) == history(files, env)
        }),
{
    let path = env.entry_path(hash);
    if !files.contains_key(path) {
        lemma_one_op(files, FileOpView::Write { path, data });
    }
    lemma_entry_path_is_its_own(env, hash);
}

/// What a name stands for after an upsert.
proof fn lemma_path_after_upsert(
    files: Files,
    env: EnvironmentView,
    e: EntryView,
    data: Seq<u8>,
    max: nat,
    p: Seq<u8>,
)
    requires
        names_a_file(e.hash),
    ensures
        bytes_at(after_upsert(files, env, e, data, max), p) == (if p == env.index_path() {
            Some(encode_utf8(index_text_of(kept_with(files, env, e, max))))
        } else if p == env.new_index_path() || is_path_of(
            env,
            dropped_for(files, env, e, max),
            p,
        ) {
            None
        } else if files.contains_key(p) {
            Some(files[p])
        } else if p == env.entry_path(e.hash) {
            Some(data)
        } else {
            None
        }),
{
    let path = env.entry_path(e.hash);
    let gone_hashes = dropped_for(files, env, e, max);
    let gone = remove_entries_ops(env, gone_hashes);
    lemma_ensure_dirs(files, env);
    lemma_store_entry(files, env, e.hash, data);
    let stored = after_ops(
        files,
        store_entry_ops(env, e.hash, data, files.contains_key(path)),
    );
    let removed = after_ops(stored, gone);
    lemma_ops_in_a_row(stored, gone, write_index_ops(env, kept_with(files, env, e, max)));
    lemma_write_index(removed, env, kept_with(files, env, e, max));
    lemma_remove_entries(stored, env, gone_hashes);
    lemma_names_in_cache(env);
    let now = after_upsert(files, env, e, data, max);
    assert(removed.contains_key(p) <==> stored.contains_key(p) && !is_path_of(env, gone_hashes, p))
        by {
        if !is_path_of(env, gone_hashes, p) {
            assert forall|i: int| 0 <= i < gone_hashes.len() implies p != env.entry_path(
                #[trigger] gone_hashes[i],
            ) by {}
        }
    }
    assert(p != env.index_path() && p != env.new_index_path() ==> (now.contains_key(p)
        <==> removed.contains_key(p)));
}

// ---------------------------------------------------------------------------------------------
// Laws
// ---------------------------------------------------------------------------------------------

/// The index and the image after an upsert: the index is new, nothing is left of the file in which
/// it was written first, and the files of the image are what they were.
pub proof fn law_files_after_upsert(
    files: Files,
    env: EnvironmentView,
    e: EntryView,
    data: Seq<u8>,
    max: nat,
)
    requires
        names_a_file(e.hash),
        drops_plain_names(files, env, e, max),
    ensures
        ({
            let now = after_upsert(files, env, e, data, max);
            &&& bytes_at(now, env.index_path()) == Some(
                encode_utf8(index_text_of(kept_with(files, env, e, max))),
            )
            &&& bytes_at(now, env.new_index_path()) is None
            &&& bytes_at(now, env.image_data_path()) == bytes_at(files, env.image_data_path())
            &&& bytes_at(now, env.image_meta_path()) == bytes_at(files, env.image_meta_path())
        }),
{
    lemma_names_in_cache(env);
    lemma_entry_path_is_its_own(env, e.hash);
    lemma_dropped_paths(files, env, e, max);
    lemma_path_after_upsert(files, env, e, data, max, env.index_path());
    lemma_path_after_upsert(files, env, e, data, max, env.new_index_path());
    lemma_path_after_upsert(files, env, e, data, max, env.image_data_path());
    lemma_path_after_upsert(files, env, e, data, max, env.image_meta_path());
}

/// The operations of an upsert, one after the other, are the upsert.
pub proof fn law_upsert_is_its_operations(
    files: Files,
    env: EnvironmentView,
    e: EntryView,
    data: Seq<u8>,
    max: nat,
)
    requires
        names_a_file(e.hash),
    ensures
        after_ops(files, all_upsert_ops(files, env, e, data, max)) == after_upsert(
            files,
            env,
            e,
            data,
            max,
        ),
{
    let exists = files.contains_key(env.entry_path(e.hash));
    let store = store_entry_ops(env, e.hash, data, exists);
    let change = upsert_ops(env, history(files, env), e, max);
    lemma_ensure_dirs(files, env);
    lemma_store_entry(files, env, e.hash, data);
    lemma_ops_in_a_row(files, ensure_dirs_ops(env), store);
    lemma_ops_in_a_row(files, ensure_dirs_ops(env) + store, change);
}

/// What was put into the history is what is read from it: the entry at its head, the others behind
/// it in their order, none of the same hash as the new one, and no more than `max` in all. Only a
/// carriage return at the end of a preview is lost; where no preview that stays has one, all is read
/// as it was put.
pub proof fn law_history_after_upsert(
    files: Files,
    env: EnvironmentView,
    e: EntryView,
    data: Seq<u8>,
    max: nat,
)
    requires
        names_a_file(e.hash),
        max == 0 || e.takes_one_line(),
    ensures
        history(after_upsert(files, env, e, data, max), env) == all_reread(
            kept_with(files, env, e, max),
        ),
        all_fit(kept_with(files, env, e, max)) ==> history(
            after_upsert(files, env, e, data, max),
            env,
        ) == kept_with(files, env, e, max),
        all_fit(history(files, env)) && e.fits_index() ==> all_fit(kept_with(files, env, e, max)),
{
    broadcast use vstd::utf8::encode_utf8_decode_utf8, vstd::utf8::encode_utf8_valid_utf8;

    let entries = history(files, env);
    let all = with_entry(entries, e);
    let now_entries = kept_with(files, env, e, max);
    lemma_path_after_upsert(files, env, e, data, max, env.index_path());
    law_read_entries_take_one_line(text_at(files, env.index_path()));
    lemma_with_entry(entries, e);
    assert forall|i: int| 0 <= i < now_entries.len() implies (
    #[trigger] now_entries[i]).takes_one_line() by {
        assert(now_entries[i] == all[i]);
        if i > 0 {
            lemma_behind_the_head(entries, e, i);
            let j = choose|j: int| 0 <= j < entries.len() && entries[j] == all[i];
            assert(entries[j].takes_one_line());
        }
    }
    law_index_gives_entries_back(now_entries);
    let now = after_upsert(files, env, e, data, max);
    assert(bytes_at(now, env.index_path()) == Some(encode_utf8(index_text_of(now_entries))));
    if all_fit(entries) && e.fits_index() {
        assert forall|i: int| 0 <= i < now_entries.len() implies (
        #[trigger] now_entries[i]).fits_index() by {
            assert(now_entries[i] == all[i]);
        }
    }
}

/// The files of the entries after an upsert: those of the entries that drop out are gone, the new
/// entry's file holds its bytes, byte for byte, unless there was one, which then stays, and all
/// others are what they were. The new entry does not drop out if any entry is kept.
pub proof fn law_entry_bytes_after_upsert(
    files: Files,
    env: EnvironmentView,
    e: EntryView,
    data: Seq<u8>,
    max: nat,
)
    requires
        names_a_file(e.hash),
        drops_plain_names(files, env, e, max),
    ensures
        ({
            let now = after_upsert(files, env, e, data, max);
            let gone = dropped_for(files, env, e, max);
            &&& forall|h: Seq<char>| #[trigger]
                names_a_file(h) ==> bytes_at(now, env.entry_path(h)) == (if gone.contains(h) {
                    None
                } else if h == e.hash && !files.contains_key(env.entry_path(h)) {
                    Some(data)
                } else {
                    bytes_at(files, env.entry_path(h))
                })
            &&& gone.contains(e.hash) <==> max == 0
        }),
{
    let now = after_upsert(files, env, e, data, max);
    let gone = dropped_for(files, env, e, max);
    lemma_dropped_paths(files, env, e, max);
    assert forall|h: Seq<char>| #[trigger] names_a_file(h) implies bytes_at(
        now,
        env.entry_path(h),
    ) == (if gone.contains(h) {
        None
    } else if h == e.hash && !files.contains_key(env.entry_path(h)) {
        Some(data)
    } else {
        bytes_at(files, env.entry_path(h))
    }) by {
        lemma_entry_path_is_its_own(env, h);
        lemma_path_after_upsert(files, env, e, data, max, env.entry_path(h));
        if env.entry_path(h) == env.entry_path(e.hash) {
            lemma_entry_paths_differ(env, h, e.hash);
        }
    }
}

/// A new entry can be read back byte for byte, whatever bytes they are, if there was no file for it
/// and the history keeps any entry. Index and entry files need not agree.
pub proof fn law_new_entry_can_be_read(
    files: Files,
    env: EnvironmentView,
    e: EntryView,
    data: Seq<u8>,
    max: nat,
)
    requires
        names_a_file(e.hash),
        drops_plain_names(files, env, e, max),
        max > 0,
        !files.contains_key(env.entry_path(e.hash)),
    ensures
        bytes_at(after_upsert(files, env, e, data, max), env.entry_path(e.hash)) == Some(data),
{
    law_entry_bytes_after_upsert(files, env, e, data, max);
}

/// Nothing is dropped that the limit leaves room for: where the entry and those of other hashes are
/// no more than the limit, each of them is still listed, and the files of all of them are what they
/// were.
pub proof fn law_history_keeps_what_there_is_room_for(
    files: Files,
    env: EnvironmentView,
    e: EntryView,
    data: Seq<u8>,
    max: nat,
)
    requires
        names_a_file(e.hash),
        e.fits_index(),
        all_fit(history(files, env)),
        1 + without_hash(history(files, env), e.hash).len() <= max,
    ensures
        ({
            let now = after_upsert(files, env, e, data, max);
            let old = history(files, env);
            &&& history(now, env).len() == 1 + without_hash(old, e.hash).len()
            &&& forall|i: int|
                0 <= i < old.len() && old[i].hash != e.hash ==> history(now, env).contains(
                    #[trigger] old[i],
                )
            &&& forall|h: Seq<char>| #[trigger]
                names_a_file(h) && h != e.hash ==> bytes_at(now, env.entry_path(h)) == bytes_at(
                    files,
                    env.entry_path(h),
                )
        }),
{
    law_upsert(history(files, env), e, max);
    law_history_after_upsert(files, env, e, data, max);
    law_entry_bytes_after_upsert(files, env, e, data, max);
}

/// What a second upsert of the same entry writes and drops: the same index, and nothing, but for the
/// entry itself where no entry is kept.
proof fn lemma_second_upsert(
    files: Files,
    env: EnvironmentView,
    e: EntryView,
    data: Seq<u8>,
    max: nat,
)
    requires
        names_a_file(e.hash),
        all_fit(kept_with(files, env, e, max)),
    ensures
        ({
            let once = after_upsert(files, env, e, data, max);
            &&& kept_with(once, env, e, max) == kept_with(files, env, e, max)
            &&& dropped_for(once, env, e, max) == (if max > 0 {
                seq![]
            } else {
                seq![e.hash]
            })
        }),
{
    let entries = history(files, env);
    let all = with_entry(entries, e);
    let once = after_upsert(files, env, e, data, max);
    assert(all[0] == e);
    if max > 0 {
        assert(kept(all, max)[0] == e);
        assert(e.takes_one_line());
    }
    law_history_after_upsert(files, env, e, data, max);
    law_upsert_again_changes_nothing(entries, e, max);
    if max > 0 {
        assert(with_entry(kept(all, max), e).len() <= max);
        assert(dropped_for(once, env, e, max) =~= seq![]);
    } else {
        assert(kept(all, max) =~= seq![]);
        assert(with_entry(seq![], e) =~= seq![e]) by {
            reveal(Seq::filter);
        }
        assert(dropped_for(once, env, e, max) =~= seq![e.hash]);
    }
}

/// What a path holds after a second upsert of the same entry: what it held after the first.
proof fn lemma_file_after_second_upsert(
    files: Files,
    env: EnvironmentView,
    e: EntryView,
    data: Seq<u8>,
    again: Seq<u8>,
    max: nat,
    p: Seq<u8>,
)
    requires
        names_a_file(e.hash),
        all_fit(kept_with(files, env, e, max)),
        drops_plain_names(files, env, e, max),
    ensures
        ({
            let once = after_upsert(files, env, e, data, max);
            bytes_at(after_upsert(once, env, e, again, max), p) == bytes_at(once, p)
        }),
{
    let once = after_upsert(files, env, e, data, max);
    let gone = dropped_for(files, env, e, max);
    let gone_again = dropped_for(once, env, e, max);
    lemma_second_upsert(files, env, e, data, max);
    lemma_entry_path_is_its_own(env, e.hash);
    lemma_dropped_paths(files, env, e, max);
    lemma_path_after_upsert(files, env, e, data, max, p);
    lemma_path_after_upsert(once, env, e, again, max, p);
    assert(names_a_file(e.hash));
    if max == 0 {
        assert(is_path_of(env, gone, env.entry_path(e.hash)));
        assert(gone_again[0] == e.hash);
        assert(is_path_of(env, gone_again, p) <==> p == env.entry_path(e.hash));
    } else {
        assert(!is_path_of(env, gone_again, p));
    }
}

/// Putting the same entry, with any bytes, into the history a second time changes no file: a copy
/// of what was copied last adds nothing. What stays must survive the index.
pub proof fn law_upsert_again_changes_no_file(
    files: Files,
    env: EnvironmentView,
    e: EntryView,
    data: Seq<u8>,
    again: Seq<u8>,
    max: nat,
)
    requires
        names_a_file(e.hash),
        all_fit(kept_with(files, env, e, max)),
        drops_plain_names(files, env, e, max),
    ensures
        after_upsert(after_upsert(files, env, e, data, max), env, e, again, max) == after_upsert(
            files,
            env,
            e,
            data,
            max,
        ),
{
    let once = after_upsert(files, env, e, data, max);
    let twice = after_upsert(once, env, e, again, max);
    assert forall|p: Seq<u8>|
        (#[trigger] twice.contains_key(p) <==> once.contains_key(p)) && (twice.contains_key(p)
            ==> twice[p] == once[p]) by {
        lemma_file_after_second_upsert(files, env, e, data, again, max, p);
    }
    assert(twice =~= once);
}

/// The bytes of the entries in a cache that agrees, after an upsert: every entry that is listed has
/// its bytes, those that were copied, or those that were there under the same hash before; and no
/// other entry has a file.
pub proof fn law_listed_entries_have_their_bytes(
    files: Files,
    env: EnvironmentView,
    e: EntryView,
    data: Seq<u8>,
    max: nat,
)
    requires
        names_a_file(e.hash),
        e.fits_index(),
        cache_agrees(files, env),
    ensures
        ({
            let now = after_upsert(files, env, e, data, max);
            &&& forall|h: Seq<char>| #[trigger]
                names_a_file(h) && lists(history(now, env), h) ==> bytes_at(now, env.entry_path(h))
                    == Some(
                    if files.contains_key(env.entry_path(h)) {
                        files[env.entry_path(h)]
                    } else {
                        data
                    },
                )
            &&& forall|h: Seq<char>| #[trigger]
                names_a_file(h) && !lists(history(now, env), h) ==> bytes_at(
                    now,
                    env.entry_path(h),
                ) is None
        }),
{
    lemma_agreeing_cache_after_upsert(files, env, e, data, max);
}

/// Index and entry files keep agreeing: every entry in the index has its file, and every entry file
/// is in the index, whatever is copied.
pub proof fn law_cache_keeps_agreeing(
    files: Files,
    env: EnvironmentView,
    e: EntryView,
    data: Seq<u8>,
    max: nat,
)
    requires
        names_a_file(e.hash),
        e.fits_index(),
        cache_agrees(files, env),
    ensures
        cache_agrees(after_upsert(files, env, e, data, max), env),
{
    lemma_agreeing_cache_after_upsert(files, env, e, data, max);
}

/// A cache without any file agrees with itself.
pub proof fn law_empty_cache_agrees(env: EnvironmentView)
    ensures
        cache_agrees(Map::empty(), env),
{
    let files: Files = Map::empty();
    assert(history(files, env) =~= seq![]);
}

/// An entry is in the history either before those that drop out, or among them, if no hash occurs
/// twice.
proof fn lemma_kept_or_dropped(all: Seq<EntryView>, max: nat, h: Seq<char>)
    requires
        hashes_differ(all),
    ensures
        lists(kept(all, max), h) <==> lists(all, h) && !dropped(all, max).contains(h),
{
    let now = kept(all, max);
    let gone = dropped(all, max);
    if lists(now, h) {
        let i = choose|i: int| 0 <= i < now.len() && (#[trigger] now[i]).hash == h;
        assert(all[i].hash == h);
        if gone.contains(h) {
            let k = choose|k: int| 0 <= k < gone.len() && gone[k] == h;
            assert(all[all.len() - 1 - k].hash == h);
            assert(all[i].hash != all[all.len() - 1 - k].hash);
        }
    } else if lists(all, h) {
        let j = choose|j: int| 0 <= j < all.len() && (#[trigger] all[j]).hash == h;
        if j < now.len() {
            assert(now[j].hash == h);
        }
        assert(gone[all.len() - 1 - j] == h);
    }
}

/// A cache that agrees, after an upsert: it agrees again, and each entry that is listed has its
/// bytes.
proof fn lemma_agreeing_cache_after_upsert(
    files: Files,
    env: EnvironmentView,
    e: EntryView,
    data: Seq<u8>,
    max: nat,
)
    requires
        names_a_file(e.hash),
        e.fits_index(),
        cache_agrees(files, env),
    ensures
        ({
            let now = after_upsert(files, env, e, data, max);
            &&& cache_agrees(now, env)
            &&& forall|h: Seq<char>| #[trigger]
                names_a_file(h) && lists(history(now, env), h) ==> now[env.entry_path(h)]
                    == if files.contains_key(env.entry_path(h)) {
                    files[env.entry_path(h)]
                } else {
                    data
                }
        }),
{
    let entries = history(files, env);
    let all = with_entry(entries, e);
    let now_entries = kept_with(files, env, e, max);
    let now = after_upsert(files, env, e, data, max);
    lemma_plain_history(files, env, e, max);
    law_history_after_upsert(files, env, e, data, max);
    law_entry_bytes_after_upsert(files, env, e, data, max);
    lemma_with_entry(entries, e);
    assert forall|h: Seq<char>| #[trigger] names_a_file(h) implies (now.contains_key(
        env.entry_path(h),
    ) <==> lists(now_entries, h)) && (lists(now_entries, h) ==> now[env.entry_path(h)]
        == if files.contains_key(env.entry_path(h)) {
        files[env.entry_path(h)]
    } else {
        data
    }) by {
        lemma_kept_or_dropped(all, max, h);
        assert(bytes_at(now, env.entry_path(h)) is Some <==> now.contains_key(env.entry_path(h)));
        assert(lists(all, h) <==> lists(entries, h) || h == e.hash);
    }
    assert forall|i: int, j: int| 0 <= i < j < now_entries.len() implies (
    #[trigger] now_entries[i]).hash != (#[trigger] now_entries[j]).hash by {
        assert(all[i].hash != all[j].hash);
    }
    assert forall|i: int| 0 <= i < now_entries.len() implies names_a_file(
        (#[trigger] now_entries[i]).hash,
    ) by {
        assert(now_entries[i] == all[i]);
        if i > 0 {
            lemma_behind_the_head(entries, e, i);
            let j = choose|j: int| 0 <= j < entries.len() && entries[j] == all[i];
            assert(names_a_file(entries[j].hash));
        }
    }
}

/// An upsert that is cut short leaves the history as it was, whichever operation it is that fails:
/// none but the last touches the index. A write that fails may leave anything in the file that it
/// was to write, and whether a removal succeeds does not matter.
pub proof fn law_interrupted_upsert_keeps_the_history(
    files: Files,
    env: EnvironmentView,
    e: EntryView,
    data: Seq<u8>,
    max: nat,
    done: int,
    torn: Seq<u8>,
)
    requires
        names_a_file(e.hash),
        drops_plain_names(files, env, e, max),
        0 <= done < all_upsert_ops(files, env, e, data, max).len(),
    ensures
        ({
            let ops = all_upsert_ops(files, env, e, data, max);
            let now = after_ops(files, ops.take(done));
            &&& history(now, env) == history(files, env)
            &&& ops[done] matches FileOpView::Write { path, data: whole } ==> history(
                now.insert(path, torn),
                env,
            ) == history(files, env)
            &&& forall|i: int|
                0 <= i < ops.len() - 1 ==> !touches(#[trigger] ops[i], env.index_path())
        }),
{
    let p = env.index_path();
    let hashes = dropped_for(files, env, e, max);
    let gone = remove_entries_ops(env, hashes);
    let write = write_index_ops(env, kept_with(files, env, e, max));
    let store = store_entry_ops(
        env,
        e.hash,
        data,
        files.contains_key(env.entry_path(e.hash)),
    );
    let head = ensure_dirs_ops(env) + store;
    let ops = all_upsert_ops(files, env, e, data, max);
    lemma_entry_path_is_its_own(env, e.hash);
    lemma_names_in_cache(env);
    lemma_dropped_paths(files, env, e, max);
    assert(ops =~= head + gone + write);
    assert forall|i: int| 0 <= i < ops.len() - 1 implies !touches(#[trigger] ops[i], p) by {
        let n = head.len() as int;
        let m = gone.len() as int;
        if i < n {
            assert(ops[i] == head[i]);
        } else if i < n + m {
            assert(ops[i] == gone[i - n]);
            assert(env.entry_path(hashes[i - n]) != p);
        } else {
            assert(ops[i] == write[i - n - m]);
        }
    }
    let part = ops.take(done);
    assert forall|i: int| 0 <= i < part.len() implies !touches(#[trigger] part[i], p) by {
        assert(part[i] == ops[i]);
    }
    lemma_untouched(files, part, p);
    if done == ops.len() - 1 {
        assert(ops[done] == write[2]);
    } else {
        assert(!touches(ops[done], p));
    }
}

/// The image that was saved last is the one that is read, under its mime type without white space
/// around it. The history is not touched.
pub proof fn law_saved_image_comes_back(
    files: Files,
    env: EnvironmentView,
    mime: Seq<char>,
    data: Seq<u8>,
)
    ensures
        image(after_save_image(files, env, mime, data), env) == Some((trimmed(mime), data)),
        history(after_save_image(files, env, mime, data), env) == history(files, env),
        cache_agrees(files, env) ==> cache_agrees(after_save_image(files, env, mime, data), env),
{
    broadcast use vstd::utf8::encode_utf8_decode_utf8, vstd::utf8::encode_utf8_valid_utf8;

    let write_data = FileOpView::Write { path: env.image_data_path(), data };
    let write_meta = FileOpView::Write { path: env.image_meta_path(), data: encode_utf8(mime) };
    lemma_ops_in_a_row(files, ensure_dirs_ops(env), seq![write_data, write_meta]);
    lemma_ensure_dirs(files, env);
    lemma_two_ops(files, write_data, write_meta);
    lemma_names_in_cache(env);
    let now = after_save_image(files, env, mime, data);
    if cache_agrees(files, env) {
        let entries = history(files, env);
        assert forall|h: Seq<char>| #[trigger] names_a_file(h) implies (now.contains_key(
            env.entry_path(h),
        ) <==> lists(entries, h)) by {
            lemma_entry_path_is_its_own(env, h);
        }
    }
}

/// Saving an image leaves the history as it was, also where it is cut short, whatever a write that
/// fails leaves in the file that it was to write.
pub proof fn law_interrupted_save_keeps_the_history(
    files: Files,
    env: EnvironmentView,
    mime: Seq<char>,
    data: Seq<u8>,
    done: int,
    torn: Seq<u8>,
)
    requires
        0 <= done < save_image_ops(env, mime, data).len(),
    ensures
        ({
            let ops = save_image_ops(env, mime, data);
            let now = after_ops(files, ops.take(done));
            &&& history(now, env) == history(files, env)
            &&& ops[done] matches FileOpView::Write { path, data: whole } ==> history(
                now.insert(path, torn),
                env,
            ) == history(files, env)
        }),
{
    let p = env.index_path();
    let ops = save_image_ops(env, mime, data);
    let part = ops.take(done);
    lemma_names_in_cache(env);
    assert forall|i: int| 0 <= i < ops.len() implies !touches(#[trigger] ops[i], p) by {}
    assert forall|i: int| 0 <= i < part.len() implies !touches(#[trigger] part[i], p) by {
        assert(part[i] == ops[i]);
    }
    lemma_untouched(files, part, p);
    assert(!touches(ops[done], p));
}

/// Saving an image leaves the files of all entries as they are.
pub proof fn law_image_keeps_the_entries(
    files: Files,
    env: EnvironmentView,
    mime: Seq<char>,
    data: Seq<u8>,
)
    ensures
        forall|h: Seq<char>| #[trigger]
            names_a_file(h) ==> bytes_at(
                after_save_image(files, env, mime, data),
                env.entry_path(h),
            ) == bytes_at(files, env.entry_path(h)),
{
    let write_data = FileOpView::Write { path: env.image_data_path(), data };
    let write_meta = FileOpView::Write { path: env.image_meta_path(), data: encode_utf8(mime) };
    lemma_ops_in_a_row(files, ensure_dirs_ops(env), seq![write_data, write_meta]);
    lemma_ensure_dirs(files, env);
    lemma_two_ops(files, write_data, write_meta);
    assert forall|h: Seq<char>| #[trigger] names_a_file(h) implies bytes_at(
        after_save_image(files, env, mime, data),
        env.entry_path(h),
    ) == bytes_at(files, env.entry_path(h)) by {
        lemma_entry_path_is_its_own(env, h);
    }
}

/// Copying text leaves the last image as it is.
pub proof fn law_upsert_keeps_the_image(
    files: Files,
    env: EnvironmentView,
    e: EntryView,
    data: Seq<u8>,
    max: nat,
)
    requires
        names_a_file(e.hash),
        drops_plain_names(files, env, e, max),
    ensures
        image(after_upsert(files, env, e, data, max), env) == image(files, env),
{
    let now = after_upsert(files, env, e, data, max);
    law_files_after_upsert(files, env, e, data, max);
    assert(text_at(now, env.image_meta_path()) == text_at(files, env.image_meta_path()));
}

/// The hash of any bytes can be the name of a file and survives the index.
pub proof fn law_hash_names_a_file(data: Seq<u8>)
    ensures
        names_a_file(hash_of(data)),
        !hash_of(data).contains('\t'),
        !hash_of(data).contains('\n'),
{
    let h = hash_of(data);
    law_hash_is_hexadecimal(data);
    assert(is_hex_digit(h[0]));
    assert forall|c: char| c == '/' || c == '\t' || c == '\n' implies !h.contains(c) by {
        if h.contains(c) {
            let i = choose|i: int| 0 <= i < h.len() && h[i] == c;
            assert(is_hex_digit(h[i]));
        }
    }
}

}
