//! The laws of the clipboard manager as a whole: what was copied can be found, selected and pasted.
use vstd::prelude::*;

use crate::capture::{
    after_contents, text_entry, text_to_keep, CaptureActionView, CaptureView, CapturedTextView,
    TEXT_MIME,
};
use crate::fetch::{after_pieces, after_reply, FetchStateView, FetchView};
use crate::hash::{hash_of, is_hex_digit, law_hash_is_hexadecimal};
use crate::image::LAST_IMAGE_ID;
use crate::index::{all_fit, mime_of, with_entry, EntryView};
use crate::ipc::{
    command_of, law_select_reaches_the_daemon, request_of, select_line, selected, CommandView,
};
use crate::keep::{after_steps, law_steps_make_the_upsert, upsert_begun, UpsertActionView};
use crate::model::{
    after_save_image, after_upsert, bytes_at, cache_agrees, drops_plain_names, history, image,
    kept_with, law_cache_keeps_agreeing, law_entry_bytes_after_upsert, law_hash_names_a_file,
    law_history_after_upsert, law_listed_entries_have_their_bytes, law_saved_image_comes_back,
    law_upsert_again_changes_no_file, lemma_behind_the_head, lists, names_a_file, text_at,
    Files,
};
use crate::paths::EnvironmentView;
use crate::preview::text_preview;
use crate::serve::{content_target, pieces, request_plan, OwnedView};
use crate::text::trimmed;
use crate::x11::{Atom, Atoms, PropertyReplyView, SelectionRequest, Window, XRequestView};

verus! {

/// The files once a text that was copied is in the history.
pub open spec fn after_copy(
    files: Files,
    env: EnvironmentView,
    t: CapturedTextView,
    max: nat,
) -> Files {
    after_upsert(files, env, text_entry(t), t.data, max)
}

/// Whether every entry file is named by the hash of its bytes.
pub open spec fn names_are_hashes(files: Files, env: EnvironmentView) -> bool {
    forall|h: Seq<char>| #[trigger]
        names_a_file(h) && files.contains_key(env.entry_path(h)) ==> hash_of(
            files[env.entry_path(h)],
        ) == h
}

/// Whatever text is copied: its entry survives the index, and its hash can be the name of a file.
pub proof fn law_copied_text_can_be_kept(data: Seq<u8>)
    ensures
        text_to_keep(data) matches Some(t) ==> text_entry(t).fits_index() && names_a_file(t.hash),
{
    if let Some(t) = text_to_keep(data) {
        law_hash_names_a_file(data);
        crate::preview::law_preview_is_one_line(vstd::utf8::decode_utf8(data));
        reveal_strlit("text/plain");
        assert(TEXT_MIME@ == "text/plain"@);
        assert(t.preview.len() > 0 ==> t.preview.contains(t.preview.last()));
        law_hash_is_hexadecimal(data);
    }
}

/// A text that was fetched is kept as plain text, under the hash of its bytes and untrimmed:
/// whoever does as the capture and then the upsert say has put it into the history, and the last
/// image is what it was.
pub proof fn law_captured_text_is_stored(
    files: Files,
    env: EnvironmentView,
    data: Seq<u8>,
    type_: Atom,
    t: CapturedTextView,
    max: nat,
)
    requires
        text_to_keep(data) == Some(t),
        drops_plain_names(files, env, text_entry(t), max),
    ensures
        after_contents(CaptureView::AwaitText, Some((data, type_))).1
            == (CaptureActionView::KeepText { text: t }),
        t.data == data,
        text_entry(t) == (EntryView {
            hash: hash_of(data),
            mime: "text/plain"@,
            preview: text_preview(vstd::utf8::decode_utf8(data)),
        }),
        ({
            let (u, action) = upsert_begun(env, text_entry(t), t.data, max);
            after_steps(files, env, u, action, 5) == (
                after_copy(files, env, t, max),
                UpsertActionView::Finish,
            )
        }),
        image(after_copy(files, env, t, max), env) == image(files, env),
{
    law_copied_text_can_be_kept(data);
    law_steps_make_the_upsert(files, env, text_entry(t), t.data, max);
    crate::model::law_upsert_keeps_the_image(files, env, text_entry(t), t.data, max);
}

/// A text that is copied stands at the head of the history that is read next, once, whatever was in
/// the cache, and there are no more entries than there may be.
pub proof fn law_copied_text_heads_the_history(
    files: Files,
    env: EnvironmentView,
    data: Seq<u8>,
    t: CapturedTextView,
    max: nat,
)
    requires
        text_to_keep(data) == Some(t),
    ensures
        ({
            let now = history(after_copy(files, env, t, max), env);
            &&& now.len() <= max
            &&& max > 0 ==> now.len() > 0 && now[0] == text_entry(t)
            &&& forall|i: int| 0 < i < now.len() ==> (#[trigger] now[i]).hash != t.hash
        }),
{
    let e = text_entry(t);
    let written = kept_with(files, env, e, max);
    let now = history(after_copy(files, env, t, max), env);
    law_copied_text_can_be_kept(data);
    law_history_after_upsert(files, env, e, t.data, max);
    crate::index::law_upsert(history(files, env), e, max);
    assert forall|i: int| 0 < i < now.len() implies (#[trigger] now[i]).hash != t.hash by {
        assert(now[i] == written[i].reread());
    }
}

/// A text that is copied twice in a row is kept as if it were copied once: the second copy changes
/// no file. What stays in the history must survive the index, as all copied texts do.
pub proof fn law_second_copy_changes_nothing(
    files: Files,
    env: EnvironmentView,
    data: Seq<u8>,
    t: CapturedTextView,
    max: nat,
)
    requires
        text_to_keep(data) == Some(t),
        all_fit(kept_with(files, env, text_entry(t), max)),
        drops_plain_names(files, env, text_entry(t), max),
    ensures
        after_copy(after_copy(files, env, t, max), env, t, max) == after_copy(files, env, t, max),
{
    law_copied_text_can_be_kept(data);
    law_upsert_again_changes_no_file(files, env, text_entry(t), t.data, t.data, max);
}

/// Index and entry files agree from the first copy on, and each file is named by the hash of its
/// bytes.
pub proof fn law_copies_keep_the_cache_in_order(
    files: Files,
    env: EnvironmentView,
    data: Seq<u8>,
    t: CapturedTextView,
    max: nat,
)
    requires
        text_to_keep(data) == Some(t),
        cache_agrees(files, env),
        names_are_hashes(files, env),
    ensures
        cache_agrees(after_copy(files, env, t, max), env),
        names_are_hashes(after_copy(files, env, t, max), env),
{
    law_copied_text_can_be_kept(data);
    let e = text_entry(t);
    let now = after_copy(files, env, t, max);
    law_cache_keeps_agreeing(files, env, e, data, max);
    law_listed_entries_have_their_bytes(files, env, e, data, max);
    law_history_after_upsert(files, env, e, data, max);
    assert forall|h: Seq<char>| #[trigger]
        names_a_file(h) && now.contains_key(env.entry_path(h)) implies hash_of(
        now[env.entry_path(h)],
    ) == h by {
        assert(lists(history(now, env), h));
        assert(bytes_at(now, env.entry_path(h)) is Some);
        if !files.contains_key(env.entry_path(h)) {
            assert(!lists(history(files, env), h));
            let entries = history(now, env);
            let i = choose|i: int| 0 <= i < entries.len() && (#[trigger] entries[i]).hash == h;
            crate::model::lemma_with_entry(history(files, env), e);
            assert(with_entry(history(files, env), e)[i].hash == h);
            assert(lists(with_entry(history(files, env), e), h));
            assert(h == e.hash);
        }
    }
}

/// Whoever selects a text that was copied gets it back as text, byte for byte, whether or not index
/// and entry files agreed; where there was a file for its hash, they get the bytes of that, which
/// have the same hash if files are named by their hashes.
pub proof fn law_copied_text_can_be_selected(
    files: Files,
    env: EnvironmentView,
    data: Seq<u8>,
    t: CapturedTextView,
    max: nat,
)
    requires
        text_to_keep(data) == Some(t),
        max > 0,
        drops_plain_names(files, env, text_entry(t), max),
    ensures
        ({
            let now = after_copy(files, env, t, max);
            let path = env.entry_path(t.hash);
            let bytes = if files.contains_key(path) {
                files[path]
            } else {
                data
            };
            &&& selected(
                t.hash,
                image(now, env),
                bytes_at(now, path),
                text_at(now, env.index_path()),
            ) == Ok::<(Seq<char>, Seq<u8>), crate::ipc::SelectError>((TEXT_MIME@, bytes))
            &&& names_are_hashes(files, env) ==> hash_of(bytes) == hash_of(data)
        }),
{
    let now = after_copy(files, env, t, max);
    law_copied_text_can_be_kept(data);
    law_copied_text_heads_the_history(files, env, data, t, max);
    law_entry_bytes_after_upsert(files, env, text_entry(t), data, max);
    law_hash_is_hexadecimal(data);
    reveal_strlit("last_image");
    assert(LAST_IMAGE_ID@ == "last_image"@);
    assert(history(now, env)[0] == text_entry(t));
    assert(mime_of(history(now, env), t.hash) == Some(TEXT_MIME@));
    assert(names_a_file(t.hash));
}

/// The hash of a text that was copied reaches the daemon as it is, when a client asks for it.
pub proof fn law_hash_reaches_the_daemon(data: Seq<u8>)
    ensures
        request_of(select_line(hash_of(data))) matches Some(request) && command_of(request)
            == (CommandView::Select { id: hash_of(data) }),
{
    let h = hash_of(data);
    law_hash_is_hexadecimal(data);
    assert(is_hex_digit(h[0]));
    assert(is_hex_digit(h[31]));
    law_select_reaches_the_daemon(h);
}

/// Whoever selects the last image gets the image that was copied last, byte for byte.
pub proof fn law_copied_image_can_be_selected(
    files: Files,
    env: EnvironmentView,
    mime: Seq<char>,
    data: Seq<u8>,
    entry: Option<Seq<u8>>,
    index: Option<Seq<char>>,
)
    ensures
        selected(
            LAST_IMAGE_ID@,
            image(after_save_image(files, env, mime, data), env),
            entry,
            index,
        ) == Ok::<(Seq<char>, Seq<u8>), crate::ipc::SelectError>((trimmed(mime), data)),
{
    law_saved_image_comes_back(files, env, mime, data);
}

/// Where the last of some requests puts something: the window, the property and the type.
pub open spec fn put_last(requests: Seq<XRequestView>) -> Option<(Window, Atom, Atom)> {
    match requests.last() {
        XRequestView::ReplaceNumber { window, property, type_, .. } => Some(
            (window, property, type_),
        ),
        XRequestView::ReplaceBytes { window, property, type_, .. } => Some(
            (window, property, type_),
        ),
        _ => None,
    }
}

/// What one daemon serves, another fetches, byte for byte: at once where the contents are small,
/// and piece by piece where they are large.
pub proof fn law_served_contents_are_fetched(
    f: FetchView,
    ev: SelectionRequest,
    owned: OwnedView,
    atoms: Atoms,
    announcement: PropertyReplyView,
    replies: Seq<PropertyReplyView>,
)
    requires
        f.state is AwaitFirst,
        f.incr == atoms.incr,
        f.target == ev.target,
        ev.target != atoms.incr,
        ev.target != atoms.targets,
        content_target(owned, atoms, ev.target),
        match request_plan(ev, Some(owned), atoms).transfer {
            None => request_plan(ev, Some(owned), atoms).requests == seq![
                XRequestView::ReplaceBytes {
                    window: ev.requestor,
                    property: crate::serve::answer_property(ev),
                    type_: announcement.type_,
                    bytes: announcement.value,
                },
            ] && announcement.bytes_after == 0 && replies.len() == 0,
            Some(t) => put_last(request_plan(ev, Some(owned), atoms).requests) == Some(
                (ev.requestor, crate::serve::answer_property(ev), announcement.type_),
            ) && replies.len() == pieces(t).len() && (
            forall|i: int|
                0 <= i < replies.len() ==> (#[trigger] replies[i]).value == pieces(t)[i]
                    && replies[i].type_ == t.target),
        },
    ensures
        after_pieces(after_reply(f, announcement).0, replies) == f.with(
            FetchStateView::Done { contents: Some((owned.data, ev.target)) },
        ),
{
    let plan = request_plan(ev, Some(owned), atoms);
    match plan.transfer {
        None => {
            let q = XRequestView::ReplaceBytes {
                window: ev.requestor,
                property: crate::serve::answer_property(ev),
                type_: announcement.type_,
                bytes: announcement.value,
            };
            assert(plan.requests[0] == q);
            assert(plan.requests[0] == (XRequestView::ReplaceBytes {
                window: ev.requestor,
                property: crate::serve::answer_property(ev),
                type_: ev.target,
                bytes: owned.data,
            }));
            assert(announcement.type_ == ev.target);
            assert(announcement.value == owned.data);
        },
        Some(t) => {
            crate::serve::law_contents_are_served_whole(ev, owned, atoms);
            assert(announcement.type_ == atoms.incr);
            let next = after_reply(f, announcement).0;
            crate::fetch::law_sent_pieces_are_fetched_whole(next, t, replies);
        },
    }
}

/// Something that was copied and kept.
pub enum Copied {
    Text { data: Seq<u8> },
    Image { mime: Seq<char>, data: Seq<u8> },
}

/// The files after one copy.
pub open spec fn after_copied(
    files: Files,
    env: EnvironmentView,
    copied: Copied,
    max: nat,
) -> Files {
    match copied {
        Copied::Text { data } => match text_to_keep(data) {
            Some(t) => after_copy(files, env, t, max),
            None => files,
        },
        Copied::Image { mime, data } => after_save_image(files, env, mime, data),
    }
}

/// The files after some copies, one after the other, into an empty cache.
pub open spec fn after_all(env: EnvironmentView, copies: Seq<Copied>, max: nat) -> Files
    decreases copies.len(),
{
    if copies.len() == 0 {
        Map::empty()
    } else {
        after_copied(after_all(env, copies.drop_last(), max), env, copies.last(), max)
    }
}

/// The image among some copies that came last.
pub open spec fn last_copied_image(copies: Seq<Copied>) -> Option<(Seq<char>, Seq<u8>)>
    decreases copies.len(),
{
    if copies.len() == 0 {
        None
    } else {
        match copies.last() {
            Copied::Image { mime, data } => Some((trimmed(mime), data)),
            Copied::Text { .. } => last_copied_image(copies.drop_last()),
        }
    }
}

/// Whether each entry that is listed stands for a text that was copied, and its file holds such a
/// text, of the same hash.
pub open spec fn holds_copied_texts(
    files: Files,
    env: EnvironmentView,
    copies: Seq<Copied>,
) -> bool {
    forall|i: int|
        0 <= i < history(files, env).len() ==> {
            let e = #[trigger] history(files, env)[i];
            &&& was_copied(copies, e)
            &&& bytes_at(files, env.entry_path(e.hash)) matches Some(bytes) && copies.contains(
                Copied::Text { data: bytes },
            ) && hash_of(bytes) == e.hash
        }
}

/// Whether an entry stands for a text that was copied.
pub open spec fn was_copied(copies: Seq<Copied>, e: EntryView) -> bool {
    exists|data: Seq<u8>|
        #![trigger text_to_keep(data)]
        copies.contains(Copied::Text { data }) && (text_to_keep(data) matches Some(t)
            && text_entry(t) == e)
}

/// What holds the texts of some copies holds the texts of more.
proof fn lemma_copied_before(copies: Seq<Copied>, last: Copied, e: EntryView, bytes: Seq<u8>)
    ensures
        was_copied(copies, e) ==> was_copied(copies.push(last), e),
        copies.contains(Copied::Text { data: bytes }) ==> copies.push(last).contains(
            Copied::Text { data: bytes },
        ),
{
    let all = copies.push(last);
    assert forall|c: Copied| copies.contains(c) implies all.contains(c) by {
        let i = choose|i: int| 0 <= i < copies.len() && copies[i] == c;
        assert(all[i] == c);
    }
    if was_copied(copies, e) {
        let data = choose|data: Seq<u8>|
            #![trigger text_to_keep(data)]
            copies.contains(Copied::Text { data }) && (text_to_keep(data) matches Some(t)
                && text_entry(t) == e);
        assert(all.contains(Copied::Text { data }));
        assert(text_to_keep(data) is Some);
    }
}

/// One more text that is copied leaves each listed entry with a text that was copied.
proof fn lemma_one_more_text(
    files: Files,
    env: EnvironmentView,
    copies: Seq<Copied>,
    data: Seq<u8>,
    t: CapturedTextView,
    max: nat,
)
    requires
        text_to_keep(data) == Some(t),
        cache_agrees(files, env),
        names_are_hashes(files, env),
        holds_copied_texts(files, env, copies),
    ensures
        holds_copied_texts(
            after_copy(files, env, t, max),
            env,
            copies.push(Copied::Text { data }),
        ),
{
    let e = text_entry(t);
    let now = after_copy(files, env, t, max);
    let all = copies.push(Copied::Text { data });
    law_copied_text_can_be_kept(data);
    law_history_after_upsert(files, env, e, data, max);
    law_listed_entries_have_their_bytes(files, env, e, data, max);
    law_copies_keep_the_cache_in_order(files, env, data, t, max);
    let before = history(files, env);
    let entries = history(now, env);
    assert(all[copies.len() as int] == Copied::Text { data });
    assert forall|i: int| 0 <= i < entries.len() implies {
        let x = #[trigger] entries[i];
        &&& was_copied(all, x)
        &&& bytes_at(now, env.entry_path(x.hash)) matches Some(bytes) && all.contains(
            Copied::Text { data: bytes },
        ) && hash_of(bytes) == x.hash
    } by {
        let x = entries[i];
        let path = env.entry_path(x.hash);
        assert(x == with_entry(before, e)[i]);
        assert(names_a_file(x.hash));
        assert(lists(entries, x.hash));
        let bytes = if files.contains_key(path) {
            files[path]
        } else {
            data
        };
        assert(bytes_at(now, path) == Some(bytes));
        if i == 0 {
            assert(x == e);
            assert(text_to_keep(data) is Some);
            assert(was_copied(all, x));
        } else {
            lemma_behind_the_head(before, e, i);
            let j = choose|j: int| 0 <= j < before.len() && before[j] == x;
            assert(was_copied(copies, before[j]));
            lemma_copied_before(copies, Copied::Text { data }, x, bytes);
        }
        if files.contains_key(path) {
            assert(lists(before, x.hash));
            let j = choose|j: int| 0 <= j < before.len() && (#[trigger] before[j]).hash == x.hash;
            assert(bytes_at(files, env.entry_path(before[j].hash)) == Some(bytes));
            lemma_copied_before(copies, Copied::Text { data }, before[j], bytes);
        }
    }
}

/// One more image that is copied leaves each listed entry with its text.
proof fn lemma_one_more_image(
    files: Files,
    env: EnvironmentView,
    copies: Seq<Copied>,
    mime: Seq<char>,
    data: Seq<u8>,
)
    requires
        cache_agrees(files, env),
        holds_copied_texts(files, env, copies),
    ensures
        holds_copied_texts(
            after_save_image(files, env, mime, data),
            env,
            copies.push(Copied::Image { mime, data }),
        ),
{
    let last = Copied::Image { mime, data };
    let now = after_save_image(files, env, mime, data);
    law_saved_image_comes_back(files, env, mime, data);
    crate::model::law_image_keeps_the_entries(files, env, mime, data);
    let entries = history(now, env);
    assert forall|i: int| 0 <= i < entries.len() implies {
        let x = #[trigger] entries[i];
        &&& was_copied(copies.push(last), x)
        &&& bytes_at(now, env.entry_path(x.hash)) matches Some(bytes) && copies.push(last).contains(
            Copied::Text { data: bytes },
        ) && hash_of(bytes) == x.hash
    } by {
        let x = entries[i];
        assert(x == history(files, env)[i]);
        assert(names_a_file(x.hash));
        assert(bytes_at(now, env.entry_path(x.hash)) == bytes_at(files, env.entry_path(x.hash)));
        lemma_copied_before(copies, last, x, files[env.entry_path(x.hash)]);
    }
}

/// Whatever is copied, from the first copy on: index and entry files agree, each entry file is
/// named by the hash of its bytes, each entry of the history stands for a text that was copied and
/// its file holds such a text, the history holds no more than `max` entries, and the image slot
/// holds the image that was copied last.
pub proof fn law_cache_is_always_in_order(env: EnvironmentView, copies: Seq<Copied>, max: nat)
    ensures
        cache_agrees(after_all(env, copies, max), env),
        names_are_hashes(after_all(env, copies, max), env),
        holds_copied_texts(after_all(env, copies, max), env, copies),
        history(after_all(env, copies, max), env).len() <= max,
        image(after_all(env, copies, max), env) == last_copied_image(copies),
    decreases copies.len(),
{
    let now = after_all(env, copies, max);
    if copies.len() == 0 {
        crate::model::law_empty_cache_agrees(env);
        assert(history(now, env) =~= seq![]);
    } else {
        let earlier = copies.drop_last();
        law_cache_is_always_in_order(env, earlier, max);
        let before = after_all(env, earlier, max);
        assert(earlier.push(copies.last()) =~= copies);
        match copies.last() {
            Copied::Text { data } => match text_to_keep(data) {
                Some(t) => {
                    let e = text_entry(t);
                    law_copied_text_can_be_kept(data);
                    law_copies_keep_the_cache_in_order(before, env, data, t, max);
                    law_copied_text_heads_the_history(before, env, data, t, max);
                    lemma_one_more_text(before, env, earlier, data, t, max);
                    crate::model::lemma_plain_history(before, env, e, max);
                    crate::model::law_upsert_keeps_the_image(before, env, e, t.data, max);
                },
                None => {
                    let entries = history(before, env);
                    assert forall|i: int| 0 <= i < entries.len() implies {
                        let x = #[trigger] entries[i];
                        &&& was_copied(copies, x)
                        &&& bytes_at(before, env.entry_path(x.hash)) matches Some(bytes)
                            && copies.contains(Copied::Text { data: bytes }) && hash_of(bytes)
                            == x.hash
                    } by {
                        let x = entries[i];
                        lemma_copied_before(
                            earlier,
                            copies.last(),
                            x,
                            before[env.entry_path(x.hash)],
                        );
                    }
                },
            },
            Copied::Image { mime, data } => {
                law_saved_image_comes_back(before, env, mime, data);
                crate::model::law_image_keeps_the_entries(before, env, mime, data);
                lemma_one_more_image(before, env, earlier, mime, data);
            },
        }
    }
}

}
