//! The index of the history: one entry on a line, most recent first.
use vstd::prelude::*;
use vstd::slice::slice_subrange;

use crate::text::{
    each_with_newline, find_from, first_of, from_chars, lines, lines_of, push_chars, strings, texts,
    to_chars, with_newlines, without_cr,
};

verus! {

/// How many entries the history keeps unless told otherwise.
pub const DEFAULT_MAX_ITEMS: usize = 200;

/// An entry of the history.
#[derive(Debug, Clone)]
pub struct Entry {
    pub hash: String,
    pub mime: String,
    pub preview: String,
}

/// The mathematical content of an [`Entry`].
#[verifier::ext_equal]
pub struct EntryView {
    pub hash: Seq<char>,
    pub mime: Seq<char>,
    pub preview: Seq<char>,
}

impl View for Entry {
    type V = EntryView;

    open spec fn view(&self) -> EntryView {
        EntryView { hash: self.hash@, mime: self.mime@, preview: self.preview@ }
    }
}

/// The contents of some entries.
pub open spec fn entry_views(v: Seq<Entry>) -> Seq<EntryView> {
    Seq::new(v.len(), |i: int| v[i]@)
}

/// The line that stands for an entry: its three fields, with tabs between them.
pub open spec fn entry_line(e: EntryView) -> Seq<char> {
    e.hash + seq!['\t'] + e.mime + seq!['\t'] + e.preview
}

/// The entry that a line stands for. The hash ends at the first tab and must not be empty; the
/// mime type ends at the second; the rest, where there is any, is the preview.
pub open spec fn parsed_entry(line: Seq<char>) -> Option<EntryView> {
    let i = first_of(line, '\t');
    if i == 0 || i >= line.len() {
        None
    } else {
        let rest = line.skip(i + 1);
        let j = first_of(rest, '\t');
        Some(
            EntryView {
                hash: line.take(i),
                mime: rest.take(j),
                preview: if j < rest.len() {
                    rest.skip(j + 1)
                } else {
                    seq![]
                },
            },
        )
    }
}

/// The entries that some lines stand for. A line that stands for none is passed over.
pub open spec fn parsed_lines(lines: Seq<Seq<char>>) -> Seq<EntryView>
    decreases lines.len(),
{
    if lines.len() == 0 {
        seq![]
    } else {
        let before = parsed_lines(lines.drop_last());
        match parsed_entry(lines.last()) {
            Some(e) => before.push(e),
            None => before,
        }
    }
}

/// The entries of an index, given its text. An index that cannot be read has none.
pub open spec fn parsed_index(content: Option<Seq<char>>) -> Seq<EntryView> {
    match content {
        Some(text) => parsed_lines(lines_of(text)),
        None => seq![],
    }
}

/// The lines of an index.
pub open spec fn entry_lines(entries: Seq<EntryView>) -> Seq<Seq<char>> {
    Seq::new(entries.len(), |i: int| entry_line(entries[i]))
}

/// The text of an index.
pub open spec fn index_text_of(entries: Seq<EntryView>) -> Seq<char> {
    each_with_newline(entry_lines(entries))
}

/// The mime type of the first entry with the given hash.
pub open spec fn mime_of(entries: Seq<EntryView>, hash: Seq<char>) -> Option<Seq<char>>
    decreases entries.len(),
{
    if entries.len() == 0 {
        None
    } else if entries[0].hash == hash {
        Some(entries[0].mime)
    } else {
        mime_of(entries.skip(1), hash)
    }
}

/// The entries whose hash is another one.
pub open spec fn without_hash(entries: Seq<EntryView>, hash: Seq<char>) -> Seq<EntryView> {
    entries.filter(|e: EntryView| e.hash != hash)
}

/// The history with an entry at its head, before any is dropped. An entry with the same hash makes
/// way for it.
pub open spec fn with_entry(entries: Seq<EntryView>, e: EntryView) -> Seq<EntryView> {
    seq![e] + without_hash(entries, e.hash)
}

/// The first `max` entries.
pub open spec fn kept(entries: Seq<EntryView>, max: nat) -> Seq<EntryView> {
    if entries.len() <= max {
        entries
    } else {
        entries.take(max as int)
    }
}

/// The hashes of the entries behind the first `max`, from the last on.
pub open spec fn dropped(entries: Seq<EntryView>, max: nat) -> Seq<Seq<char>> {
    if entries.len() <= max {
        seq![]
    } else {
        Seq::new((entries.len() - max) as nat, |i: int| entries[entries.len() - 1 - i].hash)
    }
}

/// The text of what was read, if it could be read.
pub open spec fn text_view(content: Option<&str>) -> Option<Seq<char>> {
    match content {
        Some(s) => Some(s@),
        None => None,
    }
}

impl Entry {
    /// The line that stands for this entry.
    pub fn to_line(&self) -> (r: String)
        ensures
            r@ == entry_line(self@),
    {
        let mut out = String::new();
        push_chars(&mut out, to_chars(self.hash.as_str()).as_slice());
        out.push('\t');
        push_chars(&mut out, to_chars(self.mime.as_str()).as_slice());
        out.push('\t');
        push_chars(&mut out, to_chars(self.preview.as_str()).as_slice());
        assert(out@ =~= entry_line(self@));
        out
    }

    /// The entry that a line stands for.
    pub fn from_line(line: &str) -> (r: Option<Entry>)
        ensures
            r is Some <==> parsed_entry(line@) is Some,
            r matches Some(e) ==> parsed_entry(line@) == Some(e@),
    {
        Entry::from_chars(to_chars(line).as_slice())
    }

    /// The entry that the characters of a line stand for.
    fn from_chars(line: &[char]) -> (r: Option<Entry>)
        ensures
            r is Some <==> parsed_entry(line@) is Some,
            r matches Some(e) ==> parsed_entry(line@) == Some(e@),
    {
        assert(line@.skip(0) == line@);
        let i = find_from(line, 0, '\t');
        if i == 0 || i >= line.len() {
            return None;
        }
        let ghost rest = line@.skip(i + 1);
        let j = find_from(line, i + 1, '\t');
        let hash = from_chars(slice_subrange(line, 0, i));
        let mime = from_chars(slice_subrange(line, i + 1, j));
        let preview = if j < line.len() {
            from_chars(slice_subrange(line, j + 1, line.len()))
        } else {
            String::new()
        };
        let e = Entry { hash, mime, preview };
        proof {
            let k = j - (i + 1);
            assert(e@.mime =~= rest.take(k));
            if j < line.len() {
                assert(e@.preview =~= rest.skip(k + 1));
            }
        }
        Some(e)
    }
}

/// The entries of an index, given the text of its file, or nothing where it could not be read.
pub fn read_index(content: Option<&str>) -> (r: Vec<Entry>)
    ensures
        entry_views(r@) == parsed_index(text_view(content)),
{
    let mut out: Vec<Entry> = Vec::new();
    let text = match content {
        Some(text) => text,
        None => {
            assert(entry_views(out@) =~= seq![]);
            return out;
        },
    };
    let chars = to_chars(text);
    let all = lines(chars.as_slice());
    for i in 0..all.len()
        invariant
            entry_views(out@) == parsed_lines(texts(all@).take(i as int)),
    {
        let ghost before = out@;
        let parsed = Entry::from_chars(all[i]);
        proof {
            let upto = texts(all@).take(i + 1);
            assert(upto.drop_last() == texts(all@).take(i as int));
            assert(upto.last() == all@[i as int]@);
        }
        if let Some(e) = parsed {
            out.push(e);
            assert(entry_views(out@) =~= entry_views(before).push(e@));
        }
    }
    assert(texts(all@).take(all@.len() as int) == texts(all@));
    out
}

/// The text of an index.
pub fn index_text(entries: &Vec<Entry>) -> (r: String)
    ensures
        r@ == index_text_of(entry_views(entries@)),
{
    let mut parts: Vec<String> = Vec::new();
    for i in 0..entries.len()
        invariant
            strings(parts@) == entry_lines(entry_views(entries@)).take(i as int),
    {
        let ghost before = parts@;
        let line = entries[i].to_line();
        parts.push(line);
        assert(strings(parts@) =~= strings(before).push(line@));
    }
    assert(strings(parts@) =~= entry_lines(entry_views(entries@)));
    with_newlines(&parts)
}

/// The mime type of the first entry with the given hash, given the text of the index.
pub fn entry_mime(content: Option<&str>, hash: &str) -> (r: Option<String>)
    ensures
        r is Some <==> mime_of(parsed_index(text_view(content)), hash@) is Some,
        r matches Some(m) ==> mime_of(parsed_index(text_view(content)), hash@) == Some(m@),
{
    let entries = read_index(content);
    let wanted = hash.to_owned();
    let ghost views = entry_views(entries@);
    assert(views.skip(0) == views);
    for i in 0..entries.len()
        invariant
            views == entry_views(entries@),
            wanted@ == hash@,
            mime_of(views, hash@) == mime_of(views.skip(i as int), hash@),
            views == parsed_index(text_view(content)),
    {
        assert(views.skip(i as int)[0] == entries@[i as int]@);
        if entries[i].hash == wanted {
            return Some(entries[i].mime.clone());
        }
        assert(views.skip(i as int).skip(1) == views.skip(i + 1));
    }
    None
}

/// Puts an entry at the head of the history, where one with the same hash makes way for it, and
/// drops what is then behind the first `max_items`. Returns the hashes of the dropped entries, from
/// the last on.
pub fn upsert(entries: &mut Vec<Entry>, entry: Entry, max_items: usize) -> (r: Vec<String>)
    ensures
        entry_views(final(entries)@) == kept(
            with_entry(entry_views(old(entries)@), entry@),
            max_items as nat,
        ),
        strings(r@) == dropped(with_entry(entry_views(old(entries)@), entry@), max_items as nat),
{
    let ghost start = entry_views(entries@);
    let ghost other = |e: EntryView| e.hash != entry@.hash;
    let ghost mut k: int = 0;
    let mut i: usize = 0;
    assert(start.take(0).filter(other) =~= seq![]) by {
        reveal(Seq::filter);
    }
    assert(entry_views(entries@) =~= start.skip(0));
    while i < entries.len()
        invariant
            0 <= k <= start.len(),
            i == start.take(k).filter(other).len(),
            other == (|e: EntryView| e.hash != entry@.hash),
            entry_views(entries@) == start.take(k).filter(other) + start.skip(k),
            entries@.len() <= start.len(),
        decreases entries.len() - i,
    {
        let ghost before = entry_views(entries@);
        proof {
            reveal(Seq::filter);
            assert(start.take(k + 1).drop_last() =~= start.take(k));
            assert(start.take(k + 1).last() == start[k]);
            assert(before[i as int] == start[k]);
            assert(before[i as int] == entries@[i as int]@);
        }
        if entries[i].hash == entry.hash {
            entries.remove(i);
            assert(entry_views(entries@) =~= before.remove(i as int));
            assert(entry_views(entries@) =~= start.take(k + 1).filter(other) + start.skip(k + 1));
        } else {
            i += 1;
            assert(before =~= start.take(k + 1).filter(other) + start.skip(k + 1));
        }
        proof {
            k = k + 1;
        }
    }
    proof {
        assert(k == start.len());
        assert(start.take(k) =~= start);
        assert(entry_views(entries@) =~= without_hash(start, entry@.hash));
    }
    entries.insert(0, entry);
    let ghost all = with_entry(start, entry@);
    assert(entry_views(entries@) =~= all);
    let mut gone: Vec<String> = Vec::new();
    assert(all.take(all.len() as int) =~= all);
    while entries.len() > max_items
        invariant
            entries@.len() + gone@.len() == all.len(),
            entry_views(entries@) == all.take(entries@.len() as int),
            gone@.len() > 0 ==> entries@.len() >= max_items,
            strings(gone@) == Seq::new(gone@.len(), |i: int| all[all.len() - 1 - i].hash),
        decreases entries@.len(),
    {
        let ghost before = entries@;
        let ghost gone_before = gone@;
        if let Some(removed) = entries.pop() {
            assert(removed@ == entry_views(before).last());
            gone.push(removed.hash);
            assert(entry_views(entries@) =~= all.take(entries@.len() as int));
            assert(strings(gone@) =~= strings(gone_before).push(removed@.hash));
            assert(strings(gone@) =~= Seq::new(gone@.len(), |i: int| all[all.len() - 1 - i].hash));
        }
    }
    assert(entry_views(entries@) =~= kept(all, max_items as nat));
    assert(strings(gone@) =~= dropped(all, max_items as nat));
    gone
}

// ---------------------------------------------------------------------------------------------
// Laws
// ---------------------------------------------------------------------------------------------

impl EntryView {
    /// Whether the entry survives a line of its own: its hash is not empty, and neither hash nor
    /// mime type holds a tab.
    pub open spec fn fits_line(self) -> bool {
        &&& self.hash.len() > 0
        &&& !self.hash.contains('\t')
        &&& !self.mime.contains('\t')
    }

    /// Whether the entry takes up one line of the index: none of its fields has a line feed in it.
    pub open spec fn takes_one_line(self) -> bool {
        &&& self.fits_line()
        &&& !self.hash.contains('\n')
        &&& !self.mime.contains('\n')
        &&& !self.preview.contains('\n')
    }

    /// Whether the entry survives the index: it takes up one line, and that does not end in a
    /// carriage return, which would pass for a part of the line's ending.
    pub open spec fn fits_index(self) -> bool {
        &&& self.takes_one_line()
        &&& self.preview.len() > 0 ==> self.preview.last() != '\r'
    }

    /// What is read of the entry once it was written to the index.
    pub open spec fn reread(self) -> EntryView {
        EntryView { preview: without_cr(self.preview), ..self }
    }
}

/// What is read of some entries once they were written to the index.
pub open spec fn all_reread(entries: Seq<EntryView>) -> Seq<EntryView> {
    Seq::new(entries.len(), |i: int| entries[i].reread())
}

/// Whether every entry takes up one line of the index.
pub open spec fn all_take_one_line(entries: Seq<EntryView>) -> bool {
    forall|i: int| 0 <= i < entries.len() ==> (#[trigger] entries[i]).takes_one_line()
}

/// Whether every entry survives the index.
pub open spec fn all_fit(entries: Seq<EntryView>) -> bool {
    forall|i: int| 0 <= i < entries.len() ==> (#[trigger] entries[i]).fits_index()
}

/// Whether no hash occurs twice.
pub open spec fn hashes_differ(entries: Seq<EntryView>) -> bool {
    forall|i: int, j: int|
        0 <= i < j < entries.len() ==> (#[trigger] entries[i]).hash != (#[trigger] entries[j]).hash
}

/// Reading the line of an entry gives the entry back.
pub proof fn law_line_gives_entry_back(e: EntryView)
    requires
        e.fits_line(),
    ensures
        parsed_entry(entry_line(e)) == Some(e),
{
    let line = entry_line(e);
    let i = e.hash.len() as int;
    assert(line[i] == '\t');
    assert forall|k: int| 0 <= k < i implies line[k] != '\t' by {
        assert(line[k] == e.hash[k]);
    }
    crate::text::lemma_first_of_is(line, '\t', i);
    assert(line.take(i) =~= e.hash);
    let rest = line.skip(i + 1);
    assert(rest =~= e.mime + seq!['\t'] + e.preview);
    let j = e.mime.len() as int;
    assert forall|k: int| 0 <= k < j implies rest[k] != '\t' by {
        assert(rest[k] == e.mime[k]);
    }
    crate::text::lemma_first_of_is(rest, '\t', j);
    assert(rest.take(j) =~= e.mime);
    assert(rest.skip(j + 1) =~= e.preview);
}

/// Whatever line an entry is read from: the entry survives a line of its own, and none of its
/// fields holds a character that the line does not hold.
pub proof fn law_read_entry_fits_line(line: Seq<char>)
    ensures
        parsed_entry(line) matches Some(e) ==> e.fits_line() && (forall|c: char|
            !line.contains(c) ==> !e.hash.contains(c) && !e.mime.contains(c)
                && !e.preview.contains(c)),
{
    if let Some(e) = parsed_entry(line) {
        let i = first_of(line, '\t');
        let rest = line.skip(i + 1);
        let j = first_of(rest, '\t');
        crate::text::lemma_first_of(line, '\t');
        crate::text::lemma_first_of(rest, '\t');
        assert forall|c: char| !line.contains(c) implies !e.hash.contains(c) && !e.mime.contains(c)
            && !e.preview.contains(c) by {
            assert forall|k: int| 0 <= k < e.hash.len() implies e.hash[k] != c by {
                assert(e.hash[k] == line[k]);
            }
            assert forall|k: int| 0 <= k < e.mime.len() implies e.mime[k] != c by {
                assert(e.mime[k] == line[i + 1 + k]);
            }
            assert forall|k: int| 0 <= k < e.preview.len() implies e.preview[k] != c by {
                assert(e.preview[k] == line[i + 1 + j + 1 + k]);
            }
        }
    }
}

/// Every entry that is read from lines survives a line of its own, and takes up one line of the
/// index if the lines have no line feed in them.
pub proof fn law_read_entries_fit_their_lines(lines: Seq<Seq<char>>)
    ensures
        forall|i: int|
            0 <= i < parsed_lines(lines).len() ==> (#[trigger] parsed_lines(lines)[i]).fits_line(),
        (forall|i: int| 0 <= i < lines.len() ==> !(#[trigger] lines[i]).contains('\n'))
            ==> all_take_one_line(parsed_lines(lines)),
    decreases lines.len(),
{
    if lines.len() > 0 {
        let lines_before = lines.drop_last();
        let before = parsed_lines(lines_before);
        let all = parsed_lines(lines);
        law_read_entries_fit_their_lines(lines_before);
        law_read_entry_fits_line(lines.last());
        assert forall|i: int| 0 <= i < all.len() implies (#[trigger] all[i]).fits_line() by {
            if i < before.len() {
                assert(all[i] == before[i]);
            }
        }
        if forall|i: int| 0 <= i < lines.len() ==> !(#[trigger] lines[i]).contains('\n') {
            assert forall|i: int| 0 <= i < lines_before.len() implies !(
            #[trigger] lines_before[i]).contains('\n') by {
                assert(lines_before[i] == lines[i]);
            }
            assert(!lines[lines.len() - 1].contains('\n'));
            assert forall|i: int| 0 <= i < all.len() implies (
            #[trigger] all[i]).takes_one_line() by {
                if i < before.len() {
                    assert(all[i] == before[i]);
                }
            }
        }
    }
}

/// Every entry that is read from an index, whatever its text, takes up one line of the next index.
pub proof fn law_read_entries_take_one_line(content: Option<Seq<char>>)
    ensures
        all_take_one_line(parsed_index(content)),
{
    if let Some(text) = content {
        crate::text::lemma_lines_have_no_line_feed(text);
        law_read_entries_fit_their_lines(lines_of(text));
    }
}

/// Text of several lines: the first line stands at its head.
proof fn lemma_each_with_newline_head(parts: Seq<Seq<char>>)
    requires
        parts.len() > 0,
    ensures
        each_with_newline(parts) == parts[0] + seq!['\n'] + each_with_newline(parts.skip(1)),
    decreases parts.len(),
{
    let rest = parts.skip(1);
    if parts.len() == 1 {
        assert(each_with_newline(parts.drop_last()) =~= seq![]);
        assert(each_with_newline(rest) =~= seq![]);
        assert(each_with_newline(parts) =~= parts[0] + seq!['\n']);
    } else {
        lemma_each_with_newline_head(parts.drop_last());
        assert(parts.drop_last().skip(1) =~= rest.drop_last());
        assert(rest.last() == parts.last());
        assert(each_with_newline(parts) =~= parts[0] + seq!['\n'] + each_with_newline(rest));
    }
}

/// Text that is written line by line: each line stands there whole, with one line feed behind it.
pub proof fn law_each_line_ends_in_a_line_feed(line: Seq<char>, rest: Seq<Seq<char>>)
    ensures
        each_with_newline(seq![]) == Seq::<char>::empty(),
        each_with_newline(seq![line] + rest) == line + seq!['\n'] + each_with_newline(rest),
{
    lemma_each_with_newline_head(seq![line] + rest);
    assert((seq![line] + rest).skip(1) =~= rest);
}

/// The lines of a text that was written line by line are the lines that were written, if none has
/// a line feed in it, but for one carriage return at the end of a line, which passes for a part of
/// the line's ending.
pub proof fn law_lines_come_back(parts: Seq<Seq<char>>)
    requires
        forall|i: int| 0 <= i < parts.len() ==> !(#[trigger] parts[i]).contains('\n'),
    ensures
        lines_of(each_with_newline(parts)) == Seq::new(
            parts.len(),
            |i: int| without_cr(parts[i]),
        ),
    decreases parts.len(),
{
    let text = each_with_newline(parts);
    let read = Seq::new(parts.len(), |i: int| without_cr(parts[i]));
    if parts.len() == 0 {
        assert(lines_of(text) =~= read);
    } else {
        let head = parts[0];
        let rest = parts.skip(1);
        lemma_each_with_newline_head(parts);
        let i = head.len() as int;
        assert(text[i] == '\n');
        assert forall|k: int| 0 <= k < i implies text[k] != '\n' by {
            assert(text[k] == head[k]);
        }
        crate::text::lemma_first_of_is(text, '\n', i);
        assert(text.take(i) =~= head);
        assert(text.skip(i + 1) =~= each_with_newline(rest));
        assert forall|k: int| 0 <= k < rest.len() implies !(#[trigger] rest[k]).contains('\n') by {
            assert(rest[k] == parts[k + 1]);
        }
        law_lines_come_back(rest);
        assert(seq![without_cr(head)] + Seq::new(rest.len(), |k: int| without_cr(rest[k]))
            =~= read);
    }
}

/// Lines that stand for entries are read as those entries.
proof fn lemma_parsed_lines(entries: Seq<EntryView>)
    requires
        forall|i: int| 0 <= i < entries.len() ==> (#[trigger] entries[i]).fits_line(),
    ensures
        parsed_lines(entry_lines(entries)) == entries,
    decreases entries.len(),
{
    let all = entry_lines(entries);
    if entries.len() == 0 {
        assert(parsed_lines(all) =~= entries);
    } else {
        let before = entries.drop_last();
        assert forall|i: int| 0 <= i < before.len() implies (#[trigger] before[i]).fits_line() by {
            assert(before[i] == entries[i]);
        }
        lemma_parsed_lines(before);
        assert(all.drop_last() =~= entry_lines(before));
        assert(entries.last() == entries[entries.len() - 1]);
        law_line_gives_entry_back(entries.last());
        assert(before.push(entries.last()) =~= entries);
    }
}

/// Reading an index that was written gives its entries back, in their order. Only a preview that
/// ends in a carriage return loses that; no preview of a copied text has one.
pub proof fn law_index_gives_entries_back(entries: Seq<EntryView>)
    requires
        all_take_one_line(entries),
    ensures
        parsed_index(Some(index_text_of(entries))) == all_reread(entries),
        all_fit(entries) ==> all_reread(entries) == entries,
{
    let all = entry_lines(entries);
    let read = all_reread(entries);
    assert forall|i: int| 0 <= i < all.len() implies !(#[trigger] all[i]).contains('\n')
        && without_cr(all[i]) == entry_line(read[i]) by {
        let e = entries[i];
        let line = entry_line(e);
        assert(e.takes_one_line());
        assert forall|k: int| 0 <= k < line.len() implies line[k] != '\n' by {
            let h = e.hash.len() as int;
            let m = h + 1 + e.mime.len();
            if k < h {
                assert(line[k] == e.hash[k]);
            } else if h < k < m {
                assert(line[k] == e.mime[k - h - 1]);
            } else if k > m {
                assert(line[k] == e.preview[k - m - 1]);
            }
        }
        if e.preview.len() > 0 {
            assert(line.last() == e.preview.last());
        } else {
            assert(line.last() == '\t');
        }
        assert(without_cr(line) =~= entry_line(e.reread()));
    }
    law_lines_come_back(all);
    assert(lines_of(index_text_of(entries)) =~= entry_lines(read));
    assert forall|i: int| 0 <= i < read.len() implies (#[trigger] read[i]).fits_line() by {
        assert(entries[i].takes_one_line());
    }
    lemma_parsed_lines(read);
    if all_fit(entries) {
        assert forall|i: int| 0 <= i < entries.len() implies read[i] == entries[i] by {
            assert(entries[i].fits_index());
        }
        assert(read =~= entries);
    }
}

/// The entries of another hash are all kept in their order, and those of the hash all go.
pub proof fn law_entries_of_other_hashes_stay(
    entries: Seq<EntryView>,
    more: Seq<EntryView>,
    e: EntryView,
    hash: Seq<char>,
)
    ensures
        without_hash(seq![], hash) == Seq::<EntryView>::empty(),
        without_hash(seq![e], hash) == (if e.hash == hash {
            seq![]
        } else {
            seq![e]
        }),
        without_hash(entries + more, hash) == without_hash(entries, hash) + without_hash(
            more,
            hash,
        ),
{
    let other = |x: EntryView| x.hash != hash;
    reveal(Seq::filter);
    assert(seq![e].drop_last() =~= seq![]);
    assert(without_hash(seq![], hash) =~= seq![]);
    assert(without_hash(seq![e], hash) =~= (if e.hash == hash {
        seq![]
    } else {
        seq![e]
    }));
    Seq::filter_distributes_over_add(entries, more, other);
}

/// After an upsert the entry stands at the head of the history and nowhere else, the others keep
/// their order, and there are exactly as many entries as the limit leaves room for: none drops out
/// that there is room for, and those that do are the last ones.
pub proof fn law_upsert(entries: Seq<EntryView>, e: EntryView, max: nat)
    ensures
        ({
            let now = kept(with_entry(entries, e), max);
            let gone = dropped(with_entry(entries, e), max);
            let rest = without_hash(entries, e.hash);
            &&& now.len() <= max
            &&& now.len() == (if 1 + rest.len() <= max {
                1 + rest.len()
            } else {
                max
            })
            &&& max > 0 ==> now[0] == e
            &&& now.skip(1).is_prefix_of(rest) || max == 0
            &&& forall|i: int| 0 < i < now.len() ==> (#[trigger] now[i]).hash != e.hash
            &&& gone.len() == 1 + rest.len() - now.len()
            &&& forall|k: int|
                0 <= k < gone.len() && k < rest.len() ==> #[trigger] gone[k] == rest[rest.len() - 1
                    - k].hash
            &&& max == 0 ==> gone.last() == e.hash
            &&& 1 + rest.len() <= max ==> gone.len() == 0 && forall|i: int|
                0 <= i < entries.len() && entries[i].hash != e.hash ==> now.contains(
                    #[trigger] entries[i],
                )
        }),
{
    let all = with_entry(entries, e);
    let now = kept(all, max);
    let rest = without_hash(entries, e.hash);
    let other = |x: EntryView| x.hash != e.hash;
    broadcast use vstd::seq_lib::group_filter_ensures;

    assert(all.len() == 1 + rest.len());
    if max > 0 {
        assert(now.skip(1) =~= rest.take(now.len() - 1));
    }
    assert forall|i: int| 0 < i < now.len() implies (#[trigger] now[i]).hash != e.hash by {
        assert(now[i] == rest[i - 1]);
        assert(other(rest[i - 1]));
    }
    if 1 + rest.len() <= max {
        assert forall|i: int| 0 <= i < entries.len() && entries[i].hash
            != e.hash implies now.contains(#[trigger] entries[i]) by {
            assert(other(entries[i]));
            assert(entries.filter(other).contains(entries[i]));
            let j = choose|j: int| 0 <= j < rest.len() && rest[j] == entries[i];
            assert(now[j + 1] == entries[i]);
        }
    }
}

/// Putting the entry that is at the head at the head again changes nothing: a copy of what was
/// copied last is no second entry, and drops none.
pub proof fn law_upsert_again_changes_nothing(entries: Seq<EntryView>, e: EntryView, max: nat)
    ensures
        kept(with_entry(kept(with_entry(entries, e), max), e), max) == kept(
            with_entry(entries, e),
            max,
        ),
        max > 0 ==> with_entry(kept(with_entry(entries, e), max), e) == kept(
            with_entry(entries, e),
            max,
        ),
{
    let now = kept(with_entry(entries, e), max);
    let other = |x: EntryView| x.hash != e.hash;
    law_upsert(entries, e, max);
    if max > 0 {
        let tail = now.skip(1);
        assert(now =~= seq![e] + tail);
        lemma_filter_after_head(tail, e, other);
        assert forall|i: int| 0 <= i < tail.len() implies other(#[trigger] tail[i]) by {
            assert(tail[i] == now[i + 1]);
        }
        lemma_filter_all(tail, other);
        assert(without_hash(now, e.hash) =~= tail);
        assert(with_entry(now, e) =~= now);
    } else {
        assert(now =~= seq![]);
    }
}

/// A filter that drops the head of a sequence leaves what it leaves of the tail.
proof fn lemma_filter_after_head(
    tail: Seq<EntryView>,
    head: EntryView,
    keep: spec_fn(EntryView) -> bool,
)
    requires
        !keep(head),
    ensures
        (seq![head] + tail).filter(keep) == tail.filter(keep),
    decreases tail.len(),
{
    reveal(Seq::filter);
    let all = seq![head] + tail;
    if tail.len() == 0 {
        assert(all.drop_last() =~= seq![]);
        assert(all.last() == head);
        assert(seq![].filter(keep) =~= Seq::<EntryView>::empty());
        assert(tail =~= seq![]);
    } else {
        lemma_filter_after_head(tail.drop_last(), head, keep);
        assert(all.drop_last() =~= seq![head] + tail.drop_last());
        assert(all.last() == tail.last());
    }
}

/// A filter that keeps every element leaves a sequence as it is.
proof fn lemma_filter_all(s: Seq<EntryView>, keep: spec_fn(EntryView) -> bool)
    requires
        forall|i: int| 0 <= i < s.len() ==> keep(#[trigger] s[i]),
    ensures
        s.filter(keep) == s,
    decreases s.len(),
{
    reveal(Seq::filter);
    if s.len() > 0 {
        let before = s.drop_last();
        assert forall|i: int| 0 <= i < before.len() implies keep(#[trigger] before[i]) by {
            assert(before[i] == s[i]);
        }
        lemma_filter_all(before, keep);
        assert(keep(s[s.len() - 1]));
        assert(before.push(s.last()) =~= s);
    } else {
        assert(s.filter(keep) =~= s);
    }
}

/// The line of an entry holds its hash, its mime type and its preview, each whole and in that order,
/// with one tab between each two.
pub proof fn law_line_holds_the_fields(e: EntryView)
    ensures
        ({
            let line = entry_line(e);
            let i = e.hash.len() as int;
            let j = i + 1 + e.mime.len();
            &&& line.len() == e.hash.len() + e.mime.len() + e.preview.len() + 2
            &&& line.take(i) == e.hash
            &&& line[i] == '\t'
            &&& line.subrange(i + 1, j) == e.mime
            &&& line[j] == '\t'
            &&& line.skip(j + 1) == e.preview
        }),
{
    let line = entry_line(e);
    let i = e.hash.len() as int;
    let j = i + 1 + e.mime.len();
    assert(line.take(i) =~= e.hash);
    assert(line.subrange(i + 1, j) =~= e.mime);
    assert(line.skip(j + 1) =~= e.preview);
}

/// A line is read as an entry if it has a tab in it that is not at its head: the hash stands before
/// the first tab, the mime type before the second, and the preview behind that, whole, with whatever
/// tabs it holds. Without a second tab the preview is empty.
pub proof fn law_entry_stands_between_tabs(
    hash: Seq<char>,
    mime: Seq<char>,
    preview: Seq<char>,
    line: Seq<char>,
)
    requires
        !hash.contains('\t'),
        !mime.contains('\t'),
    ensures
        hash.len() > 0 ==> parsed_entry(hash + seq!['\t'] + mime + seq!['\t'] + preview) == Some(
            EntryView { hash, mime, preview },
        ),
        hash.len() > 0 ==> parsed_entry(hash + seq!['\t'] + mime) == Some(
            EntryView { hash, mime, preview: seq![] },
        ),
        parsed_entry(line) is Some <==> line.contains('\t') && line[0] != '\t',
{
    if hash.len() > 0 {
        law_line_gives_entry_back(EntryView { hash, mime, preview });
        let short = hash + seq!['\t'] + mime;
        let i = hash.len() as int;
        assert forall|k: int| 0 <= k < i implies short[k] != '\t' by {
            assert(short[k] == hash[k]);
        }
        crate::text::lemma_first_of_is(short, '\t', i);
        assert(short.take(i) =~= hash);
        assert(short.skip(i + 1) =~= mime);
        assert forall|k: int| 0 <= k < mime.len() implies mime[k] != '\t' by {
            assert(mime.contains(mime[k]));
        }
        crate::text::lemma_first_of_is(mime, '\t', mime.len() as int);
        assert(mime.take(mime.len() as int) =~= mime);
    }
    crate::text::lemma_first_of(line, '\t');
    if line.contains('\t') {
        let k = choose|k: int| 0 <= k < line.len() && line[k] == '\t';
        assert(first_of(line, '\t') <= k);
    }
}

/// The entries of lines behind other lines stand behind theirs, and a line that stands for none is
/// passed over, whatever it holds.
pub proof fn law_lines_are_read_one_by_one(lines: Seq<Seq<char>>, more: Seq<Seq<char>>, line: Seq<
    char,
>)
    ensures
        parsed_lines(seq![]) == Seq::<EntryView>::empty(),
        parsed_lines(seq![line]) == (match parsed_entry(line) {
            Some(e) => seq![e],
            None => seq![],
        }),
        parsed_lines(lines + more) == parsed_lines(lines) + parsed_lines(more),
    decreases more.len(),
{
    reveal_with_fuel(parsed_lines, 2);
    assert(seq![line].drop_last() =~= seq![]);
    assert(parsed_lines(seq![line]) =~= (match parsed_entry(line) {
        Some(e) => seq![e],
        None => seq![],
    }));
    if more.len() == 0 {
        assert(lines + more =~= lines);
        assert(parsed_lines(lines + more) =~= parsed_lines(lines) + parsed_lines(more));
    } else {
        law_lines_are_read_one_by_one(lines, more.drop_last(), line);
        assert((lines + more).drop_last() =~= lines + more.drop_last());
        assert((lines + more).last() == more.last());
        assert(parsed_lines(lines + more) =~= parsed_lines(lines) + parsed_lines(more));
    }
}

/// An index is read line by line from its head, and one that cannot be read has no entries.
pub proof fn law_index_is_read_line_by_line(line: Seq<char>, rest: Seq<char>)
    requires
        !line.contains('\n'),
        line.len() == 0 || line.last() != '\r',
    ensures
        parsed_index(None) == Seq::<EntryView>::empty(),
        parsed_index(Some(seq![])) == Seq::<EntryView>::empty(),
        parsed_index(Some(line + seq!['\n'] + rest)) == (match parsed_entry(line) {
            Some(e) => seq![e],
            None => seq![],
        }) + parsed_index(Some(rest)),
{
    crate::text::law_lines_end_at_line_feeds(line, rest);
    law_lines_are_read_one_by_one(seq![line], lines_of(rest), line);
}

/// An index is written entry by entry: each takes its line, the first one first.
pub proof fn law_index_is_written_line_by_line(e: EntryView, rest: Seq<EntryView>)
    ensures
        index_text_of(seq![]) == Seq::<char>::empty(),
        index_text_of(seq![e] + rest) == entry_line(e) + seq!['\n'] + index_text_of(rest),
{
    let all = entry_lines(seq![e] + rest);
    assert(all.skip(1) =~= entry_lines(rest));
    assert(all[0] == entry_line(e));
    lemma_each_with_newline_head(all);
    assert(entry_lines(seq![]) =~= seq![]);
}

/// The mime type that is found for a hash is that of the first entry that has the hash; where none
/// has it, none is found.
pub proof fn law_first_entry_gives_the_mime_type(entries: Seq<EntryView>, hash: Seq<char>, i: int)
    requires
        0 <= i <= entries.len(),
        forall|k: int| 0 <= k < i ==> (#[trigger] entries[k]).hash != hash,
        i < entries.len() ==> entries[i].hash == hash,
    ensures
        mime_of(entries, hash) == (if i < entries.len() {
            Some(entries[i].mime)
        } else {
            None
        }),
    decreases entries.len(),
{
    if i > 0 {
        let rest = entries.skip(1);
        assert(entries[0].hash != hash);
        assert forall|k: int| 0 <= k < i - 1 implies (#[trigger] rest[k]).hash != hash by {
            assert(rest[k] == entries[k + 1]);
        }
        law_first_entry_gives_the_mime_type(rest, hash, i - 1);
    }
}

/// The content of an entry is its three fields, each whole, and that of several entries is theirs,
/// in their order. What was read is the text that was read.
pub proof fn law_content_of_entries_is_whole(e: Entry, v: Seq<Entry>, content: Option<&str>)
    ensures
        e@.hash == e.hash@ && e@.mime == e.mime@ && e@.preview == e.preview@,
        entry_views(v).len() == v.len(),
        forall|i: int| 0 <= i < v.len() ==> #[trigger] entry_views(v)[i] == v[i]@,
        content is None <==> text_view(content) is None,
        content matches Some(s) ==> text_view(content) == Some(s@),
{
}

}
