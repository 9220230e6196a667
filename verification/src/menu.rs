//! The client: what the launcher shows, and what the user picked.
use vstd::prelude::*;

use crate::image::LAST_IMAGE_ID;
use crate::index::{entry_views, parsed_index, text_view, Entry, EntryView};
use crate::outside::{lossy_text, string_from_utf8_lossy};
use crate::text::{
    find_from, first_of, from_chars, join, joined, lines_of, push_chars, strings, texts, to_chars,
    trim_end_of, without_trailing, words, words_of,
};

verus! {

/// A line of the menu: an id, a tab, and the preview of what the id stands for.
pub open spec fn menu_line(id: Seq<char>, preview: Seq<char>) -> Seq<char> {
    id + seq!['\t'] + preview
}

/// The lines of the menu: the last image, where there is one, and then the history.
pub open spec fn menu_lines_of(image_preview: Option<Seq<char>>, entries: Seq<EntryView>) -> Seq<
    Seq<char>,
> {
    let history = Seq::new(
        entries.len(),
        |i: int| menu_line(entries[i].hash, entries[i].preview),
    );
    match image_preview {
        Some(p) => seq![menu_line(LAST_IMAGE_ID@, p)] + history,
        None => history,
    }
}

/// A line of the menu.
fn line(id: &str, preview: &str) -> (r: String)
    ensures
        r@ == menu_line(id@, preview@),
{
    let mut out = String::new();
    push_chars(&mut out, to_chars(id).as_slice());
    out.push('\t');
    push_chars(&mut out, to_chars(preview).as_slice());
    assert(out@ =~= menu_line(id@, preview@));
    out
}

/// The lines of the menu.
pub fn menu_lines(image_preview: Option<&str>, entries: &Vec<Entry>) -> (r: Vec<String>)
    ensures
        strings(r@) == menu_lines_of(text_view(image_preview), entry_views(entries@)),
{
    let mut out: Vec<String> = Vec::new();
    if let Some(preview) = image_preview {
        out.push(line(LAST_IMAGE_ID, preview));
    }
    let ghost head = strings(out@);
    let ghost all = menu_lines_of(text_view(image_preview), entry_views(entries@));
    assert(head =~= all.take(head.len() as int));
    for i in 0..entries.len()
        invariant
            all == menu_lines_of(text_view(image_preview), entry_views(entries@)),
            head.len() == (if image_preview is Some {
                1int
            } else {
                0
            }),
            strings(out@) == all.take(head.len() + i),
    {
        let ghost before = out@;
        out.push(line(entries[i].hash.as_str(), entries[i].preview.as_str()));
        assert(strings(out@) =~= strings(before).push(all[head.len() + i]));
    }
    assert(strings(out@) =~= all);
    out
}

/// The text that the launcher is given; nothing where there is nothing to show.
pub fn menu_text(image_preview: Option<&str>, entries: &Vec<Entry>) -> (r: Option<String>)
    ensures
        ({
            let lines = menu_lines_of(text_view(image_preview), entry_views(entries@));
            if lines.len() == 0 {
                r is None
            } else {
                r matches Some(s) && s@ == joined(lines, '\n')
            }
        }),
{
    let lines = menu_lines(image_preview, entries);
    assert(strings(lines@).len() == lines@.len());
    if lines.len() == 0 {
        None
    } else {
        Some(join(&lines, '\n'))
    }
}

/// The id in what the launcher printed: all up to the first tab, if that is anything.
pub open spec fn picked(output: Seq<char>) -> Option<Seq<char>> {
    let selection = without_trailing(output, '\n');
    let id = selection.take(first_of(selection, '\t'));
    if id.len() > 0 {
        Some(id)
    } else {
        None
    }
}

/// The id in the text that the launcher printed.
pub fn picked_id_in_text(output: &str) -> (r: Option<String>)
    ensures
        match picked(output@) {
            Some(id) => r matches Some(s) && s@ == id,
            None => r is None,
        },
{
    let chars = to_chars(output);
    let selection = trim_end_of(chars.as_slice(), '\n');
    assert(selection@.skip(0) == selection@);
    let i = find_from(selection, 0, '\t');
    let (id, _) = selection.split_at(i);
    assert(id@ == selection@.take(i as int));
    if id.len() > 0 {
        Some(from_chars(id))
    } else {
        None
    }
}

/// The id in the bytes that the launcher printed.
pub fn picked_id(output: &[u8]) -> (r: Option<String>)
    ensures
        match picked(lossy_text(output@)) {
            Some(id) => r matches Some(s) && s@ == id,
            None => r is None,
        },
        vstd::utf8::valid_utf8(output@) ==> lossy_text(output@) == vstd::utf8::decode_utf8(
            output@,
        ),
{
    let text = string_from_utf8_lossy(output);
    picked_id_in_text(text.as_str())
}

/// The launcher: the command that `CM_LAUNCHER` gives, else `dmenu`.
pub open spec fn launcher_of(cm_launcher: Option<Seq<char>>) -> Seq<char> {
    match cm_launcher {
        Some(command) => command,
        None => "dmenu"@,
    }
}

/// The launcher: the command that `CM_LAUNCHER` gives, else `dmenu`.
pub fn launcher(cm_launcher: Option<&str>) -> (r: String)
    ensures
        r@ == launcher_of(text_view(cm_launcher)),
{
    match cm_launcher {
        Some(command) => command.to_owned(),
        None => "dmenu".to_owned(),
    }
}

/// The words of the launcher's command, the program first. One without words is taken as it is.
pub open spec fn launcher_words(launcher: Seq<char>) -> Seq<Seq<char>> {
    if words_of(launcher).len() == 0 {
        seq![launcher]
    } else {
        words_of(launcher)
    }
}

/// The command line of the launcher, the program first: its own words, such as `rofi -dmenu`, and
/// behind them the arguments that the client was given, as they are.
pub fn launch_command(launcher: &str, args: &Vec<String>) -> (r: Vec<String>)
    ensures
        strings(r@) == launcher_words(launcher@) + strings(args@),
        r@.len() > 0,
{
    let chars = to_chars(launcher);
    let own = words(chars.as_slice());
    let mut out: Vec<String> = Vec::new();
    assert(texts(own@).len() == own@.len());
    if own.len() == 0 {
        out.push(launcher.to_owned());
    }
    let ghost start = out@;
    for i in 0..own.len()
        invariant
            own@.len() > 0 ==> start.len() == 0,
            own@.len() == 0 ==> strings(out@) == seq![launcher@],
            own@.len() > 0 ==> strings(out@) == texts(own@).take(i as int),
    {
        let ghost before = out@;
        out.push(from_chars(own[i]));
        assert(strings(out@) =~= strings(before).push(texts(own@)[i as int]));
    }
    assert(strings(out@) =~= launcher_words(launcher@));
    for i in 0..args.len()
        invariant
            strings(out@) == launcher_words(launcher@) + strings(args@).take(i as int),
    {
        let ghost before = out@;
        out.push(args[i].clone());
        assert(strings(out@) =~= strings(before).push(strings(args@)[i as int]));
        assert(strings(out@) =~= launcher_words(launcher@) + strings(args@).take(i + 1));
    }
    assert(strings(args@).take(args@.len() as int) =~= strings(args@));
    assert(strings(out@).len() == out@.len());
    out
}

// ---------------------------------------------------------------------------------------------
// Laws
// ---------------------------------------------------------------------------------------------

/// Whoever picks a line of the menu picks the id that stands at its head.
pub proof fn law_picked_line_gives_its_id(id: Seq<char>, preview: Seq<char>)
    requires
        id.len() > 0,
        !id.contains('\t'),
    ensures
        picked(menu_line(id, preview)) == Some(id),
        picked(menu_line(id, preview).push('\n')) == Some(id),
{
    let line = menu_line(id, preview);
    let with_end = line.push('\n');
    assert(with_end.drop_last() =~= line);
    assert(without_trailing(with_end, '\n') == without_trailing(line, '\n'));
    let selection = without_trailing(line, '\n');
    crate::text::lemma_without_trailing(line, '\n');
    let n = id.len() as int;
    assert(line[n] == '\t');
    assert(n < selection.len());
    assert forall|k: int| 0 <= k < n implies selection[k] != '\t' by {
        assert(selection[k] == id[k]);
    }
    crate::text::lemma_first_of_is(selection, '\t', n);
    assert(selection.take(n) =~= id);
}

/// Every line of the menu gives the id of the entry it shows, for any history that was read.
pub proof fn law_history_lines_give_their_hash(index: Option<Seq<char>>, i: int)
    requires
        0 <= i < parsed_index(index).len(),
    ensures
        picked(
            menu_line(parsed_index(index)[i].hash, parsed_index(index)[i].preview).push('\n'),
        ) == Some(parsed_index(index)[i].hash),
{
    let e = parsed_index(index)[i];
    crate::index::law_read_entries_fit_their_lines(lines_of(index->0));
    assert(e.fits_line());
    law_picked_line_gives_its_id(e.hash, e.preview);
}

/// The menu shows every entry of the history, in its order, each by its own line, and before them
/// the last image if there is one; each line holds the id whole, a tab, and the preview whole.
pub proof fn law_menu_shows_everything(
    image_preview: Option<Seq<char>>,
    entries: Seq<EntryView>,
    i: int,
)
    ensures
        ({
            let lines = menu_lines_of(image_preview, entries);
            let first: int = if image_preview is Some {
                1
            } else {
                0
            };
            &&& lines.len() == first + entries.len()
            &&& image_preview matches Some(p) ==> lines[0] == "last_image"@ + seq!['\t'] + p
            &&& 0 <= i < entries.len() ==> ({
                let line = lines[first + i];
                let n = entries[i].hash.len() as int;
                &&& line.len() == n + 1 + entries[i].preview.len()
                &&& line.take(n) == entries[i].hash
                &&& line[n] == '\t'
                &&& line.skip(n + 1) == entries[i].preview
            })
        }),
{
    let lines = menu_lines_of(image_preview, entries);
    let first: int = if image_preview is Some {
        1
    } else {
        0
    };
    assert(LAST_IMAGE_ID@ == "last_image"@);
    if 0 <= i < entries.len() {
        let line = lines[first + i];
        let n = entries[i].hash.len() as int;
        assert(line == menu_line(entries[i].hash, entries[i].preview));
        assert(line.take(n) =~= entries[i].hash);
        assert(line.skip(n + 1) =~= entries[i].preview);
    }
}

/// What was picked is all that stands before the first tab, or the whole text where there is none,
/// but for the line feeds at its end. Nothing was picked where nothing stands there.
pub proof fn law_picked_id_stands_before_the_tab(id: Seq<char>, rest: Seq<char>)
    requires
        !id.contains('\t'),
        id.len() > 0 ==> id.last() != '\n',
    ensures
        id.len() > 0 ==> picked(id) == Some(id),
        id.len() > 0 ==> picked(id + seq!['\n']) == Some(id),
        id.len() > 0 ==> picked(id + seq!['\t'] + rest) == Some(id),
        picked(seq![]) is None,
        picked(seq!['\n']) is None,
        picked(seq!['\t'] + rest) is None,
{
    reveal_with_fuel(without_trailing, 2);
    assert forall|k: int| 0 <= k < id.len() implies id[k] != '\t' by {
        assert(id.contains(id[k]));
    }
    crate::text::lemma_first_of_is(id, '\t', id.len() as int);
    assert(id.take(id.len() as int) =~= id);
    assert((id + seq!['\n']).drop_last() =~= id);
    if id.len() > 0 {
        assert(id + seq!['\t'] + rest == menu_line(id, rest));
        law_picked_line_gives_its_id(id, rest);
    }
    assert(seq!['\n'].drop_last() =~= seq![]);
    let blank = seq!['\t'] + rest;
    crate::text::lemma_without_trailing(blank, '\n');
    let selection = without_trailing(blank, '\n');
    assert(blank[0] == '\t');
    assert(selection[0] == '\t');
    assert(first_of(selection, '\t') == 0);
}

/// The launcher is what `CM_LAUNCHER` gives, as it is, else `dmenu`; its command is taken word by
/// word, the first being the program, and taken as it is where it has no word.
pub proof fn law_launcher_is_taken_word_by_word(
    command: Seq<char>,
    word: Seq<char>,
    rest: Seq<char>,
)
    requires
        word.len() > 0,
        forall|k: int| 0 <= k < word.len() ==> !crate::text::is_white_space(#[trigger] word[k]),
        rest.len() > 0 ==> crate::text::is_white_space(rest[0]),
    ensures
        launcher_of(Some(command)) == command,
        launcher_of(None) == "dmenu"@,
        launcher_words(word) == seq![word],
        launcher_words(word + rest) == seq![word] + words_of(rest),
        words_of(command).len() == 0 ==> launcher_words(command) == seq![command],
{
    crate::text::law_words_end_at_white_space(seq![], word, rest);
    crate::text::law_words_end_at_white_space(seq![], word, seq![]);
    assert(Seq::<char>::empty() + word + rest =~= word + rest);
    assert(Seq::<char>::empty() + word + Seq::<char>::empty() =~= word);
    assert(words_of(word) =~= seq![word]);
}

}
