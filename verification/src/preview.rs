//! The one-line preview of a text.
use vstd::prelude::*;

use crate::text::{decimal, lines, lines_of, push_chars, push_decimal, to_chars, trim, trimmed};

verus! {

/// How many characters of a text its preview shows.
pub const PREVIEW_MAX_CHARS: usize = 120;

/// A character as the preview shows it: whatever would break the line is a blank.
pub open spec fn flat_char(c: char) -> char {
    if c == '\n' || c == '\t' || c == '\r' {
        ' '
    } else {
        c
    }
}

/// A text on one line.
pub open spec fn flattened(s: Seq<char>) -> Seq<char> {
    Seq::new(s.len(), |i: int| flat_char(s[i]))
}

/// A text cut to [`PREVIEW_MAX_CHARS`], with an ellipsis where something was cut off.
pub open spec fn shortened(s: Seq<char>) -> Seq<char> {
    if s.len() > PREVIEW_MAX_CHARS {
        s.take(PREVIEW_MAX_CHARS as int).push('\u{2026}')
    } else {
        s
    }
}

/// The preview of a text: its beginning on one line, without white space around it, and the number
/// of its lines where it has more than one.
pub open spec fn text_preview(text: Seq<char>) -> Seq<char> {
    let shown = shortened(trimmed(flattened(text)));
    let count = lines_of(text).len();
    if count > 1 {
        shown + "  ["@ + decimal(count) + " lines]"@
    } else {
        shown
    }
}

/// The preview of a text.
pub fn make_text_preview(text: &str) -> (r: String)
    ensures
        r@ == text_preview(text@),
{
    let chars = to_chars(text);
    let line_count: usize = lines(chars.as_slice()).len();
    assert(line_count == lines_of(text@).len());
    let mut flat: Vec<char> = Vec::new();
    for i in 0..chars.len()
        invariant
            flat@ == flattened(chars@).take(i as int),
    {
        let c = chars[i];
        flat.push(if c == '\n' || c == '\t' || c == '\r' {
            ' '
        } else {
            c
        });
    }
    assert(flat@ =~= flattened(text@));
    let shown = trim(flat.as_slice());
    let mut preview = String::new();
    if shown.len() > PREVIEW_MAX_CHARS {
        let (head, _) = shown.split_at(PREVIEW_MAX_CHARS);
        push_chars(&mut preview, head);
        preview.push('\u{2026}');
    } else {
        push_chars(&mut preview, shown);
    }
    assert(preview@ =~= shortened(trimmed(flattened(text@))));
    if line_count > 1 {
        push_chars(&mut preview, to_chars("  [").as_slice());
        push_decimal(&mut preview, line_count as u64);
        push_chars(&mut preview, to_chars(" lines]").as_slice());
    }
    preview
}

// ---------------------------------------------------------------------------------------------
// Laws
// ---------------------------------------------------------------------------------------------

/// A preview takes one line: no text, whatever it holds, gives one with a line feed, a tab or a
/// carriage return in it.
pub proof fn law_preview_is_one_line(text: Seq<char>)
    ensures
        !text_preview(text).contains('\n'),
        !text_preview(text).contains('\t'),
        !text_preview(text).contains('\r'),
{
    let flat = flattened(text);
    let core = trimmed(flat);
    let shown = shortened(core);
    let count = lines_of(text).len();
    crate::text::lemma_trimmed_from(flat);
    crate::text::lemma_decimal_digits(count);
    reveal_strlit("  [");
    reveal_strlit(" lines]");
    assert forall|c: char| c == '\n' || c == '\t' || c == '\r' implies !text_preview(text).contains(
        c,
    ) by {
        assert(!flat.contains(c));
        assert forall|i: int| 0 <= i < shown.len() implies shown[i] != c by {
            if i < core.len() && i < PREVIEW_MAX_CHARS {
                assert(shown[i] == core[i]);
                assert(core.contains(core[i]));
            }
        }
        if count > 1 {
            let digits = decimal(count);
            let all = text_preview(text);
            let a = shown.len() as int;
            assert forall|i: int| 0 <= i < all.len() implies all[i] != c by {
                if i < a {
                    assert(all[i] == shown[i]);
                } else if i < a + 3 {
                    assert(all[i] == "  ["@[i - a]);
                } else if i < a + 3 + digits.len() {
                    assert(all[i] == digits[i - a - 3]);
                } else {
                    assert(all[i] == " lines]"@[i - a - 3 - digits.len()]);
                }
            }
        }
    }
}

/// A preview shows at most [`PREVIEW_MAX_CHARS`] characters of the text, an ellipsis, and the
/// number of lines.
pub proof fn law_preview_is_short(text: Seq<char>)
    ensures
        text_preview(text).len() <= PREVIEW_MAX_CHARS + 1 + (if lines_of(text).len() > 1 {
            "  ["@.len() + decimal(lines_of(text).len()).len() + " lines]"@.len()
        } else {
            0
        }),
{
}

/// A preview begins as the text does: it shows the first 120 characters of the text on one line,
/// without the white space around it, or all where there are no more; then an ellipsis where
/// characters were cut off, and the number of lines where there is more than one, and nothing else.
pub proof fn law_preview_begins_as_the_text_does(text: Seq<char>, flat: Seq<char>)
    requires
        flat.len() == text.len(),
        forall|i: int|
            0 <= i < text.len() ==> #[trigger] flat[i] == (if text[i] == '\n' || text[i] == '\t'
                || text[i] == '\r' {
                ' '
            } else {
                text[i]
            }),
    ensures
        ({
            let core = trimmed(flat);
            let preview = text_preview(text);
            let count = lines_of(text).len();
            let end = if core.len() > 120 {
                121
            } else {
                core.len() as int
            };
            &&& end <= preview.len()
            &&& forall|i: int|
                0 <= i < core.len() && i < 120 ==> #[trigger] preview[i] == core[i]
            &&& core.len() > 120 ==> preview[120] == '\u{2026}'
            &&& count <= 1 ==> preview.len() == end
            &&& count > 1 ==> preview.skip(end) == "  ["@ + decimal(count) + " lines]"@
        }),
        PREVIEW_MAX_CHARS == 120,
{
    let core = trimmed(flat);
    let preview = text_preview(text);
    let count = lines_of(text).len();
    assert(flattened(text) =~= flat);
    let shown = shortened(core);
    assert(preview.take(shown.len() as int) =~= shown);
    assert forall|i: int| 0 <= i < core.len() && i < 120 implies #[trigger] preview[i]
        == core[i] by {
        assert(preview[i] == shown[i]);
    }
    if core.len() > 120 {
        assert(preview[120] == shown[120]);
    }
    if count > 1 {
        assert(preview.skip(shown.len() as int) =~= "  ["@ + decimal(count) + " lines]"@);
    }
}

}
