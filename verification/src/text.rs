//! Text as sequences of characters: white space, lines, words, fields, numbers.
//!
//! Every function here works on slices of `char`, and is specified over the mathematical
//! sequence that the slice holds.
use vstd::prelude::*;
use vstd::slice::slice_subrange;

verus! {

// ---------------------------------------------------------------------------------------------
// Specifications
// ---------------------------------------------------------------------------------------------

/// The characters that have the Unicode property `White_Space`.
pub open spec fn is_white_space(c: char) -> bool {
    let n = c as u32;
    ||| 0x9 <= n <= 0xD
    ||| n == 0x20
    ||| n == 0x85
    ||| n == 0xA0
    ||| n == 0x1680
    ||| 0x2000 <= n <= 0x200A
    ||| n == 0x2028
    ||| n == 0x2029
    ||| n == 0x202F
    ||| n == 0x205F
    ||| n == 0x3000
}

/// `s` without its leading white space.
pub open spec fn trimmed_start(s: Seq<char>) -> Seq<char>
    decreases s.len(),
{
    if s.len() > 0 && is_white_space(s[0]) {
        trimmed_start(s.skip(1))
    } else {
        s
    }
}

/// `s` without its trailing white space.
pub open spec fn trimmed_end(s: Seq<char>) -> Seq<char>
    decreases s.len(),
{
    if s.len() > 0 && is_white_space(s.last()) {
        trimmed_end(s.drop_last())
    } else {
        s
    }
}

/// `s` without leading and trailing white space.
pub open spec fn trimmed(s: Seq<char>) -> Seq<char> {
    trimmed_end(trimmed_start(s))
}

/// `s` without the run of `c` that it ends in.
pub open spec fn without_trailing(s: Seq<char>, c: char) -> Seq<char>
    decreases s.len(),
{
    if s.len() > 0 && s.last() == c {
        without_trailing(s.drop_last(), c)
    } else {
        s
    }
}

/// The position of the first `c` in `s`; the length of `s` if there is none.
pub open spec fn first_of(s: Seq<char>, c: char) -> int
    decreases s.len(),
{
    if s.len() == 0 || s[0] == c {
        0
    } else {
        1 + first_of(s.skip(1), c)
    }
}

/// The position of the first white space in `s`; the length of `s` if there is none.
pub open spec fn first_space(s: Seq<char>) -> int
    decreases s.len(),
{
    if s.len() == 0 || is_white_space(s[0]) {
        0
    } else {
        1 + first_space(s.skip(1))
    }
}

/// The text of a line that ended in a line feed: a carriage return before it goes too.
pub open spec fn without_cr(s: Seq<char>) -> Seq<char> {
    if s.len() > 0 && s.last() == '\r' {
        s.drop_last()
    } else {
        s
    }
}

/// The lines of a text. A line ends in `\n` or `\r\n`, which is not part of it; the last line
/// may lack its ending, and then keeps every character.
pub open spec fn lines_of(s: Seq<char>) -> Seq<Seq<char>>
    decreases s.len(),
{
    let i = first_of(s, '\n');
    if s.len() == 0 {
        seq![]
    } else if 0 <= i < s.len() {
        seq![without_cr(s.take(i))] + lines_of(s.skip(i + 1))
    } else {
        seq![s]
    }
}

/// The words of a text: the longest stretches without white space.
pub open spec fn words_of(s: Seq<char>) -> Seq<Seq<char>>
    decreases s.len(),
    via words_of_decreases
{
    let t = trimmed_start(s);
    let i = first_space(t);
    if t.len() == 0 {
        seq![]
    } else if 0 < i <= t.len() {
        seq![t.take(i)] + words_of(t.skip(i))
    } else {
        seq![]
    }
}

#[via_fn]
proof fn words_of_decreases(s: Seq<char>) {
    lemma_trimmed_start_len(s);
}

/// The texts of `parts`, each followed by a line feed.
pub open spec fn each_with_newline(parts: Seq<Seq<char>>) -> Seq<char>
    decreases parts.len(),
{
    if parts.len() == 0 {
        seq![]
    } else {
        each_with_newline(parts.drop_last()) + parts.last() + seq!['\n']
    }
}

/// The texts of `parts` with `sep` between each two neighbours.
pub open spec fn joined(parts: Seq<Seq<char>>, sep: char) -> Seq<char>
    decreases parts.len(),
{
    if parts.len() == 0 {
        seq![]
    } else if parts.len() == 1 {
        parts[0]
    } else {
        joined(parts.drop_last(), sep).push(sep) + parts.last()
    }
}

/// The decimal digit for a number below ten.
pub open spec fn digit(n: int) -> char {
    (0x30 + n) as char
}

/// A number in decimal, without leading zeros.
pub open spec fn decimal(n: nat) -> Seq<char>
    decreases n,
{
    if n < 10 {
        seq![digit(n as int)]
    } else {
        decimal(n / 10).push(digit((n % 10) as int))
    }
}

/// The lower-case hexadecimal digit for a number below sixteen.
pub open spec fn hex_digit(n: int) -> char {
    if n < 10 {
        (0x30 + n) as char
    } else {
        (0x61 + (n - 10)) as char
    }
}

/// The last `width` hexadecimal digits of a number, leading zeros included.
pub open spec fn hex(n: nat, width: nat) -> Seq<char>
    decreases width,
{
    if width == 0 {
        seq![]
    } else {
        hex(n / 16, (width - 1) as nat).push(hex_digit((n % 16) as int))
    }
}

/// Whether every character is an ASCII digit.
pub open spec fn all_digits(s: Seq<char>) -> bool {
    forall|i: int| 0 <= i < s.len() ==> '0' <= #[trigger] s[i] <= '9'
}

/// The number that a sequence of decimal digits stands for.
pub open spec fn digits_value(s: Seq<char>) -> nat
    decreases s.len(),
{
    if s.len() == 0 {
        0
    } else {
        (10 * digits_value(s.drop_last()) + (s.last() as u32 - 0x30)) as nat
    }
}

/// The number that a text gives: decimal digits, at least one, after at most one `+`, of a value
/// that fits in `usize`.
pub open spec fn parsed_usize(s: Seq<char>) -> Option<usize> {
    let d = if s.len() > 0 && s[0] == '+' {
        s.skip(1)
    } else {
        s
    };
    if d.len() > 0 && all_digits(d) && digits_value(d) <= usize::MAX {
        Some(digits_value(d) as usize)
    } else {
        None
    }
}

/// The texts that a vector of slices holds.
pub open spec fn texts(v: Seq<&[char]>) -> Seq<Seq<char>> {
    Seq::new(v.len(), |i: int| v[i]@)
}

/// The texts that a vector of strings holds.
pub open spec fn strings(v: Seq<String>) -> Seq<Seq<char>> {
    Seq::new(v.len(), |i: int| v[i]@)
}

// ---------------------------------------------------------------------------------------------
// Lemmas
// ---------------------------------------------------------------------------------------------

/// Trimming the start of a text never makes it longer.
pub proof fn lemma_trimmed_start_len(s: Seq<char>)
    ensures
        trimmed_start(s).len() <= s.len(),
    decreases s.len(),
{
    if s.len() > 0 && is_white_space(s[0]) {
        lemma_trimmed_start_len(s.skip(1));
    }
}

/// A text without leading white space does not begin with white space.
pub proof fn lemma_trimmed_start_stops(s: Seq<char>)
    ensures
        trimmed_start(s).len() > 0 ==> !is_white_space(trimmed_start(s)[0]),
    decreases s.len(),
{
    if s.len() > 0 && is_white_space(s[0]) {
        lemma_trimmed_start_stops(s.skip(1));
    }
}

/// Trimming takes nothing in: what is left is at most as long, and each of its characters stood in
/// the text.
pub proof fn lemma_trimmed_from(s: Seq<char>)
    ensures
        trimmed(s).len() <= s.len(),
        forall|c: char| #[trigger] trimmed(s).contains(c) ==> s.contains(c),
{
    let t = trimmed_start(s);
    lemma_trimmed_start_from(s);
    lemma_trimmed_end_from(t);
    assert forall|c: char| #[trigger] trimmed(s).contains(c) implies s.contains(c) by {
        assert(trimmed_end(t).contains(c));
        assert(trimmed_start(s).contains(c));
    }
}

proof fn lemma_trimmed_start_from(s: Seq<char>)
    ensures
        trimmed_start(s).len() <= s.len(),
        forall|c: char| #[trigger] trimmed_start(s).contains(c) ==> s.contains(c),
    decreases s.len(),
{
    if s.len() > 0 && is_white_space(s[0]) {
        let rest = s.skip(1);
        lemma_trimmed_start_from(rest);
        assert forall|c: char| #[trigger] trimmed_start(s).contains(c) implies s.contains(c) by {
            assert(trimmed_start(rest).contains(c));
            let i = choose|i: int| 0 <= i < rest.len() && rest[i] == c;
            assert(s[i + 1] == c);
        }
    }
}

proof fn lemma_trimmed_end_from(s: Seq<char>)
    ensures
        trimmed_end(s).len() <= s.len(),
        forall|c: char| #[trigger] trimmed_end(s).contains(c) ==> s.contains(c),
    decreases s.len(),
{
    if s.len() > 0 && is_white_space(s.last()) {
        let rest = s.drop_last();
        lemma_trimmed_end_from(rest);
        assert forall|c: char| #[trigger] trimmed_end(s).contains(c) implies s.contains(c) by {
            assert(trimmed_end(rest).contains(c));
            let i = choose|i: int| 0 <= i < rest.len() && rest[i] == c;
            assert(s[i] == c);
        }
    }
}

/// A text without white space at either end is what trimming leaves of it, and of its line.
pub proof fn lemma_trimmed_line(s: Seq<char>)
    requires
        s.len() > 0,
        !is_white_space(s[0]),
        !is_white_space(s.last()),
    ensures
        trimmed(s) == s,
        trimmed(s.push('\n')) == s,
{
    let line = s.push('\n');
    assert(trimmed_start(line) == line);
    assert(line.drop_last() =~= s);
    assert(trimmed_end(line) == trimmed_end(s));
}

/// What is left when a run of `c` is taken from the end: a beginning of the text that reaches up to
/// and over every other character.
pub proof fn lemma_without_trailing(s: Seq<char>, c: char)
    ensures
        without_trailing(s, c).is_prefix_of(s),
        forall|k: int| 0 <= k < s.len() && s[k] != c ==> k < without_trailing(s, c).len(),
    decreases s.len(),
{
    if s.len() > 0 && s.last() == c {
        let rest = s.drop_last();
        lemma_without_trailing(rest, c);
        assert forall|k: int| 0 <= k < s.len() && s[k] != c implies k < without_trailing(
            s,
            c,
        ).len() by {
            assert(rest[k] == s[k]);
        }
    }
}

/// A decimal number holds digits, and at least one.
pub proof fn lemma_decimal_digits(n: nat)
    ensures
        decimal(n).len() > 0,
        all_digits(decimal(n)),
    decreases n,
{
    if n >= 10 {
        lemma_decimal_digits(n / 10);
        let s = decimal(n);
        assert forall|i: int| 0 <= i < s.len() implies '0' <= #[trigger] s[i] <= '9' by {
            if i < s.len() - 1 {
                assert(s[i] == decimal(n / 10)[i]);
            }
        }
    }
}

/// Reading a decimal number that was written gives the number back.
pub proof fn law_decimal_comes_back(n: nat)
    requires
        n <= usize::MAX,
    ensures
        parsed_usize(decimal(n)) == Some(n as usize),
{
    lemma_decimal_digits(n);
    lemma_decimal_value(n);
    let s = decimal(n);
    assert('0' <= s[0] <= '9');
}

proof fn lemma_decimal_value(n: nat)
    ensures
        digits_value(decimal(n)) == n,
    decreases n,
{
    reveal_with_fuel(digits_value, 2);
    if n >= 10 {
        lemma_decimal_value(n / 10);
        assert(decimal(n).drop_last() =~= decimal(n / 10));
    } else {
        assert(decimal(n).drop_last() =~= seq![]);
    }
}

/// The position of the first `c` is one at which `c` stands, and no earlier one is.
pub proof fn lemma_first_of(s: Seq<char>, c: char)
    ensures
        0 <= first_of(s, c) <= s.len(),
        first_of(s, c) < s.len() ==> s[first_of(s, c)] == c,
        forall|i: int| 0 <= i < first_of(s, c) ==> s[i] != c,
    decreases s.len(),
{
    if s.len() > 0 && s[0] != c {
        let rest = s.skip(1);
        lemma_first_of(rest, c);
        assert forall|i: int| 0 <= i < first_of(s, c) implies s[i] != c by {
            if i > 0 {
                assert(rest[i - 1] == s[i]);
            }
        }
    }
}

/// A position at which `c` stands for the first time is the position of the first `c`.
pub proof fn lemma_first_of_is(s: Seq<char>, c: char, k: int)
    requires
        0 <= k <= s.len(),
        forall|i: int| 0 <= i < k ==> s[i] != c,
        k < s.len() ==> s[k] == c,
    ensures
        first_of(s, c) == k,
{
    lemma_first_of(s, c);
}

/// No line of a text has a line feed in it.
pub proof fn lemma_lines_have_no_line_feed(s: Seq<char>)
    ensures
        forall|i: int| 0 <= i < lines_of(s).len() ==> !(#[trigger] lines_of(s)[i]).contains('\n'),
    decreases s.len(),
{
    if s.len() > 0 {
        let n = first_of(s, '\n');
        let all = lines_of(s);
        lemma_first_of(s, '\n');
        assert forall|k: int| 0 <= k < all[0].len() implies all[0][k] != '\n' by {
            assert(all[0][k] == s[k]);
        }
        if n < s.len() {
            let rest = s.skip(n + 1);
            lemma_lines_have_no_line_feed(rest);
            assert forall|i: int| 0 <= i < all.len() implies !(
            #[trigger] all[i]).contains('\n') by {
                if i > 0 {
                    assert(all[i] == lines_of(rest)[i - 1]);
                }
            }
        }
    }
}

/// The first white space of a text stands where `first_space` says, and none stands before it.
pub proof fn lemma_first_space(s: Seq<char>)
    ensures
        0 <= first_space(s) <= s.len(),
        first_space(s) < s.len() ==> is_white_space(s[first_space(s)]),
        forall|i: int| 0 <= i < first_space(s) ==> !is_white_space(s[i]),
    decreases s.len(),
{
    if s.len() > 0 && !is_white_space(s[0]) {
        let rest = s.skip(1);
        lemma_first_space(rest);
        assert forall|i: int| 0 <= i < first_space(s) implies !is_white_space(s[i]) by {
            if i > 0 {
                assert(rest[i - 1] == s[i]);
            }
        }
    }
}

// ---------------------------------------------------------------------------------------------
// Laws
// ---------------------------------------------------------------------------------------------

/// How far the white space at the start of a text reaches.
proof fn lemma_trimmed_start_at(s: Seq<char>) -> (a: int)
    ensures
        0 <= a <= s.len(),
        trimmed_start(s) == s.skip(a),
        forall|k: int| 0 <= k < a ==> is_white_space(#[trigger] s[k]),
        a < s.len() ==> !is_white_space(s[a]),
    decreases s.len(),
{
    if s.len() > 0 && is_white_space(s[0]) {
        let rest = s.skip(1);
        let b = lemma_trimmed_start_at(rest);
        assert(rest.skip(b) =~= s.skip(b + 1));
        assert forall|k: int| 0 <= k < b + 1 implies is_white_space(#[trigger] s[k]) by {
            if k > 0 {
                assert(rest[k - 1] == s[k]);
            }
        }
        b + 1
    } else {
        assert(s.skip(0) =~= s);
        0
    }
}

/// Where the white space at the end of a text begins.
proof fn lemma_trimmed_end_at(s: Seq<char>) -> (b: int)
    ensures
        0 <= b <= s.len(),
        trimmed_end(s) == s.take(b),
        forall|k: int| b <= k < s.len() ==> is_white_space(#[trigger] s[k]),
        b > 0 ==> !is_white_space(s[b - 1]),
    decreases s.len(),
{
    if s.len() > 0 && is_white_space(s.last()) {
        let rest = s.drop_last();
        let b = lemma_trimmed_end_at(rest);
        assert(rest.take(b) =~= s.take(b));
        assert forall|k: int| b <= k < s.len() implies is_white_space(#[trigger] s[k]) by {
            if k < rest.len() {
                assert(rest[k] == s[k]);
            }
        }
        b
    } else {
        assert(s.take(s.len() as int) =~= s);
        s.len() as int
    }
}

/// Trimming takes the white space at both ends and nothing else: what is left is a stretch of the
/// text with white space all before it and all behind it, and none at its own ends. It is empty only
/// where the whole text is white space.
pub proof fn law_trimming_takes_the_ends(s: Seq<char>) -> (at: (int, int))
    ensures
        0 <= at.0 <= at.1 <= s.len(),
        trimmed(s) == s.subrange(at.0, at.1),
        forall|k: int| 0 <= k < at.0 || at.1 <= k < s.len() ==> is_white_space(#[trigger] s[k]),
        at.0 < at.1 ==> !is_white_space(s[at.0]) && !is_white_space(s[at.1 - 1]),
        trimmed(s).len() == 0 <==> forall|k: int|
            0 <= k < s.len() ==> is_white_space(#[trigger] s[k]),
{
    let a = lemma_trimmed_start_at(s);
    let t = s.skip(a);
    let n = lemma_trimmed_end_at(t);
    let b = a + n;
    assert(t.take(n) =~= s.subrange(a, b));
    assert forall|k: int| 0 <= k < a || b <= k < s.len() implies is_white_space(
        #[trigger] s[k],
    ) by {
        if k >= b {
            assert(t[k - a] == s[k]);
        }
    }
    if n > 0 {
        assert(t[n - 1] == s[b - 1]);
    }
    (a, b)
}

/// Taking a run of a character from the end of a text takes all of it and nothing else.
pub proof fn law_trailing_run_is_taken(s: Seq<char>, c: char)
    ensures
        without_trailing(s, c).is_prefix_of(s),
        forall|k: int| without_trailing(s, c).len() <= k < s.len() ==> #[trigger] s[k] == c,
        without_trailing(s, c).len() > 0 ==> without_trailing(s, c).last() != c,
    decreases s.len(),
{
    if s.len() > 0 && s.last() == c {
        let rest = s.drop_last();
        law_trailing_run_is_taken(rest, c);
        assert forall|k: int| without_trailing(s, c).len() <= k < s.len() implies #[trigger] s[k]
            == c by {
            if k < rest.len() {
                assert(rest[k] == s[k]);
            }
        }
    }
}

/// A line ends at the first line feed, or at the carriage return before that, and what follows is
/// read in the same way. A last line without an ending is a line, and text without characters has
/// none.
pub proof fn law_lines_end_at_line_feeds(line: Seq<char>, rest: Seq<char>)
    requires
        !line.contains('\n'),
    ensures
        lines_of(line + seq!['\r', '\n'] + rest) == seq![line] + lines_of(rest),
        (line.len() == 0 || line.last() != '\r') ==> lines_of(line + seq!['\n'] + rest)
            == seq![line] + lines_of(rest),
        line.len() > 0 ==> lines_of(line) == seq![line],
        lines_of(seq![]) == Seq::<Seq<char>>::empty(),
{
    let n = line.len() as int;
    assert forall|k: int| 0 <= k < n implies line[k] != '\n' by {
        assert(line.contains(line[k]));
    }
    let plain = line + seq!['\n'] + rest;
    lemma_first_of_is(plain, '\n', n);
    assert(plain.take(n) =~= line);
    assert(plain.skip(n + 1) =~= rest);
    let returned = line + seq!['\r', '\n'] + rest;
    assert(returned[n] == '\r');
    assert(returned[n + 1] == '\n');
    lemma_first_of_is(returned, '\n', n + 1);
    assert(returned.take(n + 1) =~= line.push('\r'));
    assert(line.push('\r').drop_last() =~= line);
    assert(returned.skip(n + 2) =~= rest);
    lemma_first_of_is(line, '\n', n);
}

/// The first word of a text is the first stretch without white space, whole, and what follows is
/// read in the same way. White space alone holds no word.
pub proof fn law_words_end_at_white_space(lead: Seq<char>, word: Seq<char>, rest: Seq<char>)
    requires
        forall|k: int| 0 <= k < lead.len() ==> is_white_space(#[trigger] lead[k]),
        word.len() > 0,
        forall|k: int| 0 <= k < word.len() ==> !is_white_space(#[trigger] word[k]),
        rest.len() > 0 ==> is_white_space(rest[0]),
    ensures
        words_of(lead + word + rest) == seq![word] + words_of(rest),
        words_of(lead) == Seq::<Seq<char>>::empty(),
{
    let s = lead + word + rest;
    let n = lead.len() as int;
    let m = word.len() as int;
    let a = lemma_trimmed_start_at(s);
    assert(s[n] == word[0]);
    if a < n {
        assert(s[a] == lead[a]);
    }
    assert(a == n);
    let t = s.skip(n);
    assert(t =~= word + rest);
    lemma_first_space(t);
    let i = first_space(t);
    if i < m {
        assert(t[i] == word[i]);
    }
    if i > m {
        assert(t[m] == rest[0]);
    }
    assert(t.take(m) =~= word);
    assert(t.skip(m) =~= rest);
    let b = lemma_trimmed_start_at(lead);
    assert(trimmed_start(lead).len() == 0);
    assert(words_of(lead) =~= seq![]);
}

/// Joined texts stand one behind the other with one separator between each two, and none at the
/// ends.
pub proof fn law_joined_texts(first: Seq<char>, rest: Seq<Seq<char>>, sep: char)
    ensures
        joined(seq![], sep) == Seq::<char>::empty(),
        joined(seq![first], sep) == first,
        rest.len() > 0 ==> joined(seq![first] + rest, sep) == first + seq![sep] + joined(rest, sep),
    decreases rest.len(),
{
    if rest.len() > 0 {
        let all = seq![first] + rest;
        let before = rest.drop_last();
        assert(all.drop_last() =~= seq![first] + before);
        assert(all.last() == rest.last());
        if before.len() == 0 {
            assert(all.drop_last() =~= seq![first]);
            assert(joined(all.drop_last(), sep) == first);
            assert(joined(rest, sep) == rest[0]);
            assert(joined(all, sep) =~= first + seq![sep] + joined(rest, sep));
        } else {
            law_joined_texts(first, before, sep);
            assert(joined(all, sep) =~= first + seq![sep] + joined(rest, sep));
        }
    }
}

/// A number is written digit by digit, the most significant first: a digit stands for itself, and
/// the last digit of a longer number stands behind the number of tens.
pub proof fn law_decimal_is_written_by_digits(tens: nat, last: nat)
    requires
        last < 10,
    ensures
        decimal(last).len() == 1,
        decimal(last)[0] == "0123456789"@[last as int],
        tens > 0 ==> decimal(10 * tens + last) == decimal(tens) + decimal(last),
{
    reveal_strlit("0123456789");
    assert((10 * tens + last) / 10 == tens);
    assert((10 * tens + last) % 10 == last);
    if tens > 0 {
        assert(decimal(10 * tens + last) =~= decimal(tens) + decimal(last));
    }
}

/// A number of a fixed width is written in hexadecimal digit by digit, in lower case.
pub proof fn law_hexadecimal_is_written_by_digits(sixteens: nat, last: nat, width: nat)
    requires
        last < 16,
    ensures
        hex(last, 1).len() == 1,
        hex(last, 1)[0] == "0123456789abcdef"@[last as int],
        hex(16 * sixteens + last, width + 1) == hex(sixteens, width) + hex(last, 1),
        hex(sixteens, 0).len() == 0,
{
    reveal_strlit("0123456789abcdef");
    reveal_with_fuel(hex, 2);
    assert((16 * sixteens + last) / 16 == sixteens);
    assert((16 * sixteens + last) % 16 == last);
    assert(hex(last, 1) =~= seq![hex_digit(last as int)]);
    assert(hex(16 * sixteens + last, width + 1) =~= hex(sixteens, width) + hex(last, 1));
}

/// Digits are read as the number that they write, up to the largest that there is: one digit more
/// multiplies by ten and adds. A plus sign before them changes nothing.
pub proof fn law_digits_are_read(s: Seq<char>, last: nat)
    requires
        s.len() > 0,
        forall|k: int| 0 <= k < s.len() ==> '0' <= #[trigger] s[k] <= '9',
        last < 10,
    ensures
        ({
            let c = "0123456789"@[last as int];
            &&& parsed_usize(seq![c]) == Some(last as usize)
            &&& parsed_usize(s.push(c)) == (match parsed_usize(s) {
                Some(n) => if 10 * n + last <= usize::MAX {
                    Some((10 * n + last) as usize)
                } else {
                    None
                },
                None => None,
            })
            &&& parsed_usize(seq!['+'] + s) == parsed_usize(s)
        }),
{
    reveal_strlit("0123456789");
    let c = "0123456789"@[last as int];
    assert(c == (0x30 + last) as char);
    reveal_with_fuel(digits_value, 2);
    let one = seq![c];
    assert(one.drop_last() =~= seq![]);
    let more = s.push(c);
    assert(more.drop_last() =~= s);
    assert(more[0] == s[0]);
    assert('0' <= s[0] <= '9');
    assert forall|k: int| 0 <= k < more.len() implies '0' <= #[trigger] more[k] <= '9' by {
        if k < s.len() {
            assert(more[k] == s[k]);
        }
    }
    assert(digits_value(more) == 10 * digits_value(s) + last);
    let signed = seq!['+'] + s;
    assert(signed.skip(1) =~= s);
}

/// Text that is not made of digits, but for a plus sign at its head, is no number; neither is text
/// without any digit.
pub proof fn law_other_text_is_no_number(s: Seq<char>, i: int)
    ensures
        0 <= i < s.len() && !('0' <= s[i] <= '9') && (i > 0 || s[0] != '+') ==> parsed_usize(s)
            is None,
        parsed_usize(seq![]) is None,
        parsed_usize(seq!['+']) is None,
{
    if 0 <= i < s.len() && !('0' <= s[i] <= '9') && (i > 0 || s[0] != '+') {
        if s[0] == '+' {
            let d = s.skip(1);
            assert(d[i - 1] == s[i]);
            assert(!all_digits(d));
        } else {
            assert(!all_digits(s));
        }
    }
    assert(seq!['+'].skip(1) =~= seq![]);
}

// ---------------------------------------------------------------------------------------------
// Functions
// ---------------------------------------------------------------------------------------------

/// The characters of a string.
pub fn to_chars(s: &str) -> (r: Vec<char>)
    ensures
        r@ == s@,
{
    let mut out: Vec<char> = Vec::new();
    for c in it: s.chars()
        invariant
            it.seq() == s@,
            out@ == s@.take(it.index() as int),
    {
        out.push(c);
    }
    out
}

/// The string made of the given characters.
pub fn from_chars(v: &[char]) -> (r: String)
    ensures
        r@ == v@,
{
    let mut out = String::new();
    for i in 0..v.len()
        invariant
            out@ == v@.take(i as int),
    {
        out.push(v[i]);
    }
    out
}

/// Appends characters to a string.
pub fn push_chars(out: &mut String, v: &[char])
    ensures
        final(out)@ == old(out)@ + v@,
{
    for i in 0..v.len()
        invariant
            out@ == old(out)@ + v@.take(i as int),
    {
        out.push(v[i]);
    }
}

/// Whether a character has the Unicode property `White_Space`.
pub fn white_space(c: char) -> (r: bool)
    ensures
        r == is_white_space(c),
{
    let n: u32 = c as u32;
    (0x9 <= n && n <= 0xD) || n == 0x20 || n == 0x85 || n == 0xA0 || n == 0x1680 || (0x2000 <= n
        && n <= 0x200A) || n == 0x2028 || n == 0x2029 || n == 0x202F || n == 0x205F || n == 0x3000
}

/// A text without its leading white space.
pub fn trim_start(s: &[char]) -> (r: &[char])
    ensures
        r@ == trimmed_start(s@),
{
    let mut i: usize = 0;
    assert(s@.skip(0) == s@);
    while i < s.len() && white_space(s[i])
        invariant
            i <= s.len(),
            trimmed_start(s@) == trimmed_start(s@.skip(i as int)),
        decreases s.len() - i,
    {
        assert(s@.skip(i as int).skip(1) == s@.skip(i + 1));
        i += 1;
    }
    slice_subrange(s, i, s.len())
}

/// A text without its trailing white space.
pub fn trim_end(s: &[char]) -> (r: &[char])
    ensures
        r@ == trimmed_end(s@),
{
    let mut n: usize = s.len();
    assert(s@.take(n as int) == s@);
    while n > 0 && white_space(s[n - 1])
        invariant
            n <= s.len(),
            trimmed_end(s@) == trimmed_end(s@.take(n as int)),
        decreases n,
    {
        assert(s@.take(n as int).drop_last() == s@.take(n - 1));
        n -= 1;
    }
    slice_subrange(s, 0, n)
}

/// A text without leading and trailing white space.
pub fn trim(s: &[char]) -> (r: &[char])
    ensures
        r@ == trimmed(s@),
{
    trim_end(trim_start(s))
}

/// A text without the run of `c` that it ends in.
pub fn trim_end_of(s: &[char], c: char) -> (r: &[char])
    ensures
        r@ == without_trailing(s@, c),
{
    let mut n: usize = s.len();
    assert(s@.take(n as int) == s@);
    while n > 0 && s[n - 1] == c
        invariant
            n <= s.len(),
            without_trailing(s@, c) == without_trailing(s@.take(n as int), c),
        decreases n,
    {
        assert(s@.take(n as int).drop_last() == s@.take(n - 1));
        n -= 1;
    }
    slice_subrange(s, 0, n)
}

/// The position of the first `c` at or after `from`; the length of the text if there is none.
pub fn find_from(s: &[char], from: usize, c: char) -> (r: usize)
    requires
        from <= s.len(),
    ensures
        from <= r <= s.len(),
        r == from + first_of(s@.skip(from as int), c),
{
    let mut i: usize = from;
    while i < s.len() && s[i] != c
        invariant
            from <= i <= s.len(),
            forall|j: int| from <= j < i ==> s@[j] != c,
        decreases s.len() - i,
    {
        i += 1;
    }
    proof {
        lemma_first_of_is(s@.skip(from as int), c, i - from);
    }
    i
}

/// The position of the first white space at or after `from`; the length of the text if there is
/// none.
pub fn find_space_from(s: &[char], from: usize) -> (r: usize)
    requires
        from <= s.len(),
    ensures
        from <= r <= s.len(),
        r == from + first_space(s@.skip(from as int)),
{
    let mut i: usize = from;
    while i < s.len() && !white_space(s[i])
        invariant
            from <= i <= s.len(),
            forall|j: int| from <= j < i ==> !is_white_space(s@[j]),
        decreases s.len() - i,
    {
        i += 1;
    }
    proof {
        lemma_first_space(s@.skip(from as int));
        let k = first_space(s@.skip(from as int));
        if k < i - from {
            assert(is_white_space(s@.skip(from as int)[k]));
            assert(!is_white_space(s@[from + k]));
        } else if k > i - from {
            assert(!is_white_space(s@.skip(from as int)[i - from]));
        }
    }
    i
}

/// The lines of a text.
pub fn lines<'a>(s: &'a [char]) -> (r: Vec<&'a [char]>)
    ensures
        texts(r@) == lines_of(s@),
{
    let mut out: Vec<&'a [char]> = Vec::new();
    let mut start: usize = 0;
    assert(s@.skip(0) == s@);
    assert(texts(out@) + lines_of(s@) == lines_of(s@));
    while start < s.len()
        invariant
            start <= s.len(),
            texts(out@) + lines_of(s@.skip(start as int)) == lines_of(s@),
        decreases s.len() - start,
    {
        let ghost rest = s@.skip(start as int);
        let ghost before = out@;
        let i = find_from(s, start, '\n');
        if i < s.len() {
            let end: usize = if i > start && s[i - 1] == '\r' {
                i - 1
            } else {
                i
            };
            let line = slice_subrange(s, start, end);
            out.push(line);
            proof {
                assert(line@ == without_cr(rest.take(i - start)));
                assert(rest.skip(i - start + 1) == s@.skip(i + 1));
                assert(texts(out@) == texts(before).push(line@));
            }
            start = i + 1;
        } else {
            let line = slice_subrange(s, start, s.len());
            out.push(line);
            proof {
                assert(line@ == rest);
                assert(texts(out@) == texts(before).push(line@));
                assert(lines_of(rest) == seq![rest]);
                assert(lines_of(s@.skip(s@.len() as int)) =~= seq![]);
            }
            start = s.len();
        }
    }
    assert(lines_of(s@.skip(start as int)) =~= seq![]);
    out
}

/// The words of a text.
pub fn words<'a>(s: &'a [char]) -> (r: Vec<&'a [char]>)
    ensures
        texts(r@) == words_of(s@),
{
    let mut out: Vec<&'a [char]> = Vec::new();
    let mut rest: &'a [char] = s;
    assert(texts(out@) + words_of(s@) == words_of(s@));
    while rest.len() > 0
        invariant
            texts(out@) + words_of(rest@) == words_of(s@),
        decreases rest.len(),
    {
        let ghost before = out@;
        let t = trim_start(rest);
        proof {
            lemma_trimmed_start_len(rest@);
            lemma_trimmed_start_stops(rest@);
        }
        assert(t@.skip(0) == t@);
        let i = find_space_from(t, 0);
        if t.len() > 0 {
            proof {
                lemma_first_space(t@);
            }
            let word = slice_subrange(t, 0, i);
            out.push(word);
            proof {
                assert(texts(out@) == texts(before).push(t@.take(i as int)));
                assert(words_of(rest@) == seq![t@.take(i as int)] + words_of(t@.skip(i as int)));
            }
        } else {
            assert(words_of(rest@) =~= seq![]);
            assert(words_of(t@.skip(i as int)) =~= seq![]);
        }
        rest = slice_subrange(t, i, t.len());
    }
    assert(trimmed_start(rest@) == rest@);
    assert(words_of(rest@) =~= seq![]);
    out
}

/// Whether two texts are the same.
pub fn same(a: &[char], b: &[char]) -> (r: bool)
    ensures
        r == (a@ == b@),
{
    if a.len() != b.len() {
        return false;
    }
    for i in 0..a.len()
        invariant
            a.len() == b.len(),
            a@.take(i as int) == b@.take(i as int),
    {
        if a[i] != b[i] {
            return false;
        }
        assert(a@.take(i + 1) == a@.take(i as int).push(a@[i as int]));
        assert(b@.take(i + 1) == b@.take(i as int).push(b@[i as int]));
    }
    assert(a@.take(a@.len() as int) == a@);
    assert(b@.take(b@.len() as int) == b@);
    true
}

/// Whether two strings are the same.
pub fn same_str(a: &str, b: &str) -> (r: bool)
    ensures
        r == (a@ == b@),
{
    same(to_chars(a).as_slice(), to_chars(b).as_slice())
}

/// What is left of a text behind a prefix; nothing if it does not begin with that prefix.
pub fn strip_prefix<'a>(s: &'a [char], prefix: &str) -> (r: Option<&'a [char]>)
    ensures
        r is Some <==> prefix@.is_prefix_of(s@),
        r matches Some(rest) ==> rest@ == s@.skip(prefix@.len() as int),
{
    let p = to_chars(prefix);
    if s.len() < p.len() {
        return None;
    }
    let head = slice_subrange(s, 0, p.len());
    if same(head, p.as_slice()) {
        Some(slice_subrange(s, p.len(), s.len()))
    } else {
        proof {
            if prefix@.is_prefix_of(s@) {
                assert(head@ == p@);
            }
        }
        None
    }
}

/// Whether a text begins with a prefix.
pub fn starts_with(s: &[char], prefix: &str) -> (r: bool)
    ensures
        r == prefix@.is_prefix_of(s@),
{
    strip_prefix(s, prefix).is_some()
}

/// The digit for a number below ten.
fn digit_char(n: u8) -> (r: char)
    requires
        n < 10,
    ensures
        r == digit(n as int),
{
    (0x30 + n) as char
}

/// Appends a number in decimal.
pub fn push_decimal(out: &mut String, n: u64)
    ensures
        final(out)@ == old(out)@ + decimal(n as nat),
    decreases n,
{
    if n >= 10 {
        push_decimal(out, n / 10);
    }
    out.push(digit_char((n % 10) as u8));
    proof {
        if n >= 10 {
            assert(out@ =~= old(out)@ + decimal((n / 10) as nat).push(digit((n % 10) as int)));
        } else {
            assert(out@ =~= old(out)@ + seq![digit(n as int)]);
        }
    }
}

/// Appends the last `width` hexadecimal digits of a number.
pub fn push_hex(out: &mut String, n: u64, width: u32)
    ensures
        final(out)@ == old(out)@ + hex(n as nat, width as nat),
    decreases width,
{
    if width > 0 {
        push_hex(out, n / 16, width - 1);
        let d: u8 = (n % 16) as u8;
        let c = if d < 10 {
            (0x30 + d) as char
        } else {
            (0x61 + (d - 10)) as char
        };
        out.push(c);
        assert(out@ =~= old(out)@ + hex((n / 16) as nat, (width - 1) as nat).push(
            hex_digit((n % 16) as int),
        ));
    }
}

/// A prefix of a sequence of digits stands for a number that is not larger.
proof fn lemma_digits_value_grows(s: Seq<char>, k: int)
    requires
        0 <= k <= s.len(),
        all_digits(s),
    ensures
        digits_value(s.take(k)) <= digits_value(s),
    decreases s.len() - k,
{
    if k < s.len() {
        lemma_digits_value_grows(s, k + 1);
        assert(s.take(k + 1).drop_last() == s.take(k));
        assert('0' <= s[k] <= '9');
    } else {
        assert(s.take(k) == s);
    }
}

/// Reads a number: decimal digits, at least one, after at most one `+`.
pub fn parse_usize(s: &[char]) -> (r: Option<usize>)
    ensures
        r == parsed_usize(s@),
{
    let d = if s.len() > 0 && s[0] == '+' {
        slice_subrange(s, 1, s.len())
    } else {
        s
    };
    assert(s@.len() > 0 && s@[0] == '+' ==> d@ == s@.skip(1));
    if d.len() == 0 {
        return None;
    }
    let mut value: usize = 0;
    for i in 0..d.len()
        invariant
            value == digits_value(d@.take(i as int)),
            all_digits(d@.take(i as int)),
            d@.len() > 0,
            d@ == (if s@.len() > 0 && s@[0] == '+' {
                s@.skip(1)
            } else {
                s@
            }),
    {
        let c = d[i];
        if c < '0' || c > '9' {
            assert(!all_digits(d@)) by {
                assert(d@[i as int] == c);
            }
            return None;
        }
        let n: usize = (c as u32 - 0x30) as usize;
        proof {
            let t = d@.take(i + 1);
            assert(t.drop_last() == d@.take(i as int));
            assert(t.last() == c);
            assert(digits_value(t) == 10 * value + n);
            assert forall|j: int| 0 <= j < t.len() implies '0' <= #[trigger] t[j] <= '9' by {
                if j < i {
                    assert(t[j] == d@.take(i as int)[j]);
                }
            }
            if all_digits(d@) {
                lemma_digits_value_grows(d@, i + 1);
            }
        }
        if value > (usize::MAX - n) / 10 {
            assert(10 * value + n > usize::MAX);
            return None;
        }
        value = 10 * value + n;
    }
    assert(d@.take(d@.len() as int) == d@);
    Some(value)
}

/// The texts of `parts`, each followed by a line feed.
pub fn with_newlines(parts: &Vec<String>) -> (r: String)
    ensures
        r@ == each_with_newline(strings(parts@)),
{
    let mut out = String::new();
    for i in 0..parts.len()
        invariant
            out@ == each_with_newline(strings(parts@.take(i as int))),
    {
        let part = to_chars(parts[i].as_str());
        push_chars(&mut out, part.as_slice());
        out.push('\n');
        proof {
            let upto = strings(parts@.take(i + 1));
            assert(upto.drop_last() == strings(parts@.take(i as int)));
            assert(out@ =~= each_with_newline(upto.drop_last()) + upto.last() + seq!['\n']);
        }
    }
    assert(parts@.take(parts@.len() as int) == parts@);
    out
}

/// The texts of `parts` with `sep` between each two neighbours.
pub fn join(parts: &Vec<String>, sep: char) -> (r: String)
    ensures
        r@ == joined(strings(parts@), sep),
{
    let mut out = String::new();
    for i in 0..parts.len()
        invariant
            out@ == joined(strings(parts@.take(i as int)), sep),
    {
        if i > 0 {
            out.push(sep);
        }
        let part = to_chars(parts[i].as_str());
        push_chars(&mut out, part.as_slice());
        proof {
            let upto = strings(parts@.take(i + 1));
            assert(upto.drop_last() == strings(parts@.take(i as int)));
            if i == 0 {
                assert(out@ =~= upto[0]);
            }
        }
    }
    assert(parts@.take(parts@.len() as int) == parts@);
    out
}

/// The texts that a vector holds are its elements, each whole and in their order.
pub proof fn law_texts_are_whole(v: Seq<&[char]>, w: Seq<String>)
    ensures
        texts(v).len() == v.len(),
        forall|i: int| 0 <= i < v.len() ==> #[trigger] texts(v)[i] == v[i]@,
        strings(w).len() == w.len(),
        forall|i: int| 0 <= i < w.len() ==> #[trigger] strings(w)[i] == w[i]@,
{
}

}
