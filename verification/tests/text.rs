use clipdmenu::text::{
    find_from, find_space_from, from_chars, join, lines, parse_usize, push_chars, push_decimal,
    push_hex, same, same_str, starts_with, strip_prefix, to_chars, trim, trim_end, trim_end_of,
    trim_start, white_space, with_newlines, words,
};

fn samples() -> Vec<&'static str> {
    vec![
        "",
        " ",
        "\n",
        "\r\n",
        "a",
        "a\n",
        "a\r\n",
        "a\r",
        "foo\nbar\n\r\nbaz\r",
        "foo\r\r\nbar",
        "\u{2003}x y\u{3000}",
        "  two  words  ",
        "\t\ttabs\t",
        "\u{feff}bom stays",
        "\u{180e}mongolian",
        "line\u{2028}sep",
        "été\n日本\n",
    ]
}

#[test]
fn white_space_is_the_unicode_property() {
    for n in 0..=0x10FFFFu32 {
        if let Some(c) = char::from_u32(n) {
            assert_eq!(white_space(c), c.is_whitespace(), "{:x}", n);
        }
    }
}

#[test]
fn trimming_takes_white_space_off_both_ends() {
    for s in samples() {
        let chars = to_chars(s);
        assert_eq!(from_chars(trim(&chars)), s.trim());
        assert_eq!(from_chars(trim_start(&chars)), s.trim_start());
        assert_eq!(from_chars(trim_end(&chars)), s.trim_end());
        assert_eq!(from_chars(trim_end_of(&chars, '\n')), s.trim_end_matches('\n'));
    }
}

#[test]
fn lines_end_in_line_feeds() {
    for s in samples() {
        let chars = to_chars(s);
        let got: Vec<String> = lines(&chars).iter().map(|l| from_chars(l)).collect();
        let want: Vec<String> = s.lines().map(|l| l.to_string()).collect();
        assert_eq!(got, want, "{:?}", s);
    }
    let chars = to_chars("foo\nbar\n\r\nbaz\r");
    let got: Vec<String> = lines(&chars).iter().map(|l| from_chars(l)).collect();
    assert_eq!(got, vec!["foo", "bar", "", "baz\r"]);
}

#[test]
fn words_have_no_white_space() {
    for s in samples() {
        let chars = to_chars(s);
        let got: Vec<String> = words(&chars).iter().map(|w| from_chars(w)).collect();
        let want: Vec<String> = s.split_whitespace().map(|w| w.to_string()).collect();
        assert_eq!(got, want, "{:?}", s);
    }
}

#[test]
fn numbers_are_read_as_the_standard_library_reads_them() {
    let cases = vec![
        "", "+", "-", "0", "+0", "-0", "7", "007", "+42", "++1", "1+", " 1", "1 ", "12a", "٣",
        "18446744073709551615", "18446744073709551616", "00000000000000000000000000000000000005",
        "99999999999999999999999999",
    ];
    for s in cases {
        assert_eq!(parse_usize(&to_chars(s)), s.parse::<usize>().ok(), "{:?}", s);
    }
}

#[test]
fn numbers_are_written_in_decimal_and_hexadecimal() {
    for n in [0u64, 1, 9, 10, 99, 100, 1234567890, u64::MAX] {
        let mut out = String::from(">");
        push_decimal(&mut out, n);
        assert_eq!(out, format!(">{}", n));
        let mut out = String::from(">");
        push_hex(&mut out, n, 16);
        assert_eq!(out, format!(">{:016x}", n));
    }
    let mut out = String::new();
    push_hex(&mut out, 0xabc, 2);
    assert_eq!(out, "bc");
}

#[test]
fn parts_are_joined_and_ended() {
    let none: Vec<String> = Vec::new();
    assert_eq!(join(&none, '\n'), "");
    assert_eq!(with_newlines(&none), "");
    let one = vec!["a".to_string()];
    assert_eq!(join(&one, '\n'), "a");
    assert_eq!(with_newlines(&one), "a\n");
    let three = vec!["a".to_string(), "".to_string(), "c".to_string()];
    assert_eq!(join(&three, '\n'), "a\n\nc");
    assert_eq!(with_newlines(&three), "a\n\nc\n");
}

#[test]
fn prefixes_are_found() {
    let chars = to_chars("SELECT abc");
    assert!(starts_with(&chars, "SELECT "));
    assert!(starts_with(&chars, ""));
    assert!(!starts_with(&chars, "select"));
    assert!(!starts_with(&chars, "SELECT abcd"));
    assert_eq!(strip_prefix(&chars, "SELECT ").map(from_chars), Some("abc".to_string()));
    assert_eq!(strip_prefix(&chars, "X"), None);
}

#[test]
fn positions_and_comparisons() {
    let chars = to_chars("a\tb c\td");
    assert_eq!(find_from(&chars, 0, '\t'), 1);
    assert_eq!(find_from(&chars, 2, '\t'), 5);
    assert_eq!(find_from(&chars, 6, '\t'), 7);
    assert_eq!(find_space_from(&chars, 2), 3);
    assert!(same(&chars, &to_chars("a\tb c\td")));
    assert!(!same(&chars, &to_chars("a\tb c\te")));
    assert!(!same_str("a", "ab"));
    assert!(same_str("é", "é"));
    let mut out = String::from("x");
    push_chars(&mut out, &chars);
    assert_eq!(out, "xa\tb c\td");
}
