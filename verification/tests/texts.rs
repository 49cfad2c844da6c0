use localize_npc_names::number::{parse_id, push_decimal, push_signed};
use localize_npc_names::text::{
    char_is_space, contains, contains_char, line_at, matches_at, offset, push_chars, push_str,
    same_text, starts_with, to_chars, to_text, trim, Line,
};

fn chars(s: &str) -> Vec<char> {
    s.chars().collect()
}

fn text(v: &[char]) -> String {
    v.iter().collect()
}

#[test]
fn white_space_is_what_unicode_says() {
    for c in ['\t', '\n', '\u{b}', '\u{c}', '\r', ' ', '\u{85}', '\u{a0}', '\u{1680}', '\u{2000}',
        '\u{200a}', '\u{2028}', '\u{2029}', '\u{202f}', '\u{205f}', '\u{3000}']
    {
        assert!(char_is_space(c));
    }
    for c in ['a', '0', '\u{8}', '\u{e}', '\u{200b}', '\u{180e}', '\u{feff}', '_'] {
        assert!(!char_is_space(c));
    }
    for n in 0..0x3100u32 {
        if let Some(c) = char::from_u32(n) {
            assert_eq!(char_is_space(c), c.is_whitespace());
        }
    }
}

#[test]
fn trimming_takes_white_space_off_both_ends() {
    for s in ["", " ", "a", " a", "a ", " \t a b \r\n", "\u{a0}x\u{3000}", "   ", "\na\n"] {
        assert_eq!(text(trim(&chars(s))), s.trim());
    }
}

#[test]
fn finding_a_text_in_a_text() {
    let cases = [("abcabc", "bc"), ("abc", ""), ("", ""), ("", "a"), ("abc", "abcd"), ("abc", "abc"),
        ("aab", "ab"), ("abc", "ac"), ("xyz", "z")];
    for (s, n) in cases {
        assert_eq!(contains(&chars(s), &chars(n)), s.contains(n));
        assert_eq!(starts_with(&chars(s), &chars(n)), s.starts_with(n));
    }
    assert!(matches_at(&chars("abcabc"), &chars("bc"), 4));
    assert!(!matches_at(&chars("abcabc"), &chars("bc"), 5));
    assert!(!matches_at(&chars("abcabc"), &chars("bc"), 7));
    assert!(matches_at(&chars("abc"), &chars(""), 3));
    assert!(contains_char(&chars("a)b"), ')'));
    assert!(!contains_char(&chars("a(b"), ')'));
    assert!(same_text(&chars("ab"), &chars("ab")));
    assert!(!same_text(&chars("ab"), &chars("abc")));
    assert!(!same_text(&chars("ab"), &chars("ac")));
}

#[test]
fn strings_and_characters() {
    assert_eq!(to_chars("a\u{e9}\u{1f600}"), vec!['a', '\u{e9}', '\u{1f600}']);
    assert_eq!(to_text(&['a', '\u{e9}', '\u{1f600}']), "a\u{e9}\u{1f600}");
    let mut out = vec!['x'];
    push_chars(&mut out, &['y', 'z']);
    push_str(&mut out, "\u{e9}!");
    assert_eq!(out, vec!['x', 'y', 'z', '\u{e9}', '!']);
}

fn lines_of(s: &str) -> Vec<(String, String)> {
    let t = chars(s);
    let mut found = Vec::new();
    let mut pos = 0;
    while pos < t.len() {
        let line = line_at(&t, pos);
        assert_eq!(offset(&t, &line), pos);
        found.push((text(&t[line.start..line.end]), text(&t[line.end..line.next])));
        pos = line.next;
    }
    found
}

#[test]
fn lines_end_at_a_line_feed() {
    let l = |c: &str, e: &str| (c.to_string(), e.to_string());
    assert_eq!(lines_of(""), vec![]);
    assert_eq!(lines_of("a"), vec![l("a", "")]);
    assert_eq!(lines_of("a\n"), vec![l("a", "\n")]);
    assert_eq!(lines_of("a\r\nb"), vec![l("a", "\r\n"), l("b", "")]);
    assert_eq!(lines_of("\n\r\n\r"), vec![l("", "\n"), l("", "\r\n"), l("\r", "")]);
    assert_eq!(lines_of("a\rb\r\r\n"), vec![l("a\rb\r", "\r\n")]);
    for s in ["", "a", "a\n", "a\n\nb", "a\r\nb\r\n", "\r\n", "x\r", "a\rb\n"] {
        let contents: Vec<String> = lines_of(s).into_iter().map(|p| p.0).collect();
        let expected: Vec<String> = s.lines().map(String::from).collect();
        assert_eq!(contents, expected);
    }
}

#[test]
fn a_line_knows_where_it_begins() {
    let t = chars("ab\ncd\n");
    let line = line_at(&t, 3);
    assert_eq!((line.start, line.end, line.next), (3, 5, 6));
    assert_eq!(offset(&t, &line), 3);
    let first = Line { start: 0, end: 2, next: 3 };
    assert_eq!(offset(&t, &first), 0);
}

#[test]
fn identifiers_are_runs_of_digits_that_fit() {
    assert_eq!(parse_id(&chars("0")), Some(0));
    assert_eq!(parse_id(&chars("007")), Some(7));
    assert_eq!(parse_id(&chars("12345")), Some(12345));
    assert_eq!(parse_id(&chars("9223372036854775807")), Some(i64::MAX));
    assert_eq!(parse_id(&chars("9223372036854775808")), None);
    assert_eq!(parse_id(&chars("99999999999999999999999")), None);
    assert_eq!(parse_id(&chars("")), None);
    assert_eq!(parse_id(&chars("12a")), None);
    assert_eq!(parse_id(&chars("-1")), None);
    assert_eq!(parse_id(&chars("+1")), None);
    assert_eq!(parse_id(&chars("\u{661}")), None);
}

#[test]
fn numbers_are_written_in_decimal() {
    let dec = |n: u64| {
        let mut out = vec!['#'];
        push_decimal(&mut out, n);
        text(&out)
    };
    let signed = |n: i64| {
        let mut out = Vec::new();
        push_signed(&mut out, n);
        text(&out)
    };
    assert_eq!(dec(0), "#0");
    assert_eq!(dec(9), "#9");
    assert_eq!(dec(10), "#10");
    assert_eq!(dec(1234567890), "#1234567890");
    assert_eq!(dec(u64::MAX), "#18446744073709551615");
    assert_eq!(signed(0), "0");
    assert_eq!(signed(-1), "-1");
    assert_eq!(signed(i64::MAX), "9223372036854775807");
    assert_eq!(signed(i64::MIN), "-9223372036854775808");
    for n in [0i64, 5, 10, 99, 100, 101, 65535, 1 << 40] {
        assert_eq!(parse_id(&chars(&signed(n))), Some(n));
    }
}
