use git_releasenotes::order::{chars_le, drop_repeats, line_le, sort_lines};
use git_releasenotes::text::{
    append_chars, append_str, chars_of, decimal_chars, includes_chars, matches_at, parse_number,
    slice_of, split_lines, string_of, trimmed,
};

fn chars(text: &str) -> Vec<char> {
    text.chars().collect()
}

fn strings(texts: &[&str]) -> Vec<String> {
    texts.iter().map(|t| t.to_string()).collect()
}

#[test]
fn characters_and_strings_convert_both_ways() {
    assert_eq!(chars_of("a\u{e9}\u{2192}z"), vec!['a', '\u{e9}', '\u{2192}', 'z']);
    assert_eq!(chars_of(""), Vec::<char>::new());
    assert_eq!(string_of(&vec!['a', '\u{e9}', '\u{2192}', 'z']), "a\u{e9}\u{2192}z");
    assert_eq!(string_of(&Vec::new()), "");
}

#[test]
fn slices_and_appends() {
    let v = chars("hello world");
    assert_eq!(slice_of(&v, 6, 11), chars("world"));
    assert_eq!(slice_of(&v, 3, 3), chars(""));
    assert_eq!(slice_of(&v, 0, 11), v);
    let mut w = chars("ab");
    append_chars(&mut w, &chars("cd"));
    append_str(&mut w, "\u{e9}f");
    append_str(&mut w, "");
    assert_eq!(w, chars("abcd\u{e9}f"));
}

#[test]
fn needle_is_matched_at_a_position() {
    let hay = chars("abcabc");
    assert!(matches_at(&hay, &chars("abc"), 0));
    assert!(matches_at(&hay, &chars("abc"), 3));
    assert!(!matches_at(&hay, &chars("abc"), 1));
    assert!(!matches_at(&hay, &chars("abc"), 4));
    assert!(!matches_at(&hay, &chars("abc"), usize::MAX));
    assert!(matches_at(&hay, &chars(""), 6));
    assert!(!matches_at(&hay, &chars(""), 7));
    assert!(!matches_at(&chars("ab"), &chars("abc"), 0));
}

#[test]
fn needle_is_found_anywhere() {
    assert!(includes_chars(&chars("say hello"), &chars("hello")));
    assert!(includes_chars(&chars("hello"), &chars("hello")));
    assert!(includes_chars(&chars("hello"), &chars("")));
    assert!(includes_chars(&chars(""), &chars("")));
    assert!(!includes_chars(&chars(""), &chars("a")));
    assert!(!includes_chars(&chars("hell"), &chars("hello")));
    assert!(!includes_chars(&chars("#12"), &chars("#123")));
    assert!(includes_chars(&chars("(#1234)"), &chars("#123")));
}

#[test]
fn white_space_is_trimmed_at_both_ends() {
    assert_eq!(trimmed(&chars("  a b \t\r\n")), chars("a b"));
    assert_eq!(trimmed(&chars("a")), chars("a"));
    assert_eq!(trimmed(&chars(" \t ")), chars(""));
    assert_eq!(trimmed(&chars("")), chars(""));
    assert_eq!(trimmed(&chars("\u{a0}\u{3000}x\u{2003}")), chars("x"));
    assert_eq!(trimmed(&chars("\u{200b}x")), chars("\u{200b}x"));
}

#[test]
fn text_is_split_into_lines() {
    assert_eq!(split_lines(&chars("")), Vec::<String>::new());
    assert_eq!(split_lines(&chars("a")), strings(&["a"]));
    assert_eq!(split_lines(&chars("a\n")), strings(&["a"]));
    assert_eq!(split_lines(&chars("\n")), strings(&[""]));
    assert_eq!(split_lines(&chars("a\n\nb")), strings(&["a", "", "b"]));
    assert_eq!(split_lines(&chars("a\r\nb\r\n")), strings(&["a", "b"]));
    assert_eq!(split_lines(&chars("a\rb\r")), strings(&["a\rb\r"]));
    assert_eq!(split_lines(&chars("a\r\r\nb")), strings(&["a\r", "b"]));
    assert_eq!(split_lines(&chars("\r\n\r")), strings(&["", "\r"]));
}

#[test]
fn lines_agree_with_the_standard_library() {
    for text in ["", "a", "a\n", "\n\n", "a\r\nb", "a\nb\r", "\r", "x\r\n\r\ny\n", "\n\r\n"] {
        let expected: Vec<String> = text.lines().map(|l| l.to_string()).collect();
        assert_eq!(split_lines(&chars(text)), expected);
        assert_eq!(string_of(&trimmed(&chars(text))), text.trim());
    }
}

#[test]
fn numbers_are_written_in_decimal() {
    assert_eq!(decimal_chars(0), chars("0"));
    assert_eq!(decimal_chars(7), chars("7"));
    assert_eq!(decimal_chars(10), chars("10"));
    assert_eq!(decimal_chars(2887), chars("2887"));
    assert_eq!(decimal_chars(u64::MAX), chars("18446744073709551615"));
}

#[test]
fn numbers_are_read_from_decimal() {
    assert_eq!(parse_number(&chars("0"), u64::MAX), Some(0));
    assert_eq!(parse_number(&chars("007"), u64::MAX), Some(7));
    assert_eq!(parse_number(&chars("+42"), u64::MAX), Some(42));
    assert_eq!(parse_number(&chars("18446744073709551615"), u64::MAX), Some(u64::MAX));
    assert_eq!(parse_number(&chars("18446744073709551616"), u64::MAX), None);
    assert_eq!(parse_number(&chars("99999999999999999999999"), u64::MAX), None);
    assert_eq!(parse_number(&chars("4294967295"), 4294967295), Some(4294967295));
    assert_eq!(parse_number(&chars("4294967296"), 4294967295), None);
    assert_eq!(parse_number(&chars("5"), 4), None);
    assert_eq!(parse_number(&chars("0"), 0), Some(0));
    assert_eq!(parse_number(&chars(""), u64::MAX), None);
    assert_eq!(parse_number(&chars("+"), u64::MAX), None);
    assert_eq!(parse_number(&chars("-1"), u64::MAX), None);
    assert_eq!(parse_number(&chars("++1"), u64::MAX), None);
    assert_eq!(parse_number(&chars("1+"), u64::MAX), None);
    assert_eq!(parse_number(&chars("12a"), u64::MAX), None);
    assert_eq!(parse_number(&chars(" 1"), u64::MAX), None);
    assert_eq!(parse_number(&chars("\u{663}"), u64::MAX), None);
}

#[test]
fn numbers_agree_with_the_standard_library() {
    for text in ["0", "+0", "12", "4294967295", "4294967296", "", "+", "-0", "1_0", "0x10", "00000000000000000000001"] {
        assert_eq!(parse_number(&chars(text), 4294967295), text.parse::<u32>().ok().map(u64::from));
        assert_eq!(parse_number(&chars(text), u64::MAX), text.parse::<u64>().ok());
    }
}

#[test]
fn texts_are_ordered_as_in_the_dictionary() {
    assert!(chars_le(&chars(""), &chars("")));
    assert!(chars_le(&chars(""), &chars("a")));
    assert!(!chars_le(&chars("a"), &chars("")));
    assert!(chars_le(&chars("a"), &chars("a")));
    assert!(chars_le(&chars("a"), &chars("ab")));
    assert!(!chars_le(&chars("ab"), &chars("a")));
    assert!(chars_le(&chars("ab"), &chars("b")));
    assert!(chars_le(&chars("B"), &chars("a")));
    assert!(!chars_le(&chars("a"), &chars("B")));
    assert!(line_le("z", "\u{e9}"));
    assert!(line_le("\u{ffff}", "\u{10000}"));
    assert!(!line_le("\u{10000}", "\u{ffff}"));
}

#[test]
fn order_agrees_with_the_standard_library() {
    let texts = ["", "a", "ab", "b", "B", "-", "- a", "\u{e9}", "\u{ffff}", "\u{10000}", "z\u{e9}"];
    for a in texts {
        for b in texts {
            assert_eq!(line_le(a, b), a <= b);
        }
    }
}

#[test]
fn lines_are_sorted_and_none_is_lost() {
    assert_eq!(sort_lines(&Vec::new()), Vec::<String>::new());
    assert_eq!(
        sort_lines(&strings(&["b", "a", "", "b", "ab", "B"])),
        strings(&["", "B", "a", "ab", "b", "b"])
    );
    let texts = strings(&["- z", "- \u{e9}", "- a (#2)", "- a", "## x", "- A", "- a"]);
    let mut expected = texts.clone();
    expected.sort();
    assert_eq!(sort_lines(&texts), expected);
}

#[test]
fn repeats_of_the_line_before_are_dropped() {
    assert_eq!(drop_repeats(&Vec::new()), Vec::<String>::new());
    assert_eq!(drop_repeats(&strings(&["a"])), strings(&["a"]));
    assert_eq!(
        drop_repeats(&strings(&["a", "a", "b", "b", "b", "a", ""])),
        strings(&["a", "b", "a", ""])
    );
}
