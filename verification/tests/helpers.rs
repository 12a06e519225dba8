use fastcommit::chars::{
    contains_char, from_chars, has_content, is_whitespace_char, matches_at, sub_chars,
    to_chars, trimmed,
};
use fastcommit::number::{decimal_text, parse_decimal};
use fastcommit::search::{find_sub, replace_all};
use fastcommit::split::{
    join_chars, physical_lines_chars, split_blank_chars, split_on_char, split_whitespace_chars,
};

fn text(chars: &[char]) -> String {
    chars.iter().collect()
}

fn texts(parts: &[Vec<char>]) -> Vec<String> {
    parts.iter().map(|p| text(p)).collect()
}

#[test]
fn characters_and_strings_convert_both_ways() {
    assert_eq!(to_chars("a中😀"), vec!['a', '中', '😀']);
    assert_eq!(from_chars(&['a', '中', '😀']), "a中😀");
    assert_eq!(from_chars(&[]), "");
    assert_eq!(from_chars(&to_chars("round trip")), "round trip");
    assert_eq!(text(&sub_chars(&to_chars("abcdef"), 2, 4)), "cd");
}

#[test]
fn whitespace_is_the_unicode_white_space_set() {
    for c in [' ', '\t', '\n', '\r', '\u{0b}', '\u{0c}', '\u{85}', '\u{a0}', '\u{1680}', '\u{2003}', '\u{2028}', '\u{2029}', '\u{202f}', '\u{205f}', '\u{3000}'] {
        assert!(is_whitespace_char(c), "{c:?}");
    }
    for c in ['a', '-', '\u{200b}', '\u{feff}', '0', '\u{1c}'] {
        assert!(!is_whitespace_char(c), "{c:?}");
    }
    for code in 0u32..0x3100 {
        if let Some(c) = char::from_u32(code) {
            assert_eq!(is_whitespace_char(c), c.is_whitespace(), "{code:#x}");
        }
    }
}

#[test]
fn trimming_drops_whitespace_at_both_ends_only() {
    assert_eq!(text(&trimmed(&to_chars("  a b \n"))), "a b");
    assert_eq!(text(&trimmed(&to_chars(" \t "))), "");
    assert_eq!(text(&trimmed(&to_chars(""))), "");
    assert_eq!(text(&trimmed(&to_chars("x"))), "x");
    assert!(has_content(&to_chars(" x ")));
    assert!(!has_content(&to_chars(" \n ")));
}

#[test]
fn searching_finds_the_first_occurrence() {
    let s = to_chars("abcabc");
    assert_eq!(find_sub(&s, &to_chars("bc"), 0), Some(1));
    assert_eq!(find_sub(&s, &to_chars("bc"), 2), Some(4));
    assert_eq!(find_sub(&s, &to_chars("bd"), 0), None);
    assert_eq!(find_sub(&s, &to_chars(""), 6), Some(6));
    assert!(matches_at(&s, &to_chars("cab"), 2));
    assert!(!matches_at(&s, &to_chars("cab"), 5));
    assert!(contains_char(&s, 'c'));
    assert!(!contains_char(&s, 'd'));
}

#[test]
fn replacing_works_from_left_to_right_without_overlap() {
    let replaced = |s: &str, pat: &str, rep: &str| {
        text(&replace_all(&to_chars(s), &to_chars(pat), &to_chars(rep)))
    };
    assert_eq!(replaced("aaa", "aa", "b"), "aaa".replace("aa", "b"));
    assert_eq!(replaced("aaa", "aa", "b"), "ba");
    assert_eq!(replaced("x{{d}}y{{d}}", "{{d}}", "12"), "x12y12");
    assert_eq!(replaced("abc", "", "-"), "abc".replace("", "-"));
    assert_eq!(replaced("abc", "", "-"), "-a-b-c-");
    assert_eq!(replaced("", "", "-"), "-");
    assert_eq!(replaced("abc", "x", "y"), "abc");
}

#[test]
fn splitting_follows_the_standard_library() {
    for s in ["", "a", "a b", " a  b ", "a\tb\nc", "  ", "a  "] {
        let expected: Vec<String> = s.split_whitespace().map(str::to_string).collect();
        assert_eq!(texts(&split_whitespace_chars(&to_chars(s))), expected, "{s:?}");
        let expected: Vec<String> = s.split(' ').map(str::to_string).collect();
        assert_eq!(texts(&split_on_char(&to_chars(s), ' ')), expected, "{s:?}");
    }
    for s in ["", "a", "a\n\nb", "a\n\n\nb", "a\n\n\n\nb", "\n\n", "a\nb\n\n"] {
        let expected: Vec<String> = s.split("\n\n").map(str::to_string).collect();
        assert_eq!(texts(&split_blank_chars(&to_chars(s))), expected, "{s:?}");
    }
    for s in ["", "a", "a\nb", "a\nb\n", "\na", "a\n\nb", "\n"] {
        let expected: Vec<String> = s.lines().map(str::to_string).collect();
        assert_eq!(texts(&physical_lines_chars(&to_chars(s))), expected, "{s:?}");
    }
}

#[test]
fn joining_puts_the_separator_between_neighbours() {
    let parts = vec![to_chars("a"), to_chars(""), to_chars("bc")];
    assert_eq!(text(&join_chars(&parts, &to_chars(", "))), "a, , bc");
    assert_eq!(text(&join_chars(&Vec::new(), &to_chars(", "))), "");
    assert_eq!(text(&join_chars(&vec![to_chars("x")], &to_chars(", "))), "x");
}

#[test]
fn decimal_numbers_are_read_and_written() {
    assert_eq!(parse_decimal(&to_chars("0"), 10), Some(0));
    assert_eq!(parse_decimal(&to_chars("+7"), 10), Some(7));
    assert_eq!(parse_decimal(&to_chars("007"), 10), Some(7));
    assert_eq!(parse_decimal(&to_chars("10"), 10), Some(10));
    assert_eq!(parse_decimal(&to_chars("11"), 10), None);
    assert_eq!(parse_decimal(&to_chars(""), 10), None);
    assert_eq!(parse_decimal(&to_chars("+"), 10), None);
    assert_eq!(parse_decimal(&to_chars("-1"), 10), None);
    assert_eq!(parse_decimal(&to_chars("1a"), 10), None);
    assert_eq!(parse_decimal(&to_chars("18446744073709551615"), u64::MAX), Some(u64::MAX));
    assert_eq!(parse_decimal(&to_chars("18446744073709551616"), u64::MAX), None);
    assert_eq!(parse_decimal(&to_chars("4294967296"), u32::MAX as u64), None);
    for s in ["0", "+5", "42", "", "x", "99999999999", "4294967295"] {
        let expected = s.parse::<u32>().ok().map(u64::from);
        assert_eq!(parse_decimal(&to_chars(s), u32::MAX as u64), expected, "{s:?}");
    }
    for n in [0u64, 7, 10, 99, 100, 1234567890, u64::MAX] {
        assert_eq!(text(&decimal_text(n)), n.to_string());
    }
}
