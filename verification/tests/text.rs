use better_launcher::text::{
    chars_of, contains_chars, find_from, has_prefix, is_whitespace_char, join_chars,
    last_piece_chars, replace_chars, split_lines, split_words, string_of, trim_chars,
};

fn c(s: &str) -> Vec<char> {
    s.chars().collect()
}

fn rows(v: &[&str]) -> Vec<Vec<char>> {
    v.iter().map(|s| c(s)).collect()
}

#[test]
fn strings_and_characters_convert_both_ways() {
    assert_eq!(chars_of("héllo"), vec!['h', 'é', 'l', 'l', 'o']);
    assert_eq!(string_of(&c("héllo €")), "héllo €");
    assert_eq!(chars_of(""), Vec::<char>::new());
}

#[test]
fn white_space_is_what_the_standard_library_calls_so() {
    for n in 0..=0x10ffffu32 {
        if let Some(ch) = char::from_u32(n) {
            assert_eq!(is_whitespace_char(ch), ch.is_whitespace(), "U+{:04X}", n);
        }
    }
}

#[test]
fn trimming_agrees_with_the_standard_library() {
    for s in ["", " ", "a", " a", "a ", "  a b  ", "\t\n x \r\n", "\u{2003}wide\u{2003}", " \u{feff}" ] {
        assert_eq!(string_of(&trim_chars(&c(s))), s.trim(), "{:?}", s);
    }
}

#[test]
fn words_agree_with_the_standard_library() {
    for s in ["", " ", "one", " one  two\tthree\n", "a\u{a0}b", "  x", "x  ", "7 / 2"] {
        let expected: Vec<Vec<char>> = s.split_whitespace().map(c).collect();
        assert_eq!(split_words(&c(s)), expected, "{:?}", s);
    }
}

#[test]
fn lines_agree_with_the_standard_library() {
    for s in [
        "", "\n", "a", "a\n", "a\nb", "a\n\nb\n", "a\r\nb\r\n", "a\rb\n", "a\r", "\r\n", "\r",
        "a\r\r\nb", "foo\nbar\n\r\nbaz\r", "\n\n",
    ] {
        let expected: Vec<Vec<char>> = s.lines().map(c).collect();
        assert_eq!(split_lines(&c(s)), expected, "{:?}", s);
    }
}

#[test]
fn prefixes_and_substrings() {
    assert!(has_prefix(&c("Name=x"), &c("Name=")));
    assert!(has_prefix(&c("Name="), &c("Name=")));
    assert!(!has_prefix(&c("Name"), &c("Name=")));
    assert!(has_prefix(&c("abc"), &c("")));
    assert!(contains_chars(&c("firefox"), &c("ref")));
    assert!(contains_chars(&c("firefox"), &c("")));
    assert!(!contains_chars(&c("firefox"), &c("fox ")));
    assert_eq!(find_from(&c("abcabc"), &c("bc"), 0), Some(1));
    assert_eq!(find_from(&c("abcabc"), &c("bc"), 2), Some(4));
    assert_eq!(find_from(&c("abcabc"), &c("bc"), 5), None);
    assert_eq!(find_from(&c("abc"), &c("abcd"), 0), None);
    assert_eq!(find_from(&c("abc"), &c(""), 3), Some(3));
    assert_eq!(find_from(&c("abc"), &c(""), 4), None);
}

#[test]
fn replacing_agrees_with_the_standard_library() {
    for (s, pat, with) in [
        ("7/2", "/", " / "), ("a / b / c", " / ", "/"), (" /  / ", " / ", "/"), ("aaaa", "aa", "b"),
        ("aaa", "aa", "b"), ("", "x", "y"), ("abc", "abcd", "!"), ("%%ff", "%f", ""),
    ] {
        assert_eq!(
            string_of(&replace_chars(&c(s), &c(pat), &c(with))),
            s.replace(pat, with),
            "{:?} {:?} {:?}", s, pat, with
        );
    }
}

#[test]
fn joining_puts_the_separator_between() {
    assert_eq!(string_of(&join_chars(&rows(&["a", "b", "c"]), &c(", "))), "a, b, c");
    assert_eq!(string_of(&join_chars(&rows(&["a"]), &c(", "))), "a");
    assert_eq!(string_of(&join_chars(&rows(&[]), &c(", "))), "");
    assert_eq!(string_of(&join_chars(&rows(&["", ""]), &c("-"))), "-");
}

#[test]
fn the_last_piece_agrees_with_the_standard_library() {
    for s in ["2+2 = 4", "a = b = c", "none", "", " = ", "x = ", " = = ", " =  = y", "a = = b"] {
        assert_eq!(
            string_of(&last_piece_chars(&c(s), &c(" = "))),
            s.split(" = ").last().unwrap_or(""),
            "{:?}", s
        );
    }
}
