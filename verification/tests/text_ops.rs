use rust_http_server::text::{
    chars_of, decimal_text, find_char, is_whitespace, split_lines, split_whitespace, starts_with,
    text_eq, trim_text,
};

#[test]
fn white_space_is_what_the_standard_library_says() {
    for code in 0..=0x10ffffu32 {
        if let Some(c) = char::from_u32(code) {
            assert_eq!(is_whitespace(c), c.is_whitespace(), "U+{:04X}", code);
        }
    }
}

#[test]
fn trim_removes_surrounding_white_space() {
    assert_eq!(trim_text("  a b \t"), "a b");
    assert_eq!(trim_text("\u{a0}\u{3000}x\u{2028}"), "x");
    assert_eq!(trim_text(" \r\n "), "");
    assert_eq!(trim_text(""), "");
    assert_eq!(trim_text("x"), "x");
    for s in ["", " ", "a", " a", "a ", "  a  b  ", "\u{85}\u{e9}\u{1680}", "\t\n\u{b}\u{c}\r"] {
        assert_eq!(trim_text(s), s.trim());
    }
}

#[test]
fn words_are_the_runs_without_white_space() {
    assert_eq!(split_whitespace("GET /home HTTP/1.1 "), vec!["GET", "/home", "HTTP/1.1"]);
    assert_eq!(split_whitespace(""), Vec::<String>::new());
    assert_eq!(split_whitespace(" \t\r\n"), Vec::<String>::new());
    assert_eq!(split_whitespace("one"), vec!["one"]);
    for s in ["a  b", " a\u{2003}b\u{a0}", "x\ty\nz", "\u{e9}t\u{e9} \u{4e16}\u{754c}"] {
        let expected: Vec<String> = s.split_whitespace().map(String::from).collect();
        assert_eq!(split_whitespace(s), expected);
    }
}

#[test]
fn lines_are_parted_by_carriage_return_and_line_feed() {
    assert_eq!(split_lines("a\r\nb"), vec!["a", "b"]);
    assert_eq!(split_lines("a\r\n"), vec!["a", ""]);
    assert_eq!(split_lines(""), vec![""]);
    assert_eq!(split_lines("\r\n\r\n"), vec!["", "", ""]);
    assert_eq!(split_lines("a\nb\rc"), vec!["a\nb\rc"]);
    assert_eq!(split_lines("a\r\r\nb"), vec!["a\r", "b"]);
    assert_eq!(split_lines("a\r\n\nb"), vec!["a", "\nb"]);
    for s in ["x\r\ny\r\n\r\nz", "\r", "\n\r", "\r\n\r", "\u{e9}\r\n\u{4e16}"] {
        let expected: Vec<String> = s.split("\r\n").map(String::from).collect();
        assert_eq!(split_lines(s), expected);
    }
}

#[test]
fn find_char_counts_characters() {
    assert_eq!(find_char("Host: x", ':'), 4);
    assert_eq!(find_char("a:b:c", ':'), 1);
    assert_eq!(find_char("abc", ':'), 3);
    assert_eq!(find_char("", ':'), 0);
    assert_eq!(find_char("\u{e9}\u{4e16}:", ':'), 2);
}

#[test]
fn decimal_numerals() {
    assert_eq!(decimal_text(0), "0");
    assert_eq!(decimal_text(9), "9");
    assert_eq!(decimal_text(10), "10");
    assert_eq!(decimal_text(201), "201");
    assert_eq!(decimal_text(1_000_000), "1000000");
    assert_eq!(decimal_text(usize::MAX), usize::MAX.to_string());
}

#[test]
fn text_comparisons() {
    assert!(text_eq("abc", "abc"));
    assert!(!text_eq("abc", "abd"));
    assert!(!text_eq("abc", "ab"));
    assert!(text_eq("", ""));
    assert!(starts_with("exit now", "exit"));
    assert!(starts_with("exit", "exit"));
    assert!(starts_with("anything", ""));
    assert!(!starts_with("exi", "exit"));
    assert!(!starts_with("Exit", "exit"));
    assert_eq!(chars_of("h\u{e9}"), vec!['h', '\u{e9}']);
}
