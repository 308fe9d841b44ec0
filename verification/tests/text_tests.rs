use tinyhttp::text::{
    after_spaces, after_word, blank, chars_of, decimal_text, digit, find_char, folded,
    matches_ignoring_case, parse_unsigned, space, split_bounds, text_of,
    trim_bounds, upper, upper_text, word_bounds,
};

fn chars(s: &str) -> Vec<char> {
    s.chars().collect()
}

fn pieces(s: &str, bounds: &[(usize, usize)]) -> Vec<String> {
    let c = chars(s);
    bounds.iter().map(|&(a, b)| c[a..b].iter().collect()).collect()
}

fn number(s: &str) -> Option<usize> {
    let c = chars(s);
    parse_unsigned(&c, 0, c.len())
}

#[test]
fn space_is_unicode_white_space() {
    let mut code: u32 = 0;
    while code <= 0x10ffff {
        if let Some(c) = char::from_u32(code) {
            assert_eq!(space(c), c.is_whitespace(), "U+{:04X}", code);
        }
        code += 1;
    }
}

#[test]
fn upper_changes_the_ascii_letters_only() {
    let mut code: u32 = 0;
    while code <= 0x10ffff {
        if let Some(c) = char::from_u32(code) {
            assert_eq!(upper(c), c.to_ascii_uppercase(), "U+{:04X}", code);
        }
        code += 1;
    }
}

#[test]
fn folded_is_the_code_of_the_ascii_lower_case() {
    let mut code: u32 = 0;
    while code <= 0x10ffff {
        if let Some(c) = char::from_u32(code) {
            assert_eq!(folded(c), c.to_ascii_lowercase() as u32, "U+{:04X}", code);
        }
        code += 1;
    }
}

#[test]
fn chars_of_lists_the_characters() {
    assert_eq!(chars_of("a\u{e9}\u{1f600}z"), vec!['a', '\u{e9}', '\u{1f600}', 'z']);
    assert_eq!(chars_of(""), Vec::<char>::new());
}

#[test]
fn text_of_copies_a_range() {
    let c = chars("h\u{e9}llo");
    assert_eq!(text_of(&c, 0, 5), "h\u{e9}llo");
    assert_eq!(text_of(&c, 1, 3), "\u{e9}l");
    assert_eq!(text_of(&c, 2, 2), "");
}

#[test]
fn upper_text_copies_a_range_in_upper_case() {
    let c = chars("get \u{e9}-x9");
    assert_eq!(upper_text(&c, 0, 3), "GET");
    assert_eq!(upper_text(&c, 4, 8), "\u{e9}-X9");
}

#[test]
fn find_char_gives_the_first_place_or_the_length() {
    let c = chars("a?b?c");
    assert_eq!(find_char(&c, '?', 0), 1);
    assert_eq!(find_char(&c, '?', 1), 1);
    assert_eq!(find_char(&c, '?', 2), 3);
    assert_eq!(find_char(&c, '?', 4), 5);
    assert_eq!(find_char(&c, '?', 5), 5);
    assert_eq!(find_char(&c, 'x', 0), 5);
}

#[test]
fn after_spaces_and_after_word_walk_a_line() {
    let c = chars("  ab \t cd");
    assert_eq!(after_spaces(&c, 0), 2);
    assert_eq!(after_word(&c, 2), 4);
    assert_eq!(after_spaces(&c, 4), 7);
    assert_eq!(after_word(&c, 7), 9);
    assert_eq!(after_spaces(&c, 9), 9);
    assert_eq!(after_word(&c, 0), 0);
}

#[test]
fn split_bounds_cut_like_split() {
    for s in ["", "/", "a", "/a/b", "a//b/", "///", "/user/:id", "\u{e9}/\u{1f600}/"] {
        let got = pieces(s, &split_bounds(&chars(s), '/'));
        let want: Vec<String> = s.split('/').map(|p| p.to_string()).collect();
        assert_eq!(got, want, "{:?}", s);
    }
}

#[test]
fn word_bounds_cut_like_split_whitespace() {
    for s in ["", " ", "a", " a ", "GET / HTTP/1.1\r\n", "\t a\u{a0}b\u{2003}\u{2003}c\n", "\u{e9} \u{1f600}"] {
        let got = pieces(s, &word_bounds(&chars(s)));
        let want: Vec<String> = s.split_whitespace().map(|p| p.to_string()).collect();
        assert_eq!(got, want, "{:?}", s);
    }
}

#[test]
fn trim_bounds_cut_like_trim() {
    for s in ["", " ", "a", " a ", "\r\n 13 \t", "  a b  ", "\u{a0}x\u{3000}", "   "] {
        let c = chars(s);
        let (a, b) = trim_bounds(&c, 0, c.len());
        let got: String = c[a..b].iter().collect();
        assert_eq!(got, s.trim(), "{:?}", s);
    }
    let c = chars("ab  cd  ef");
    assert_eq!(trim_bounds(&c, 2, 8), (4, 6));
    assert_eq!(trim_bounds(&c, 2, 4), (4, 4));
}

#[test]
fn blank_tells_lines_of_white_space() {
    for s in ["", " ", "\r\n", " \t\r\n", "\u{a0}", "a", " a ", "\r\n.", "\u{200b}"] {
        let c = chars(s);
        assert_eq!(blank(&c, 0, c.len()), s.trim().is_empty(), "{:?}", s);
    }
    let c = chars("a  b");
    assert!(blank(&c, 1, 3));
    assert!(!blank(&c, 1, 4));
}

#[test]
fn matches_ignoring_case_folds_ascii_letters_only() {
    let name = chars("content-length");
    for (s, want) in [
        ("content-length", true),
        ("Content-Length", true),
        ("CONTENT-LENGTH", true),
        ("content-lengt", false),
        ("content-lengthh", false),
        ("content_length", false),
        ("c\u{d6}ntent-length", false),
        ("", false),
    ] {
        let c = chars(s);
        assert_eq!(matches_ignoring_case(&c, 0, c.len(), &name), want, "{:?}", s);
    }
    let c = chars("xxHOSTyy");
    assert!(matches_ignoring_case(&c, 2, 6, &chars("host")));
    assert!(matches_ignoring_case(&c, 2, 2, &chars("")));
}

#[test]
fn digit_gives_the_ten_digits() {
    let all: String = (0..10).map(digit).collect();
    assert_eq!(all, "0123456789");
}

#[test]
fn decimal_text_writes_numbers_as_std_does() {
    for n in [0u64, 1, 9, 10, 11, 99, 100, 101, 404, 1000, 65535, 4294967295, 4294967296, u64::MAX] {
        assert_eq!(decimal_text(n), n.to_string());
    }
    assert_eq!(decimal_text(24), "24");
    assert_eq!(decimal_text(18446744073709551615), "18446744073709551615");
}

#[test]
fn parse_unsigned_reads_numerals_as_std_does() {
    for s in [
        "0", "7", "13", "+13", "0013", "+0", "", "+", "-", "-1", "-0", "++1", "1+", " 1", "1 ", "1_000",
        "12a", "a12", "0x10", "1.0", "\u{661}\u{662}", "18446744073709551615", "18446744073709551616",
        "99999999999999999999999999999", "000000000000000000000000000000000001",
    ] {
        assert_eq!(number(s), s.parse::<usize>().ok(), "{:?}", s);
    }
    assert_eq!(number("13"), Some(13));
    assert_eq!(number(&usize::MAX.to_string()), Some(usize::MAX));
    let c = chars("ab42cd");
    assert_eq!(parse_unsigned(&c, 2, 4), Some(42));
    assert_eq!(parse_unsigned(&c, 2, 5), None);
    assert_eq!(parse_unsigned(&c, 2, 2), None);
}
