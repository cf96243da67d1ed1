use maaweb_server::text::{i32_text, chars_of, contains_chars, ends_with_chars, is_whitespace, parse_i32, split_whitespace, trim_span};

#[test]
fn whitespace_is_unicode_white_space() {
    for c in ['\t', '\n', '\u{b}', '\u{c}', '\r', ' ', '\u{85}', '\u{a0}', '\u{1680}', '\u{2000}', '\u{200a}', '\u{2028}', '\u{2029}', '\u{202f}', '\u{205f}', '\u{3000}'] {
        assert!(is_whitespace(c), "{c:?}");
        assert_eq!(is_whitespace(c), c.is_whitespace());
    }
    for c in ['a', '0', '_', '\u{200b}', '\u{feff}', '\u{180e}'] {
        assert_eq!(is_whitespace(c), c.is_whitespace(), "{c:?}");
    }
}

#[test]
fn split_matches_split_whitespace() {
    for s in ["", "  ", "a", " a  bb\tc\u{3000}d ", "x\u{85}y"] {
        let chars = chars_of(s);
        let spans = split_whitespace(&chars);
        let got: Vec<String> = spans.iter().map(|&(a, b)| chars[a..b].iter().collect()).collect();
        let want: Vec<String> = s.split_whitespace().map(|w| w.to_string()).collect();
        assert_eq!(got, want);
    }
}

#[test]
fn trim_matches_str_trim() {
    for s in ["", "  ", " a b \n", "\u{3000}x"] {
        let chars = chars_of(s);
        let (a, b) = trim_span(&chars);
        let got: String = chars[a..b].iter().collect();
        assert_eq!(got, s.trim());
    }
}

#[test]
fn parse_matches_str_parse() {
    for s in ["0", "42", "+7", "-7", "-0", "2147483647", "2147483648", "-2147483648", "-2147483649", "", "+", "-", "1a", "99999999999999999999", "--1", "+-1"] {
        let chars = chars_of(s);
        assert_eq!(parse_i32(&chars, 0, chars.len()), s.parse::<i32>().ok(), "{s:?}");
    }
}

#[test]
fn substring_tests() {
    let s = chars_of("MAA-linux-x86_64.tar.gz");
    assert!(contains_chars(&s, &chars_of("linux-x86_64")));
    assert!(contains_chars(&s, &chars_of("")));
    assert!(!contains_chars(&s, &chars_of("linux-aarch64")));
    assert!(ends_with_chars(&s, &chars_of(".tar.gz")));
    assert!(!ends_with_chars(&s, &chars_of(".zip")));
}

#[test]
fn i32_text_matches_to_string() {
    for n in [0, 7, 10, 42, 99, 100, 10001, 30000, -1, -10, i32::MAX, i32::MIN] {
        assert_eq!(i32_text(n), n.to_string());
    }
}
