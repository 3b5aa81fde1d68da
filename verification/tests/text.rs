use diffview::text::{
    chars_of, decimal_chars, is_whitespace, parse_u32, split_lines, split_whitespace,
    starts_with, string_from, trim, trim_end_char, trim_start_matches,
};

fn chars(s: &str) -> Vec<char> {
    s.chars().collect()
}

fn to_string(v: &[char]) -> String {
    v.iter().collect()
}

#[test]
fn whitespace_matches_std_for_every_char() {
    for code in 0u32..=0x10FFFF {
        if let Some(c) = char::from_u32(code) {
            assert_eq!(is_whitespace(c), c.is_whitespace(), "U+{:04X}", code);
        }
    }
}

#[test]
fn lines_match_std() {
    let samples = [
        "", "a", "a\n", "a\nb", "a\r\nb\r\n", "\n\n", "x\r", "x\ry\n", "\r\n", "one\n\ntwo\n\n",
        "tail\r\n\r\n", "ä\nö\r\n€",
    ];
    for s in samples {
        let got: Vec<String> = split_lines(&chars(s)).iter().map(|l| to_string(l)).collect();
        let want: Vec<String> = s.lines().map(|l| l.to_string()).collect();
        assert_eq!(got, want, "{:?}", s);
    }
}

#[test]
fn words_match_std() {
    let samples = ["", "  ", "a b", "  a\tb  c\n", "x\u{3000}y\u{a0}z", "diff --git a/x b/y"];
    for s in samples {
        let got: Vec<String> = split_whitespace(&chars(s)).iter().map(|w| to_string(w)).collect();
        let want: Vec<String> = s.split_whitespace().map(|w| w.to_string()).collect();
        assert_eq!(got, want, "{:?}", s);
    }
}

#[test]
fn trims_match_std() {
    let samples = ["", "   ", " a ", "\t a b \n", "a", "\u{2003}x\u{2003}"];
    for s in samples {
        assert_eq!(to_string(&trim(&chars(s))), s.trim());
    }
    for (s, p) in [("a/a/b/x", "a/"), ("x", "a/"), ("--- --- y", "--- "), ("---x", "-"), ("", "@")] {
        assert_eq!(to_string(&trim_start_matches(&chars(s), &chars(p))), s.trim_start_matches(p));
    }
    for s in ["@@ x @@@", "@@@", "x", ""] {
        assert_eq!(to_string(&trim_end_char(&chars(s), '@')), s.trim_end_matches('@'));
    }
}

#[test]
fn parse_u32_matches_std() {
    let samples = [
        "", "0", "7", "+7", "+", "-0", "-7", "12", "007", "4294967295", "4294967296",
        "99999999999", "1a", " 1", "1 ", "++1", "+0", "٣",
    ];
    for s in samples {
        assert_eq!(parse_u32(&chars(s)), s.parse::<u32>().ok(), "{:?}", s);
    }
    for n in [0u32, 1, 9, 10, 99, 100, 65535, 4294967294, 4294967295] {
        assert_eq!(parse_u32(&chars(&n.to_string())), Some(n));
    }
}

#[test]
fn decimal_chars_match_to_string() {
    for n in [0u64, 5, 10, 42, 1000, 4294967295, u64::MAX] {
        assert_eq!(to_string(&decimal_chars(n)), n.to_string());
    }
}

#[test]
fn string_round_trips() {
    for s in ["", "abc", "ünïcödé ✓", "tab\there"] {
        assert_eq!(chars_of(s), chars(s));
        assert_eq!(string_from(&chars(s)), s);
    }
    assert!(starts_with(&chars("diff --git a"), &chars("diff --git ")));
    assert!(!starts_with(&chars("diff"), &chars("diff --git ")));
}
