use rsl_linter::text::{decimal_string, is_whitespace, lines_of, replace_text, same_text};

#[test]
fn lines_follow_str_lines() {
    let samples = [
        "",
        "a",
        "a\n",
        "a\n\n",
        "\n",
        "a\r\nb",
        "a\r\n\r\n",
        "a\rb\n",
        "x\r",
        "x\n\r",
        "Привет\nмир",
    ];
    for s in samples {
        let expected: Vec<String> = s.lines().map(|l| l.to_string()).collect();
        assert_eq!(lines_of(s), expected, "lines of {:?}", s);
    }
}

#[test]
fn whitespace_matches_char_is_whitespace() {
    for u in 0u32..0x3100 {
        if let Some(c) = char::from_u32(u) {
            assert_eq!(is_whitespace(c), c.is_whitespace(), "char {:#x}", u);
        }
    }
    for c in ['\u{feff}', '\u{200b}', '\u{180e}', 'a'] {
        assert_eq!(is_whitespace(c), c.is_whitespace());
    }
}

#[test]
fn replace_matches_str_replace() {
    let samples = [("recordrecord", "record", "X"), ("arecord b record", "record", "TRecHandler"), ("aaa", "aa", "b"), ("", "x", "y")];
    for (s, p, r) in samples {
        assert_eq!(replace_text(s, p, r), s.replace(p, r));
    }
}

#[test]
fn decimal_rendering() {
    assert_eq!(decimal_string(0), "0");
    assert_eq!(decimal_string(7), "7");
    assert_eq!(decimal_string(10), "10");
    assert_eq!(decimal_string(9075), "9075");
    assert_eq!(decimal_string(usize::MAX), usize::MAX.to_string());
}

#[test]
fn text_equality() {
    assert!(same_text("mac", "mac"));
    assert!(!same_text("mac", "rsl"));
    assert!(!same_text("ma", "mac"));
}
