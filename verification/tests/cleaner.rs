use rsl_linter::cleaner::{CodeCleaner, Scrubber};
use rsl_linter::text::chars_of;

#[test]
fn plain_code_is_unchanged() {
    let mut c = CodeCleaner::new();
    assert_eq!(c.clean("a = b + 1;"), "a = b + 1;");
    assert!(!c.in_block_comment);
}

#[test]
fn comments_and_strings_are_blanked() {
    let mut c = CodeCleaner::new();
    assert_eq!(c.clean("x = \"ab\"; // note"), "x = \"  \";        ");
    assert_eq!(c.clean("y /* a"), "y     ");
    assert!(c.in_block_comment);
    // `*/` becomes a single space; the line is padded to its length.
    assert_eq!(c.clean("b */ z"), "    z ");
    assert!(!c.in_block_comment);
}

#[test]
fn cleaning_keeps_byte_length() {
    let mut c = CodeCleaner::new();
    for line in ["\"Привет\" x", "/* ж */ y", "a // ё", "\"\u{3000}\""] {
        let out = c.clean(line);
        assert_eq!(out.len(), line.len(), "line {:?}", line);
    }
}

#[test]
fn scrubber_tracks_open_strings() {
    let mut s = Scrubber::new();
    assert!(s.scan(&chars_of("a = \"b")));
    assert!(!s.scan(&chars_of("a = \"b\"")));
    assert!(!s.scan(&chars_of("/* \"")));
    assert!(s.in_block_comment);
    assert!(!s.scan(&chars_of("\" */")));
    assert!(!s.in_block_comment);
}
