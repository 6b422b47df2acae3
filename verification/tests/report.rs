use rsl_linter::linter::{Diagnostic, Severity};
use rsl_linter::report::{has_errors, is_source_extension, render_diagnostic, severity_label};
use rsl_linter::source::decode_source;
use std::path::PathBuf;

fn sample(severity: Severity) -> Diagnostic {
    Diagnostic {
        severity,
        message: "Пустой блок кода.".to_string(),
        file: PathBuf::from("a.mac"),
        line: 12,
        column: 3,
        rule: "empty-block".to_string(),
        fix: None,
    }
}

#[test]
fn report_line_format() {
    let d = sample(Severity::Warning);
    assert_eq!(render_diagnostic("dir/a.mac", &d), "dir/a.mac:12:3: warning: Пустой блок кода. [empty-block]");
    assert_eq!(severity_label(Severity::Error), "error");
    assert_eq!(severity_label(Severity::Info), "info");
}

#[test]
fn errors_decide_the_exit_status() {
    assert!(!has_errors(&[]));
    assert!(!has_errors(&[sample(Severity::Warning), sample(Severity::Info)]));
    assert!(has_errors(&[sample(Severity::Warning), sample(Severity::Error)]));
}

#[test]
fn source_extensions() {
    assert!(is_source_extension("mac"));
    assert!(is_source_extension("rsl"));
    assert!(!is_source_extension("MAC"));
    assert!(!is_source_extension("txt"));
}

#[test]
fn utf8_sources_decode_as_utf8() {
    assert_eq!(decode_source("Привет".as_bytes()), "Привет");
    assert_eq!(decode_source(b""), "");
}

#[test]
fn other_sources_decode_as_ibm866() {
    // "Привет" in code page 866.
    let bytes = [0x8f, 0xe0, 0xa8, 0xa2, 0xa5, 0xe2];
    assert_eq!(decode_source(&bytes), "Привет");
    let mixed = [b'x', b' ', b'=', 0x80];
    assert_eq!(decode_source(&mixed), "x =А");
}
