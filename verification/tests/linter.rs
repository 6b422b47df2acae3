use rsl_linter::linter::{Diagnostic, Linter, Severity};
use std::path::PathBuf;

fn file() -> PathBuf {
    PathBuf::from("macros/report.mac")
}

fn rules_of(d: &[Diagnostic]) -> Vec<(String, usize)> {
    d.iter().map(|x| (x.rule.clone(), x.line)).collect()
}

const SAMPLE: &str = "Macro Report(a)\r\n  Var total = 0;\n  Var unused;\n  If (a = 1)\n    total = total + 1  \n  End;\n  x = record;\n   \nEnd;\n";

#[test]
fn lint_file_runs_rules_in_order() {
    let linter = Linter::new(vec![]);
    let d = linter.lint_file(&file(), SAMPLE, false);
    assert_eq!(
        rules_of(&d),
        vec![
            ("missing-semicolon".to_string(), 5),
            ("single-equals".to_string(), 4),
            ("deprecated-record".to_string(), 7),
            ("unused-variable".to_string(), 3),
            ("trailing-whitespace".to_string(), 5),
            ("trailing-whitespace".to_string(), 8),
            ("empty-whitespace-line".to_string(), 8),
        ]
    );
    assert!(d.iter().all(|x| x.file == file()));
    assert_eq!(d[1].severity, Severity::Error);
}

#[test]
fn lint_file_respects_ignored_rules() {
    let linter = Linter::new(vec!["trailing-whitespace".to_string(), "unused-variable".to_string()]);
    let d = linter.lint_file(&file(), SAMPLE, false);
    assert_eq!(
        rules_of(&d),
        vec![
            ("missing-semicolon".to_string(), 5),
            ("single-equals".to_string(), 4),
            ("deprecated-record".to_string(), 7),
            ("empty-whitespace-line".to_string(), 8),
        ]
    );
}

#[test]
fn deprecated_rules_run_unless_both_are_ignored() {
    let one = Linter::new(vec!["deprecated-record".to_string()]);
    let d = one.lint_file(&file(), "x = record;\n", false);
    assert_eq!(rules_of(&d), vec![("deprecated-record".to_string(), 1)]);
    let both = Linter::new(vec!["deprecated-record".to_string(), "deprecated-array".to_string()]);
    assert!(both.lint_file(&file(), "x = record;\n", false).is_empty());
}

#[test]
fn all_rules_ignored_reports_nothing() {
    let names = [
        "missing-end",
        "unclosed-string",
        "missing-semicolon",
        "single-equals-in-condition",
        "deprecated-record",
        "deprecated-array",
        "unused-variable",
        "empty-block",
        "trailing-whitespace",
        "empty-whitespace-line",
    ];
    let linter = Linter::new(names.iter().map(|s| s.to_string()).collect());
    assert!(linter.lint_file(&file(), SAMPLE, true).is_empty());
}

#[test]
fn empty_content_reports_nothing() {
    let linter = Linter::new(vec![]);
    assert!(linter.lint_file(&file(), "", true).is_empty());
}

#[test]
fn findings_stay_within_the_file() {
    let linter = Linter::new(vec![]);
    let content = "If (a)\nEnd\nEnd;\nVar q\nz = \"open\nFor (i)";
    let d = linter.lint_file(&file(), content, true);
    let n = content.lines().count();
    assert!(!d.is_empty());
    for x in &d {
        assert_eq!(x.file, file());
        assert!(x.line >= 1 && x.line <= n);
    }
}

#[test]
fn without_fix_only_missing_semicolon_carries_a_fix() {
    let linter = Linter::new(vec![]);
    let content = "a = 1  \n   \nb = array\n";
    let with_fix = linter.lint_file(&file(), content, true);
    assert!(with_fix.iter().any(|x| x.rule == "trailing-whitespace" && x.fix.is_some()));
    let d = linter.lint_file(&file(), content, false);
    assert!(d.iter().any(|x| x.fix.is_some()));
    for x in &d {
        if x.fix.is_some() {
            assert_eq!(x.rule, "missing-semicolon");
        }
    }
}

#[test]
fn blank_line_also_draws_trailing_whitespace() {
    let linter = Linter::new(vec![]);
    let d = linter.lint_file(&file(), "x;\n \t \n", true);
    let trailing: Vec<&Diagnostic> = d.iter().filter(|x| x.rule == "trailing-whitespace").collect();
    let blank: Vec<&Diagnostic> = d.iter().filter(|x| x.rule == "empty-whitespace-line").collect();
    assert_eq!(trailing.len(), 1);
    assert_eq!(blank.len(), 1);
    assert_eq!(trailing[0].line, blank[0].line);
    assert_eq!(trailing[0].column, 1);
    assert_eq!(trailing[0].fix, blank[0].fix);
}

#[test]
fn trailing_fix_settles() {
    let linter = Linter::new(vec![]);
    let d = linter.lint_file(&file(), "y = 2; \u{a0}\t", true);
    let fixed = d.iter().find(|x| x.rule == "trailing-whitespace").unwrap().fix.clone().unwrap();
    assert_eq!(fixed, "y = 2;");
    let again = linter.lint_file(&file(), &fixed, true);
    assert!(again.iter().all(|x| x.rule != "trailing-whitespace"));
}

#[test]
fn crlf_lines_are_split_like_str_lines() {
    let linter = Linter::new(vec![]);
    let d = linter.lint_file(&file(), "a = 1;\r\nb = 2\r\n", false);
    assert_eq!(rules_of(&d), vec![("missing-semicolon".to_string(), 2)]);
    assert_eq!(d[0].column, 6);
    assert_eq!(d[0].fix, Some("b = 2;".to_string()));
}
