use rsl_linter::cleaner::CodeCleaner;
use rsl_linter::linter::{Diagnostic, Linter, Severity};
use rsl_linter::rules::{check_empty_whitespace_line, check_trailing_whitespace};
use std::path::PathBuf;

fn file() -> PathBuf {
    PathBuf::from("macros/fixes.mac")
}

const SAMPLE: &str = "Macro Report(a)\n  Var total = 0;\n  Var unused;\n  \"open\n  If (a = 1)\n    total = total + 1  \n  End;\n  x = record; y = array\n   \n  If (a == 2)\n  End;\nEnd;\n";

type Parts = (Severity, String, PathBuf, usize, usize, String);

fn parts(d: &Diagnostic) -> Parts {
    (d.severity.clone(), d.message.clone(), d.file.clone(), d.line, d.column, d.rule.clone())
}

fn apply(lines: &[&str], fixes: &[Diagnostic]) -> Vec<String> {
    let mut out: Vec<String> = lines.iter().map(|s| s.to_string()).collect();
    for d in fixes {
        if let Some(f) = &d.fix {
            if d.line >= 1 && d.line <= out.len() {
                out[d.line - 1] = f.clone();
            }
        }
    }
    out
}

#[test]
fn cleaning_a_cleaned_line_changes_nothing() {
    let mut first = CodeCleaner::new();
    let lines = [
        "x = \"a // b\" + 1; // note",
        "y = 1 /* start",
        "still */ z = 2 / 3;",
        "p = \"unterminated",
        "q = a/b; r = \"\" ",
        "\"Привет /* ж */\" ё",
    ];
    for line in lines {
        let once = first.clean(line);
        let mut second = CodeCleaner::new();
        let twice = second.clean(&once);
        assert_eq!(twice, once, "line {:?}", line);
        assert!(!second.in_block_comment);
    }
}

#[test]
fn fix_flag_changes_only_fixes() {
    let linter = Linter::new(vec![]);
    let on = linter.lint_file(&file(), SAMPLE, true);
    let off = linter.lint_file(&file(), SAMPLE, false);
    assert_eq!(on.len(), off.len());
    assert!(on.len() >= 6);
    for (a, b) in on.iter().zip(off.iter()) {
        assert_eq!(parts(a), parts(b));
    }
    for d in &off {
        if d.fix.is_some() {
            assert_eq!(d.rule, "missing-semicolon");
        }
    }
    assert!(on.iter().any(|d| d.rule == "trailing-whitespace" && d.fix.is_some()));
}

#[test]
fn ignoring_one_rule_removes_exactly_its_findings() {
    let all = Linter::new(vec![]).lint_file(&file(), SAMPLE, true);
    for rule in [
        "unclosed-string",
        "missing-semicolon",
        "unused-variable",
        "empty-block",
        "trailing-whitespace",
        "empty-whitespace-line",
    ] {
        let fewer = Linter::new(vec![rule.to_string()]).lint_file(&file(), SAMPLE, true);
        let expected: Vec<Parts> = all.iter().filter(|d| d.rule != rule).map(parts).collect();
        let got: Vec<Parts> = fewer.iter().map(parts).collect();
        assert_eq!(got, expected, "rule {}", rule);
        assert!(fewer.len() < all.len(), "rule {} found nothing in the sample", rule);
    }
}

#[test]
fn applying_trailing_fixes_settles_the_rule() {
    let lines = ["a = 1;  ", "b = 2;", " \t", "", "c = \"x \"\u{3000}", "  d;"];
    let found = check_trailing_whitespace(&file(), &lines, true);
    assert_eq!(found.len(), 3);
    let fixed = apply(&lines, &found);
    assert_eq!(fixed, vec!["a = 1;", "b = 2;", "", "", "c = \"x \"", "  d;"]);
    let refs: Vec<&str> = fixed.iter().map(|s| s.as_str()).collect();
    assert!(check_trailing_whitespace(&file(), &refs, true).is_empty());
    assert!(check_trailing_whitespace(&file(), &refs, false).is_empty());
}

#[test]
fn blank_lines_are_trailing_whitespace_at_column_one() {
    let lines = ["a;", "   ", "b;  ", "\t", "", "c;"];
    for blank_fix in [false, true] {
        for trailing_fix in [false, true] {
            let blank = check_empty_whitespace_line(&file(), &lines, blank_fix);
            let trailing = check_trailing_whitespace(&file(), &lines, trailing_fix);
            assert_eq!(blank.len(), 2);
            for d in &blank {
                assert!(trailing.iter().any(|t| t.line == d.line && t.column == 1));
            }
        }
    }
}

#[test]
fn applying_blank_line_fixes_settles_the_rule() {
    let lines = ["a;", "   ", "b;  ", "\t\u{a0}", "", "c;"];
    let found = check_empty_whitespace_line(&file(), &lines, true);
    assert_eq!(found.len(), 2);
    let fixed = apply(&lines, &found);
    assert_eq!(fixed.len(), lines.len());
    assert_eq!(fixed, vec!["a;", "", "b;  ", "", "", "c;"]);
    let refs: Vec<&str> = fixed.iter().map(|s| s.as_str()).collect();
    assert!(check_empty_whitespace_line(&file(), &refs, true).is_empty());
    assert!(check_empty_whitespace_line(&file(), &refs, false).is_empty());
}
