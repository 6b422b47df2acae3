use rsl_linter::linter::{Diagnostic, Severity};
use rsl_linter::rules::{
    check_deprecated_usage, check_empty_blocks, check_empty_whitespace_line, check_missing_end,
    check_missing_semicolon, check_single_equals_in_condition, check_trailing_whitespace,
    check_unclosed_strings, check_unused_variables, deprecated_from_matches,
    empty_blocks_from_matches, missing_end_from_matches, missing_semicolon_from_matches,
    single_equals_from_matches, unused_variables_from_matches,
};
use std::path::PathBuf;

fn file() -> PathBuf {
    PathBuf::from("src/test.mac")
}

fn summary(d: &Diagnostic) -> (Severity, String, usize, usize, String, Option<String>) {
    (d.severity.clone(), d.message.clone(), d.line, d.column, d.rule.clone(), d.fix.clone())
}

fn strings(v: &[&str]) -> Vec<String> {
    v.iter().map(|s| s.to_string()).collect()
}

#[test]
fn unclosed_string_is_reported_at_last_quote() {
    let lines = ["a = \"ok\";", "b = \"open;", "c = \"x\" + \"y"];
    let d = check_unclosed_strings(&file(), &lines);
    assert_eq!(d.len(), 2);
    assert_eq!(
        summary(&d[0]),
        (Severity::Error, "Незакрытая строка.".to_string(), 2, 5, "unclosed-string".to_string(), None)
    );
    assert_eq!(d[1].line, 3);
    assert_eq!(d[1].column, 11);
    assert_eq!(d[0].file, file());
}

#[test]
fn unclosed_string_ignores_comments_across_lines() {
    let lines = ["/* \"", "still \" comment */ x = 1;", "y = 2; // \"", "z = \"a /* b\";"];
    let d = check_unclosed_strings(&file(), &lines);
    // In the last line `/*` opens a comment even inside the string, so the
    // string stays open; the column is that of the line's last quote.
    assert_eq!(d.len(), 1);
    assert_eq!(d[0].line, 4);
    assert_eq!(d[0].column, 12);
}

#[test]
fn unclosed_string_column_counts_bytes() {
    let lines = ["Привет \"мир"];
    let d = check_unclosed_strings(&file(), &lines);
    assert_eq!(d.len(), 1);
    assert_eq!(d[0].column, 14);
}

#[test]
fn trailing_whitespace_reports_count_and_fix() {
    let lines = ["abc  ", "clean", "x\t", "   "];
    let d = check_trailing_whitespace(&file(), &lines, true);
    assert_eq!(d.len(), 3);
    assert_eq!(
        summary(&d[0]),
        (
            Severity::Warning,
            "Лишние пробелы в конце строки (2).".to_string(),
            1,
            4,
            "trailing-whitespace".to_string(),
            Some("abc".to_string())
        )
    );
    assert_eq!(d[1].line, 3);
    assert_eq!(d[1].message, "Лишние пробелы в конце строки (1).");
    assert_eq!(d[2].column, 1);
    assert_eq!(d[2].fix, Some(String::new()));
}

#[test]
fn trailing_whitespace_without_fix_and_multibyte_space() {
    let lines = ["ж\u{3000}"];
    let d = check_trailing_whitespace(&file(), &lines, false);
    assert_eq!(d.len(), 1);
    assert_eq!(d[0].message, "Лишние пробелы в конце строки (3).");
    assert_eq!(d[0].column, 3);
    assert_eq!(d[0].fix, None);
}

#[test]
fn trailing_whitespace_large_count() {
    let line = format!("x{}", " ".repeat(123));
    let lines = [line.as_str()];
    let d = check_trailing_whitespace(&file(), &lines, false);
    assert_eq!(d[0].message, "Лишние пробелы в конце строки (123).");
}

#[test]
fn empty_whitespace_line_reports_blank_lines() {
    let lines = ["", "  ", "a", "\t \u{a0}"];
    let d = check_empty_whitespace_line(&file(), &lines, true);
    assert_eq!(d.len(), 2);
    assert_eq!(
        summary(&d[0]),
        (
            Severity::Info,
            "Строка содержит только пробелы.".to_string(),
            2,
            1,
            "empty-whitespace-line".to_string(),
            Some(String::new())
        )
    );
    assert_eq!(d[1].line, 4);
    let d = check_empty_whitespace_line(&file(), &lines, false);
    assert_eq!(d[0].fix, None);
}

#[test]
fn missing_end_reports_orphans_then_open_blocks() {
    let lines = ["End;", "Macro Foo()", "  if (a)", "  end;", "while (b)", "x;"];
    let d = check_missing_end(&file(), &lines);
    assert_eq!(d.len(), 3);
    assert_eq!(
        summary(&d[0]),
        (Severity::Error, "Лишний 'End'.".to_string(), 1, 1, "orphaned-end".to_string(), None)
    );
    assert_eq!(d[1].message, "Незакрытый блок 'Macro'.");
    assert_eq!(d[1].line, 2);
    assert_eq!(d[1].rule, "missing-end");
    assert_eq!(d[2].message, "Незакрытый блок 'while'.");
    assert_eq!(d[2].line, 5);
}

#[test]
fn missing_end_skips_single_line_blocks_and_comments() {
    let lines = ["If (a) x; End;", "/* If", "End */", "\"For\"", "For (i) // End"];
    let d = check_missing_end(&file(), &lines);
    assert_eq!(d.len(), 1);
    assert_eq!(d[0].message, "Незакрытый блок 'For'.");
    assert_eq!(d[0].line, 5);
}

#[test]
fn missing_end_from_matches_balances_stack() {
    let starts = vec![Some("If".to_string()), None, Some("With".to_string()), None, None, Some("X".to_string())];
    let ends = vec![false, true, true, true, true, false];
    let d = missing_end_from_matches(&file(), &starts, &ends);
    // line 1 opens, line 2 closes, line 3 skipped, line 4 orphan, line 5 orphan, line 6 opens
    assert_eq!(d.len(), 3);
    assert_eq!((d[0].rule.as_str(), d[0].line), ("orphaned-end", 4));
    assert_eq!((d[1].rule.as_str(), d[1].line), ("orphaned-end", 5));
    assert_eq!((d[2].message.as_str(), d[2].line), ("Незакрытый блок 'X'.", 6));
}

#[test]
fn missing_semicolon_reports_plain_statements() {
    let lines = ["a = 1", "b = 2;", "If (x)", "foo(1,", "   2)", "c = 3 // note", "", "d = f(", "  1", ")"];
    let d = check_missing_semicolon(&file(), &lines);
    assert_eq!(d.len(), 2);
    assert_eq!(
        summary(&d[0]),
        (
            Severity::Warning,
            "Отсутствует точка с запятой.".to_string(),
            1,
            6,
            "missing-semicolon".to_string(),
            Some("a = 1;".to_string())
        )
    );
    assert_eq!(d[1].line, 6);
    assert_eq!(d[1].column, 14);
    assert_eq!(d[1].fix, Some("c = 3 // note;".to_string()));
}

#[test]
fn missing_semicolon_from_matches_uses_keyword_flags() {
    let lines = ["x = 1", "Return x"];
    let code = strings(&lines);
    let d = missing_semicolon_from_matches(&file(), &lines, &code, &[false, false]);
    assert_eq!(d.len(), 2);
    let d = missing_semicolon_from_matches(&file(), &lines, &code, &[true, false]);
    assert_eq!(d.len(), 1);
    assert_eq!(d[0].line, 2);
}

#[test]
fn single_equals_in_multiline_condition() {
    let lines = ["If (a = 1)", "End;", "while (b", "  = 2)", "elif (c == 3)", "if (d <= 4)"];
    let d = check_single_equals_in_condition(&file(), &lines);
    assert_eq!(d.len(), 2);
    assert_eq!(
        summary(&d[0]),
        (Severity::Error, "Используйте '==' для сравнения.".to_string(), 1, 1, "single-equals".to_string(), None)
    );
    assert_eq!(d[1].line, 4);
}

#[test]
fn single_equals_from_matches_reports_completed_conditions() {
    let code = strings(&["if (a", "b)", "x", "while (c)"]);
    let d = single_equals_from_matches(&file(), &code, &[true, false, false, true], &[false, true, true, true]);
    // Line 2 completes the first condition, line 4 the second; line 3 completes nothing.
    assert_eq!(d.len(), 2);
    assert_eq!(d[0].line, 2);
    assert_eq!(d[1].line, 4);
}

#[test]
fn deprecated_words_with_fix() {
    let lines = ["var r = record(x); var a = array; record", "// record", "records arrays"];
    let d = check_deprecated_usage(&file(), &lines, true);
    assert_eq!(d.len(), 2);
    assert_eq!(
        summary(&d[0]),
        (
            Severity::Warning,
            "'record' устарел. Используйте 'TRecHandler'.".to_string(),
            1,
            9,
            "deprecated-record".to_string(),
            Some("var r = TRecHandler(x); var a = array; TRecHandler".to_string())
        )
    );
    assert_eq!(d[1].rule, "deprecated-array");
    assert_eq!(d[1].column, 28);
    assert_eq!(d[1].fix, Some("var r = record(x); var a = TArray; record".to_string()));
}

#[test]
fn deprecated_words_column_after_cyrillic() {
    let lines = ["\"строка\" record"];
    let d = check_deprecated_usage(&file(), &lines, false);
    assert_eq!(d.len(), 1);
    // The string's contents are blanked to one space per character, and the
    // line is padded to its byte length, so columns follow the blanked text.
    assert_eq!(d[0].column, 10);
    assert_eq!(d[0].fix, None);
}

#[test]
fn deprecated_from_matches_builds_findings() {
    let lines = ["array record array"];
    let d = deprecated_from_matches(&file(), &lines, true, &[Some(6)], &[Some(0)]);
    assert_eq!(d.len(), 2);
    assert_eq!(d[0].column, 7);
    assert_eq!(d[0].fix, Some("array TRecHandler array".to_string()));
    assert_eq!(d[1].column, 1);
    assert_eq!(d[1].fix, Some("TArray record TArray".to_string()));
}

#[test]
fn unused_variables_reported_once_per_declaration() {
    let lines = ["Var used = 1;", "Var unused;", "x = used + 1;", "var Other", "// Var ghost"];
    let d = check_unused_variables(&file(), &lines);
    assert_eq!(d.len(), 2);
    assert_eq!(
        summary(&d[0]),
        (
            Severity::Warning,
            "Переменная 'unused' не используется.".to_string(),
            2,
            5,
            "unused-variable".to_string(),
            None
        )
    );
    assert_eq!(d[1].message, "Переменная 'Other' не используется.");
    assert_eq!(d[1].line, 4);
}

#[test]
fn unused_variables_from_matches_uses_counts() {
    let captures = vec![Some((4, "a".to_string())), None, Some((5, "b".to_string()))];
    let d = unused_variables_from_matches(&file(), &captures, &[1, 2]);
    assert_eq!(d.len(), 1);
    assert_eq!((d[0].line, d[0].column), (1, 5));
    let d = unused_variables_from_matches(&file(), &captures, &[5, 0]);
    assert_eq!((d[0].line, d[0].column), (3, 6));
}

#[test]
fn empty_blocks_directly_closed() {
    let lines = ["Macro M()", "End;", "If (a)", "", "End;", "For (x)", "  y;", "End;"];
    let d = check_empty_blocks(&file(), &lines);
    assert_eq!(d.len(), 1);
    assert_eq!(
        summary(&d[0]),
        (Severity::Warning, "Пустой блок кода.".to_string(), 1, 1, "empty-block".to_string(), None)
    );
}

#[test]
fn empty_blocks_from_matches_needs_adjacent_lines() {
    let code = strings(&["if", "end", "if", "", "end"]);
    let d = empty_blocks_from_matches(&file(), &code, &[true, false, true, false, false], &[false, true, false, false, true]);
    assert_eq!(d.len(), 1);
    assert_eq!(d[0].line, 1);
}
