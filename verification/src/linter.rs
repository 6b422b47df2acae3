//! Diagnostics and the linter that runs the rules over one file.

use crate::cleaner::cleaned_lines;
use crate::rules::{
    blank_line_findings, check_deprecated_usage, check_empty_blocks, check_empty_whitespace_line,
    check_missing_end, check_missing_semicolon, check_single_equals_in_condition,
    check_trailing_whitespace, check_unclosed_strings, check_unused_variables, deprecated_findings,
    empty_block_findings, lines_fit, missing_end_findings, missing_semicolon_findings, parens_fit,
    single_equals_findings, trailing_ws_findings, unclosed_string_findings, unused_variable_findings,
};
use crate::text::{lines_of, same_text, split_lines, views_of_strings, views_of_strs};
use std::path::PathBuf;
use vstd::prelude::*;

verus! {

/// `std::path::PathBuf`, carried through as an opaque value.
#[verifier::external_type_specification]
#[verifier::external_body]
pub struct ExPathBuf(PathBuf);

/// `<PathBuf as Clone>::clone`: claims that the copy equals the path it was made from, as
/// `Clone` documents ("returns a copy of the value").
pub assume_specification[ <PathBuf as Clone>::clone ](p: &PathBuf) -> (r: PathBuf)
    ensures
        r == *p,
;

/// How serious a finding is.
#[derive(Debug, Clone, Copy, PartialEq, Eq, Structural)]
pub enum Severity {
    Error,
    Warning,
    Info,
}

/// One finding of a rule, at a 1-based line and column of a file.
/// Columns count bytes of the line's UTF-8 encoding.
#[derive(Debug, Clone)]
pub struct Diagnostic {
    pub severity: Severity,
    pub message: String,
    pub file: PathBuf,
    pub line: usize,
    pub column: usize,
    pub rule: String,
    pub fix: Option<String>,
}

/// The mathematical value of a [`Diagnostic`].
pub struct DiagnosticView {
    pub severity: Severity,
    pub message: Seq<char>,
    pub file: PathBuf,
    pub line: nat,
    pub column: nat,
    pub rule: Seq<char>,
    pub fix: Option<Seq<char>>,
}

/// The view of an optional string.
pub open spec fn opt_view(o: Option<String>) -> Option<Seq<char>> {
    match o {
        Some(s) => Some(s@),
        None => None,
    }
}

impl View for Diagnostic {
    type V = DiagnosticView;

    open spec fn view(&self) -> DiagnosticView {
        DiagnosticView {
            severity: self.severity,
            message: self.message@,
            file: self.file,
            line: self.line as nat,
            column: self.column as nat,
            rule: self.rule@,
            fix: opt_view(self.fix),
        }
    }
}

/// The views of a sequence of diagnostics.
pub open spec fn diag_views(v: Seq<Diagnostic>) -> Seq<DiagnosticView> {
    v.map_values(|d: Diagnostic| d@)
}

/// The value of a diagnostic with the given parts.
pub open spec fn diag(
    severity: Severity,
    message: Seq<char>,
    file: PathBuf,
    line: nat,
    column: nat,
    rule: Seq<char>,
    fix: Option<Seq<char>>,
) -> DiagnosticView {
    DiagnosticView { severity, message, file, line, column, rule, fix }
}

/// A diagnostic with the given parts; the file is copied.
pub fn make_diagnostic(
    severity: Severity,
    message: String,
    file: &PathBuf,
    line: usize,
    column: usize,
    rule: String,
    fix: Option<String>,
) -> (d: Diagnostic)
    ensures
        d@ == diag(severity, message@, *file, line as nat, column as nat, rule@, opt_view(fix)),
{
    Diagnostic { severity, message, file: file.clone(), line, column, rule, fix }
}

/// Runs the rules over files, leaving out the rules named as ignored.
pub struct Linter {
    ignored_rules: Vec<String>,
}

impl View for Linter {
    type V = Seq<Seq<char>>;

    /// The names of the ignored rules.
    closed spec fn view(&self) -> Seq<Seq<char>> {
        views_of_strings(self.ignored_rules@)
    }
}

/// The enabled rules' findings in a file, rule after rule in a fixed order:
/// missing-end, unclosed-string, missing-semicolon, single-equals-in-condition,
/// deprecated usage (run unless both deprecated-record and deprecated-array are
/// ignored), unused-variable, empty-block, trailing-whitespace,
/// empty-whitespace-line.
pub open spec fn lint_spec(ignored: Seq<Seq<char>>, file: PathBuf, ls: Seq<Seq<char>>, fix: bool) -> Seq<
    DiagnosticView,
> {
    let none = Seq::<DiagnosticView>::empty();
    (if !ignored.contains("missing-end"@) {
        missing_end_findings(file, ls)
    } else {
        none
    }) + (if !ignored.contains("unclosed-string"@) {
        unclosed_string_findings(file, ls)
    } else {
        none
    }) + (if !ignored.contains("missing-semicolon"@) {
        missing_semicolon_findings(file, ls)
    } else {
        none
    }) + (if !ignored.contains("single-equals-in-condition"@) {
        single_equals_findings(file, ls)
    } else {
        none
    }) + (if !ignored.contains("deprecated-record"@) || !ignored.contains("deprecated-array"@) {
        deprecated_findings(file, ls, fix)
    } else {
        none
    }) + (if !ignored.contains("unused-variable"@) {
        unused_variable_findings(file, ls)
    } else {
        none
    }) + (if !ignored.contains("empty-block"@) {
        empty_block_findings(file, ls)
    } else {
        none
    }) + (if !ignored.contains("trailing-whitespace"@) {
        trailing_ws_findings(file, ls, fix)
    } else {
        none
    }) + (if !ignored.contains("empty-whitespace-line"@) {
        blank_line_findings(file, ls, fix)
    } else {
        none
    })
}

/// The file's lines fit the machine: byte columns and parenthesis depths are
/// representable.
pub open spec fn content_fits(ls: Seq<Seq<char>>) -> bool {
    lines_fit(ls) && parens_fit(cleaned_lines(ls))
}

impl Linter {
    pub fn new(ignored_rules: Vec<String>) -> (r: Self)
        ensures
            r@ == views_of_strings(ignored_rules@),
    {
        Self { ignored_rules }
    }

    /// Runs the enabled rules over the lines of `content`.
    pub fn lint_file(&self, file: &PathBuf, content: &str, fix: bool) -> (r: Vec<Diagnostic>)
        requires
            content_fits(split_lines(content@)),
        ensures
            diag_views(r@) == lint_spec(self@, *file, split_lines(content@), fix),
    {
        let ghost ls = split_lines(content@);
        let owned = lines_of(content);
        let mut lines: Vec<&str> = Vec::new();
        let mut i: usize = 0;
        while i < owned.len()
            invariant
                i <= owned@.len(),
                views_of_strs(lines@) == views_of_strings(owned@).take(i as int),
            decreases owned.len() - i,
        {
            let ghost before = lines@;
            let line = owned[i].as_str();
            assert(line@ == views_of_strings(owned@)[i as int]);
            lines.push(line);
            assert(views_of_strs(lines@) =~= views_of_strs(before).push(line@));
            assert(views_of_strs(lines@) =~= views_of_strings(owned@).take(i + 1));
            i = i + 1;
        }
        assert(views_of_strings(owned@).take(owned@.len() as int) =~= views_of_strings(owned@));
        assert(views_of_strs(lines@) == ls);
        let lines = lines.as_slice();
        let mut diagnostics: Vec<Diagnostic> = Vec::new();
        let ghost none = Seq::<DiagnosticView>::empty();
        let ghost ign = self@;
        let ghost mut expected = none;
        assert(diag_views(diagnostics@) =~= expected);

        if !self.is_ignored("missing-end") {
            let mut found = check_missing_end(file, lines);
            proof { lemma_diag_views_append(diagnostics@, found@); }
            diagnostics.append(&mut found);
        }
        proof {
            expected = expected + (if !ign.contains("missing-end"@) { missing_end_findings(*file, ls) } else { none });
            assert(diag_views(diagnostics@) =~= expected);
        }
        if !self.is_ignored("unclosed-string") {
            let mut found = check_unclosed_strings(file, lines);
            proof { lemma_diag_views_append(diagnostics@, found@); }
            diagnostics.append(&mut found);
        }
        proof {
            expected = expected + (if !ign.contains("unclosed-string"@) { unclosed_string_findings(*file, ls) } else { none });
            assert(diag_views(diagnostics@) =~= expected);
        }
        if !self.is_ignored("missing-semicolon") {
            let mut found = check_missing_semicolon(file, lines);
            proof { lemma_diag_views_append(diagnostics@, found@); }
            diagnostics.append(&mut found);
        }
        proof {
            expected = expected + (if !ign.contains("missing-semicolon"@) { missing_semicolon_findings(*file, ls) } else { none });
            assert(diag_views(diagnostics@) =~= expected);
        }
        if !self.is_ignored("single-equals-in-condition") {
            let mut found = check_single_equals_in_condition(file, lines);
            proof { lemma_diag_views_append(diagnostics@, found@); }
            diagnostics.append(&mut found);
        }
        proof {
            expected = expected + (if !ign.contains("single-equals-in-condition"@) { single_equals_findings(*file, ls) } else { none });
            assert(diag_views(diagnostics@) =~= expected);
        }
        let check_record = !self.is_ignored("deprecated-record");
        let check_array = !self.is_ignored("deprecated-array");
        if check_record || check_array {
            let mut found = check_deprecated_usage(file, lines, fix);
            proof { lemma_diag_views_append(diagnostics@, found@); }
            diagnostics.append(&mut found);
        }
        proof {
            expected = expected + (if !ign.contains("deprecated-record"@) || !ign.contains("deprecated-array"@) { deprecated_findings(*file, ls, fix) } else { none });
            assert(diag_views(diagnostics@) =~= expected);
        }
        if !self.is_ignored("unused-variable") {
            let mut found = check_unused_variables(file, lines);
            proof { lemma_diag_views_append(diagnostics@, found@); }
            diagnostics.append(&mut found);
        }
        proof {
            expected = expected + (if !ign.contains("unused-variable"@) { unused_variable_findings(*file, ls) } else { none });
            assert(diag_views(diagnostics@) =~= expected);
        }
        if !self.is_ignored("empty-block") {
            let mut found = check_empty_blocks(file, lines);
            proof { lemma_diag_views_append(diagnostics@, found@); }
            diagnostics.append(&mut found);
        }
        proof {
            expected = expected + (if !ign.contains("empty-block"@) { empty_block_findings(*file, ls) } else { none });
            assert(diag_views(diagnostics@) =~= expected);
        }
        if !self.is_ignored("trailing-whitespace") {
            let mut found = check_trailing_whitespace(file, lines, fix);
            proof { lemma_diag_views_append(diagnostics@, found@); }
            diagnostics.append(&mut found);
        }
        proof {
            expected = expected + (if !ign.contains("trailing-whitespace"@) { trailing_ws_findings(*file, ls, fix) } else { none });
            assert(diag_views(diagnostics@) =~= expected);
        }
        if !self.is_ignored("empty-whitespace-line") {
            let mut found = check_empty_whitespace_line(file, lines, fix);
            proof { lemma_diag_views_append(diagnostics@, found@); }
            diagnostics.append(&mut found);
        }
        proof {
            expected = expected + (if !ign.contains("empty-whitespace-line"@) { blank_line_findings(*file, ls, fix) } else { none });
            assert(diag_views(diagnostics@) =~= expected);
        }
        diagnostics
    }

    /// Whether the rule named `rule` is ignored.
    fn is_ignored(&self, rule: &str) -> (r: bool)
        ensures
            r == self@.contains(rule@),
    {
        let mut i: usize = 0;
        while i < self.ignored_rules.len()
            invariant
                i <= self.ignored_rules@.len(),
                forall|j: int| 0 <= j < i ==> self.ignored_rules@[j]@ != rule@,
            decreases self.ignored_rules.len() - i,
        {
            if same_text(self.ignored_rules[i].as_str(), rule) {
                assert(self@[i as int] == rule@);
                return true;
            }
            i = i + 1;
        }
        assert forall|j: int| 0 <= j < self@.len() implies self@[j] != rule@ by {
            assert(self@[j] == self.ignored_rules@[j]@);
        }
        false
    }
}

/// Concatenating vectors of diagnostics concatenates the views.
proof fn lemma_diag_views_append(a: Seq<Diagnostic>, b: Seq<Diagnostic>)
    ensures
        diag_views(a + b) == diag_views(a) + diag_views(b),
{
    assert(diag_views(a + b) =~= diag_views(a) + diag_views(b));
}

} // verus!
