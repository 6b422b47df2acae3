//! What the command line prints: one line per finding, and whether any
//! finding is an error.

use crate::linter::{Diagnostic, Severity};
use crate::text::{decimal, decimal_string, same_text};
use vstd::prelude::*;

verus! {

/// The word printed for a severity.
pub open spec fn severity_word(s: Severity) -> Seq<char> {
    match s {
        Severity::Error => "error"@,
        Severity::Warning => "warning"@,
        Severity::Info => "info"@,
    }
}

/// The word printed for a severity.
pub fn severity_label(s: Severity) -> (r: &'static str)
    ensures
        r@ == severity_word(s),
{
    match s {
        Severity::Error => "error",
        Severity::Warning => "warning",
        Severity::Info => "info",
    }
}

/// The printed line of a finding: `file:line:column: severity: message [rule]`.
pub open spec fn report_line(file: Seq<char>, d: Diagnostic) -> Seq<char> {
    file + ":"@ + decimal(d.line as nat) + ":"@ + decimal(d.column as nat) + ": "@ + severity_word(
        d.severity,
    ) + ": "@ + d.message@ + " ["@ + d.rule@ + "]"@
}

/// The printed line of a finding, given how its file is displayed.
pub fn render_diagnostic(file: &str, d: &Diagnostic) -> (r: String)
    ensures
        r@ == report_line(file@, *d),
{
    let mut out = file.to_owned();
    out.append(":");
    out.append(decimal_string(d.line).as_str());
    out.append(":");
    out.append(decimal_string(d.column).as_str());
    out.append(": ");
    out.append(severity_label(d.severity));
    out.append(": ");
    out.append(d.message.as_str());
    out.append(" [");
    out.append(d.rule.as_str());
    out.append("]");
    out
}

/// Whether any finding is an error.
pub fn has_errors(diagnostics: &[Diagnostic]) -> (r: bool)
    ensures
        r == exists|i: int|
            0 <= i < diagnostics@.len() && #[trigger] diagnostics@[i].severity == Severity::Error,
{
    let mut i: usize = 0;
    while i < diagnostics.len()
        invariant
            i <= diagnostics@.len(),
            forall|j: int| 0 <= j < i ==> #[trigger] diagnostics@[j].severity != Severity::Error,
        decreases diagnostics.len() - i,
    {
        if diagnostics[i].severity == Severity::Error {
            return true;
        }
        i = i + 1;
    }
    false
}

/// Whether a file extension marks an RSL source (`mac` or `rsl`).
pub fn is_source_extension(ext: &str) -> (r: bool)
    ensures
        r == (ext@ == "mac"@ || ext@ == "rsl"@),
{
    same_text(ext, "mac") || same_text(ext, "rsl")
}

} // verus!
