//! The lint rules. Each rule takes the lines of one file and returns its
//! findings in line order.

use crate::cleaner::{
    clean_all, cleaned, cleaned_lines, comment_after, lemma_clean_line_bytes, line_has_open_string, scrub_comment_after, Scrubber,
};
use crate::pattern::{
    capture_first, compile, compiled_from, count_matches, escape, find_first, first_capture,
    first_match, has_match, is_match, match_count, regex_escaped,
};
use crate::linter::{diag, diag_views, make_diagnostic, opt_view, Diagnostic, DiagnosticView, Severity};
use crate::text::{
    all_whitespace, all_ws, byte_len, contains_char, count_char, count_char_in, trim, trim_bounds, byte_len_prefix, chars_of, decimal, decimal_string,
    ends_with_char, lemma_byte_len_prefix, replace_all, to_owned_string, replace_text, rfind_byte, rfind_char_byte, string_from_chars, trim_end, trim_end_len,
    views_of_strings, views_of_strs,
};
use std::path::PathBuf;
use vstd::prelude::*;

verus! {

// ----------------------------------------------------------------------------
// Shared specifications
// ----------------------------------------------------------------------------

/// Every line is short enough that a 1-based byte column fits in `usize`.
pub open spec fn lines_fit(ls: Seq<Seq<char>>) -> bool {
    forall|i: int| 0 <= i < ls.len() ==> #[trigger] byte_len(ls[i]) < usize::MAX
}

/// Appending to a vector of diagnostics appends the view.
proof fn lemma_diag_views_push(v: Seq<Diagnostic>, d: Diagnostic)
    ensures
        diag_views(v.push(d)) == diag_views(v).push(d@),
{
    assert(diag_views(v.push(d)) =~= diag_views(v).push(d@));
}

/// An error finding at column 1, without a fix.
fn create_diag(file: &PathBuf, line: usize, msg: &str, rule: &str) -> (d: Diagnostic)
    ensures
        d@ == diag(Severity::Error, msg@, *file, line as nat, 1, rule@, None),
{
    make_diagnostic(
        Severity::Error,
        to_owned_string(msg),
        file,
        line,
        1,
        to_owned_string(rule),
        None,
    )
}

// ----------------------------------------------------------------------------
// unclosed-string
// ----------------------------------------------------------------------------

/// Column reported for an unclosed string: one past the byte offset of the
/// line's last `"`, or 1 when there is none.
pub open spec fn quote_column(line: Seq<char>) -> nat {
    match rfind_byte(line, '"') {
        Some(b) => b + 1,
        None => 1,
    }
}

/// Findings of the unclosed-string rule on the first `k` lines.
pub open spec fn unclosed_string_diags(file: PathBuf, ls: Seq<Seq<char>>, k: nat) -> Seq<
    DiagnosticView,
>
    decreases k,
{
    if k == 0 || k > ls.len() {
        seq![]
    } else {
        let prev = unclosed_string_diags(file, ls, (k - 1) as nat);
        if line_has_open_string(ls, k - 1) {
            prev.push(
                diag(
                    Severity::Error,
                    "Незакрытая строка."@,
                    file,
                    k,
                    quote_column(ls[k - 1]),
                    "unclosed-string"@,
                    None,
                ),
            )
        } else {
            prev
        }
    }
}

/// Reports each line that ends inside a string literal (an odd number of
/// quotes outside comments), at its last quote.
pub fn check_unclosed_strings(file: &PathBuf, lines: &[&str]) -> (r: Vec<Diagnostic>)
    requires
        lines_fit(views_of_strs(lines@)),
    ensures
        diag_views(r@) == unclosed_string_diags(
            *file,
            views_of_strs(lines@),
            lines@.len() as nat,
        ),
{
    let ghost ls = views_of_strs(lines@);
    let mut diagnostics: Vec<Diagnostic> = Vec::new();
    let mut scrubber = Scrubber::new();
    let mut i: usize = 0;
    while i < lines.len()
        invariant
            i <= lines@.len(),
            ls == views_of_strs(lines@),
            lines_fit(ls),
            scrubber.in_block_comment == scrub_comment_after(ls, i as nat),
            diag_views(diagnostics@) == unclosed_string_diags(*file, ls, i as nat),
        decreases lines.len() - i,
    {
        let v = chars_of(lines[i]);
        assert(v@ == ls[i as int]);
        let in_string = scrubber.scan(&v);
        if in_string {
            let column = match rfind_char_byte(&v, '"') {
                Some(b) => {
                    proof {
                        lemma_rfind_byte_bound(v@, '"');
                    }
                    b + 1
                },
                None => 1,
            };
            let d = make_diagnostic(
                Severity::Error,
                String::from_str("Незакрытая строка."),
                file,
                i + 1,
                column,
                String::from_str("unclosed-string"),
                None,
            );
            proof {
                lemma_diag_views_push(diagnostics@, d);
            }
            diagnostics.push(d);
        }
        i = i + 1;
    }
    diagnostics
}

/// The byte offset of a found character lies inside the line.
proof fn lemma_rfind_byte_bound(s: Seq<char>, c: char)
    ensures
        rfind_byte(s, c) matches Some(b) ==> b < byte_len(s),
    decreases s.len(),
{
    if s.len() > 0 {
        lemma_rfind_byte_bound(s.drop_last(), c);
    }
}

// ----------------------------------------------------------------------------
// trailing-whitespace
// ----------------------------------------------------------------------------

/// The finding of the trailing-whitespace rule for line `i`, if any.
pub open spec fn trailing_ws_at(file: PathBuf, ls: Seq<Seq<char>>, fix: bool, i: int) -> Seq<
    DiagnosticView,
> {
    let line = ls[i];
    let kept = trim_end(line);
    let count = byte_len(line) - byte_len(kept);
    if count > 0 {
        seq![
            diag(
                Severity::Warning,
                "Лишние пробелы в конце строки ("@ + decimal(count as nat) + ")."@,
                file,
                (i + 1) as nat,
                byte_len(kept) + 1,
                "trailing-whitespace"@,
                if fix {
                    Some(kept)
                } else {
                    None
                },
            ),
        ]
    } else {
        seq![]
    }
}

/// Findings of the trailing-whitespace rule on the first `k` lines.
pub open spec fn trailing_ws_diags(file: PathBuf, ls: Seq<Seq<char>>, fix: bool, k: nat) -> Seq<
    DiagnosticView,
>
    decreases k,
{
    if k == 0 || k > ls.len() {
        seq![]
    } else {
        trailing_ws_diags(file, ls, fix, (k - 1) as nat) + trailing_ws_at(file, ls, fix, k - 1)
    }
}

/// Reports trailing white space at the first trailing white-space byte, with
/// the number of trailing bytes; the fix is the trimmed line.
pub fn check_trailing_whitespace(file: &PathBuf, lines: &[&str], fix: bool) -> (r: Vec<
    Diagnostic,
>)
    requires
        lines_fit(views_of_strs(lines@)),
    ensures
        diag_views(r@) == trailing_ws_diags(*file, views_of_strs(lines@), fix, lines@.len() as nat),
{
    let ghost ls = views_of_strs(lines@);
    let mut diagnostics: Vec<Diagnostic> = Vec::new();
    let mut i: usize = 0;
    while i < lines.len()
        invariant
            i <= lines@.len(),
            ls == views_of_strs(lines@),
            lines_fit(ls),
            diag_views(diagnostics@) == trailing_ws_diags(*file, ls, fix, i as nat),
        decreases lines.len() - i,
    {
        let v = chars_of(lines[i]);
        assert(v@ == ls[i as int]);
        assert(v@.take(v@.len() as int) =~= v@);
        let e = trim_end_len(&v);
        let total = byte_len_prefix(&v, v.len());
        let kept = byte_len_prefix(&v, e);
        proof {
            lemma_byte_len_prefix(v@, e as int);
        }
        let count = total - kept;
        if count > 0 {
            let mut message = String::from_str("Лишние пробелы в конце строки (");
            let number = decimal_string(count);
            message.append(number.as_str());
            message.append(").");
            let fixed = if fix {
                Some(string_from_chars(&v, 0, e))
            } else {
                None
            };
            assert(v@.subrange(0, e as int) =~= v@.take(e as int));
            let d = make_diagnostic(
                Severity::Warning,
                message,
                file,
                i + 1,
                kept + 1,
                String::from_str("trailing-whitespace"),
                fixed,
            );
            proof {
                lemma_diag_views_push(diagnostics@, d);
            }
            diagnostics.push(d);
            assert(diag_views(diagnostics@) =~= trailing_ws_diags(*file, ls, fix, (i + 1) as nat));
        } else {
            assert(trailing_ws_at(*file, ls, fix, i as int) =~= Seq::<DiagnosticView>::empty());
            assert(diag_views(diagnostics@) =~= trailing_ws_diags(*file, ls, fix, (i + 1) as nat));
        }
        i = i + 1;
    }
    diagnostics
}

// ----------------------------------------------------------------------------
// empty-whitespace-line
// ----------------------------------------------------------------------------

/// The finding of the empty-whitespace-line rule for line `i`, if any.
pub open spec fn blank_line_at(file: PathBuf, ls: Seq<Seq<char>>, fix: bool, i: int) -> Seq<
    DiagnosticView,
> {
    if ls[i].len() > 0 && all_ws(ls[i]) {
        seq![
            diag(
                Severity::Info,
                "Строка содержит только пробелы."@,
                file,
                (i + 1) as nat,
                1,
                "empty-whitespace-line"@,
                if fix {
                    Some(Seq::<char>::empty())
                } else {
                    None
                },
            ),
        ]
    } else {
        seq![]
    }
}

/// Findings of the empty-whitespace-line rule on the first `k` lines.
pub open spec fn blank_line_diags(file: PathBuf, ls: Seq<Seq<char>>, fix: bool, k: nat) -> Seq<
    DiagnosticView,
>
    decreases k,
{
    if k == 0 || k > ls.len() {
        seq![]
    } else {
        blank_line_diags(file, ls, fix, (k - 1) as nat) + blank_line_at(file, ls, fix, k - 1)
    }
}

/// Reports non-empty lines made only of white space; the fix is the empty
/// line.
pub fn check_empty_whitespace_line(file: &PathBuf, lines: &[&str], fix: bool) -> (r: Vec<
    Diagnostic,
>)
    ensures
        diag_views(r@) == blank_line_diags(*file, views_of_strs(lines@), fix, lines@.len() as nat),
{
    let ghost ls = views_of_strs(lines@);
    let mut diagnostics: Vec<Diagnostic> = Vec::new();
    let mut i: usize = 0;
    while i < lines.len()
        invariant
            i <= lines@.len(),
            ls == views_of_strs(lines@),
            diag_views(diagnostics@) == blank_line_diags(*file, ls, fix, i as nat),
        decreases lines.len() - i,
    {
        let v = chars_of(lines[i]);
        assert(v@ == ls[i as int]);
        if v.len() > 0 && all_whitespace(&v) {
            let fixed = if fix {
                Some(String::new())
            } else {
                None
            };
            let d = make_diagnostic(
                Severity::Info,
                String::from_str("Строка содержит только пробелы."),
                file,
                i + 1,
                1,
                String::from_str("empty-whitespace-line"),
                fixed,
            );
            proof {
                lemma_diag_views_push(diagnostics@, d);
            }
            diagnostics.push(d);
            assert(diag_views(diagnostics@) =~= blank_line_diags(*file, ls, fix, (i + 1) as nat));
        } else {
            assert(diag_views(diagnostics@) =~= blank_line_diags(*file, ls, fix, (i + 1) as nat));
        }
        i = i + 1;
    }
    diagnostics
}

// ----------------------------------------------------------------------------
// Patterns
// ----------------------------------------------------------------------------

/// A keyword that opens a block.
pub const BLOCK_START: &'static str = r"(?i)\b(Macro|Class|If|For|While|With)\b";

/// The keyword that closes a block.
pub const BLOCK_END: &'static str = r"(?i)\bEnd\b";

/// The views of a sequence of optional strings.
pub open spec fn opt_views(v: Seq<Option<String>>) -> Seq<Option<Seq<char>>> {
    v.map_values(|o: Option<String>| opt_view(o))
}

// ----------------------------------------------------------------------------
// missing-end and orphaned-end
// ----------------------------------------------------------------------------

/// After the first `k` lines: the line numbers of `End`s that closed nothing,
/// and the stack of open blocks (opening keyword and line number).
/// `starts[i]` is the text of the first block-opening keyword on line `i`,
/// `ends[i]` whether line `i` holds `End`; a line with both is skipped.
pub open spec fn block_state(starts: Seq<Option<Seq<char>>>, ends: Seq<bool>, k: nat) -> (
    Seq<nat>,
    Seq<(Seq<char>, nat)>,
)
    decreases k,
{
    if k == 0 {
        (seq![], seq![])
    } else {
        let (orphans, stack) = block_state(starts, ends, (k - 1) as nat);
        let i = k - 1;
        if starts[i] is Some && ends[i] {
            (orphans, stack)
        } else if starts[i] is Some {
            (orphans, stack.push((starts[i]->0, k)))
        } else if ends[i] {
            if stack.len() == 0 {
                (orphans.push(k), stack)
            } else {
                (orphans, stack.drop_last())
            }
        } else {
            (orphans, stack)
        }
    }
}

/// The finding for an `End` on line `line` that closes no block.
pub open spec fn orphan_diag(file: PathBuf, line: nat) -> DiagnosticView {
    diag(Severity::Error, "Лишний 'End'."@, file, line, 1, "orphaned-end"@, None)
}

/// The finding for a block opened by `keyword` on line `line` and never closed.
pub open spec fn unclosed_block_diag(file: PathBuf, keyword: Seq<char>, line: nat) -> DiagnosticView {
    diag(
        Severity::Error,
        "Незакрытый блок '"@ + keyword + "'."@,
        file,
        line,
        1,
        "missing-end"@,
        None,
    )
}

/// Findings of the block-balance rule: the stray `End`s in line order, then
/// the blocks still open at the end of the file, outermost first.
pub open spec fn missing_end_spec(file: PathBuf, starts: Seq<Option<Seq<char>>>, ends: Seq<bool>) -> Seq<
    DiagnosticView,
> {
    let (orphans, stack) = block_state(starts, ends, starts.len());
    orphans.map_values(|l: nat| orphan_diag(file, l)) + stack.map_values(
        |e: (Seq<char>, nat)| unclosed_block_diag(file, e.0, e.1),
    )
}

/// The block-opening keyword that the pattern finds first on each cleaned line.
pub open spec fn block_starts(ls: Seq<Seq<char>>) -> Seq<Option<Seq<char>>> {
    Seq::new(
        ls.len(),
        |i: int|
            match first_match(BLOCK_START@, cleaned(ls, i)) {
                Some(m) => Some(m.1),
                None => None,
            },
    )
}

/// Whether each cleaned line holds `End`.
pub open spec fn block_ends(ls: Seq<Seq<char>>) -> Seq<bool> {
    Seq::new(ls.len(), |i: int| has_match(BLOCK_END@, cleaned(ls, i)))
}

/// The views of a stack of open blocks.
pub open spec fn stack_view(v: Seq<(String, usize)>) -> Seq<(Seq<char>, nat)> {
    v.map_values(|e: (String, usize)| (e.0@, e.1 as nat))
}

/// Balances block-opening keywords against `End`s, given for each line the
/// first opening keyword found on it and whether it holds `End`.
pub fn missing_end_from_matches(file: &PathBuf, starts: &[Option<String>], ends: &[bool]) -> (r: Vec<
    Diagnostic,
>)
    requires
        starts@.len() == ends@.len(),
    ensures
        diag_views(r@) == missing_end_spec(*file, opt_views(starts@), ends@),
{
    let ghost st = opt_views(starts@);
    let mut diagnostics: Vec<Diagnostic> = Vec::new();
    let mut stack: Vec<(String, usize)> = Vec::new();
    let mut i: usize = 0;
    assert(diag_views(diagnostics@) =~= block_state(st, ends@, 0).0.map_values(
        |l: nat| orphan_diag(*file, l),
    ));
    assert(stack_view(stack@) =~= block_state(st, ends@, 0).1);
    while i < starts.len()
        invariant
            i <= starts@.len() == ends@.len(),
            st == opt_views(starts@),
            diag_views(diagnostics@) == block_state(st, ends@, i as nat).0.map_values(
                |l: nat| orphan_diag(*file, l),
            ),
            stack_view(stack@) == block_state(st, ends@, i as nat).1,
            forall|j: int| 0 <= j < stack@.len() ==> #[trigger] stack@[j].1 <= i,
        decreases starts.len() - i,
    {
        let ghost prev = block_state(st, ends@, i as nat);
        assert(st[i as int] == opt_view(starts@[i as int]));
        match &starts[i] {
            Some(name) => {
                if !ends[i] {
                    let ghost old_stack = stack@;
                    stack.push((name.clone(), i + 1));
                    assert(stack_view(stack@) =~= stack_view(old_stack).push((name@, (i + 1) as nat)));
                }
            },
            None => {
                if ends[i] {
                    if stack.len() == 0 {
                        let d = create_diag(file, i + 1, "Лишний 'End'.", "orphaned-end");
                        proof {
                            lemma_diag_views_push(diagnostics@, d);
                        }
                        diagnostics.push(d);
                        assert(diag_views(diagnostics@) =~= prev.0.push((i + 1) as nat).map_values(
                            |l: nat| orphan_diag(*file, l),
                        ));
                    } else {
                        let ghost old_stack = stack@;
                        stack.pop();
                        assert(stack_view(stack@) =~= stack_view(old_stack).drop_last());
                    }
                }
            },
        }
        i = i + 1;
    }
    let ghost orphans_part = diag_views(diagnostics@);
    let ghost stack_part = stack_view(stack@).map_values(
        |e: (Seq<char>, nat)| unclosed_block_diag(*file, e.0, e.1),
    );
    let mut j: usize = 0;
    while j < stack.len()
        invariant
            j <= stack@.len(),
            stack_part == stack_view(stack@).map_values(
                |e: (Seq<char>, nat)| unclosed_block_diag(*file, e.0, e.1),
            ),
            diag_views(diagnostics@) == orphans_part + stack_part.take(j as int),
        decreases stack.len() - j,
    {
        let mut message = String::from_str("Незакрытый блок '");
        message.append(stack[j].0.as_str());
        message.append("'.");
        let d = create_diag(file, stack[j].1, message.as_str(), "missing-end");
        proof {
            lemma_diag_views_push(diagnostics@, d);
        }
        diagnostics.push(d);
        assert(stack_part.take(j + 1) =~= stack_part.take(j as int).push(stack_part[j as int]));
        assert(diag_views(diagnostics@) =~= orphans_part + stack_part.take(j + 1));
        j = j + 1;
    }
    assert(stack_part.take(stack@.len() as int) =~= stack_part);
    diagnostics
}

/// Reports each `End` that closes no block (`orphaned-end`) and each block
/// keyword (`Macro`, `Class`, `If`, `For`, `While`, `With`) left without its
/// `End` (`missing-end`), on the cleaned lines. A line with both an opening
/// keyword and `End` opens and closes nothing.
pub fn check_missing_end(file: &PathBuf, lines: &[&str]) -> (r: Vec<Diagnostic>)
    requires
        lines_fit(views_of_strs(lines@)),
    ensures
        diag_views(r@) == missing_end_spec(
            *file,
            block_starts(views_of_strs(lines@)),
            block_ends(views_of_strs(lines@)),
        ),
{
    let ghost ls = views_of_strs(lines@);
    proof {
        assert forall|i: int| 0 <= i < lines@.len() implies #[trigger] byte_len(lines@[i]@)
            <= usize::MAX by {
            assert(ls[i] == lines@[i]@);
        }
    }
    let clean = clean_all(lines);
    assert(views_of_strings(clean@).len() == clean@.len());
    let re_start = compile(BLOCK_START);
    let re_end = compile(BLOCK_END);
    let mut starts: Vec<Option<String>> = Vec::new();
    let mut ends: Vec<bool> = Vec::new();
    let mut i: usize = 0;
    while i < clean.len()
        invariant
            i <= clean@.len() == ls.len(),
            views_of_strings(clean@) == cleaned_lines(ls),
            compiled_from(re_start, BLOCK_START@),
            compiled_from(re_end, BLOCK_END@),
            opt_views(starts@) == block_starts(ls).take(i as int),
            ends@ == block_ends(ls).take(i as int),
        decreases clean.len() - i,
    {
        assert(views_of_strings(clean@)[i as int] == clean@[i as int]@);
        assert(clean@[i as int]@ == cleaned(ls, i as int));
        let found = find_first(&re_start, Ghost(BLOCK_START@), clean[i].as_str());
        let keyword = match found {
            Some(m) => Some(m.1),
            None => None,
        };
        let at_end = is_match(&re_end, Ghost(BLOCK_END@), clean[i].as_str());
        let ghost old_starts = starts@;
        starts.push(keyword);
        ends.push(at_end);
        assert(opt_views(starts@) =~= opt_views(old_starts).push(opt_view(keyword)));
        assert(opt_views(starts@) =~= block_starts(ls).take(i + 1));
        assert(ends@ =~= block_ends(ls).take(i + 1));
        i = i + 1;
    }
    assert(block_starts(ls).take(ls.len() as int) =~= block_starts(ls));
    assert(block_ends(ls).take(ls.len() as int) =~= block_ends(ls));
    missing_end_from_matches(file, starts.as_slice(), ends.as_slice())
}

// ----------------------------------------------------------------------------
// empty-block
// ----------------------------------------------------------------------------

/// After the first `k` lines: the start lines of the empty blocks found, and
/// the line of a block opening that nothing has followed yet.
/// `starts[i]` tells whether cleaned line `code[i]` opens a block, `ends[i]`
/// whether it holds `End`.
pub open spec fn empty_block_state(
    code: Seq<Seq<char>>,
    starts: Seq<bool>,
    ends: Seq<bool>,
    k: nat,
) -> (Seq<nat>, Option<nat>)
    decreases k,
{
    if k == 0 {
        (seq![], None)
    } else {
        let (found, last) = empty_block_state(code, starts, ends, (k - 1) as nat);
        let i = k - 1;
        if starts[i] {
            (found, Some(k))
        } else if ends[i] {
            if last == Some((k - 1) as nat) {
                (found.push((k - 1) as nat), None)
            } else {
                (found, None)
            }
        } else if trim(code[i]).len() > 0 {
            (found, None)
        } else {
            (found, last)
        }
    }
}

/// The finding for an empty block opened on line `line`.
pub open spec fn empty_block_diag(file: PathBuf, line: nat) -> DiagnosticView {
    diag(Severity::Warning, "Пустой блок кода."@, file, line, 1, "empty-block"@, None)
}

/// Findings of the empty-block rule: a block opening directly followed by the
/// line with `End`.
pub open spec fn empty_blocks_spec(
    file: PathBuf,
    code: Seq<Seq<char>>,
    starts: Seq<bool>,
    ends: Seq<bool>,
) -> Seq<DiagnosticView> {
    empty_block_state(code, starts, ends, code.len()).0.map_values(
        |l: nat| empty_block_diag(file, l),
    )
}

/// Whether each cleaned line opens a block.
pub open spec fn block_opens(ls: Seq<Seq<char>>) -> Seq<bool> {
    Seq::new(ls.len(), |i: int| has_match(BLOCK_START@, cleaned(ls, i)))
}

/// Whether a string is empty once trimmed.
fn is_blank(s: &String) -> (r: bool)
    ensures
        r == (trim(s@).len() == 0),
{
    let v = chars_of(s.as_str());
    let (lo, hi) = trim_bounds(&v);
    lo == hi
}

/// Finds blocks whose opening line is directly followed by `End`, given the
/// cleaned lines and, for each, whether it opens a block and whether it
/// holds `End`.
pub fn empty_blocks_from_matches(
    file: &PathBuf,
    code: &[String],
    starts: &[bool],
    ends: &[bool],
) -> (r: Vec<Diagnostic>)
    requires
        code@.len() == starts@.len() == ends@.len(),
    ensures
        diag_views(r@) == empty_blocks_spec(*file, views_of_strings(code@), starts@, ends@),
{
    let ghost cs = views_of_strings(code@);
    let mut diagnostics: Vec<Diagnostic> = Vec::new();
    let mut last: Option<usize> = None;
    let mut i: usize = 0;
    assert(diag_views(diagnostics@) =~= empty_block_state(cs, starts@, ends@, 0).0.map_values(
        |l: nat| empty_block_diag(*file, l),
    ));
    while i < code.len()
        invariant
            i <= code@.len() == starts@.len() == ends@.len(),
            cs == views_of_strings(code@),
            diag_views(diagnostics@) == empty_block_state(cs, starts@, ends@, i as nat).0.map_values(
                |l: nat| empty_block_diag(*file, l),
            ),
            match last {
                Some(l) => empty_block_state(cs, starts@, ends@, i as nat).1 == Some(l as nat) && l
                    <= i,
                None => empty_block_state(cs, starts@, ends@, i as nat).1 is None,
            },
        decreases code.len() - i,
    {
        let line_num = i + 1;
        assert(cs[i as int] == code@[i as int]@);
        if starts[i] {
            last = Some(line_num);
        } else if ends[i] {
            if let Some(start_line) = last {
                if start_line == line_num - 1 {
                    let d = make_diagnostic(
                        Severity::Warning,
                        String::from_str("Пустой блок кода."),
                        file,
                        start_line,
                        1,
                        String::from_str("empty-block"),
                        None,
                    );
                    proof {
                        lemma_diag_views_push(diagnostics@, d);
                    }
                    diagnostics.push(d);
                    assert(diag_views(diagnostics@) =~= empty_block_state(
                        cs,
                        starts@,
                        ends@,
                        (i + 1) as nat,
                    ).0.map_values(|l: nat| empty_block_diag(*file, l)));
                }
            }
            last = None;
        } else if !is_blank(&code[i]) {
            last = None;
        }
        i = i + 1;
    }
    diagnostics
}

/// Reports a block-opening line that is directly followed by a line with
/// `End`, at the opening line.
pub fn check_empty_blocks(file: &PathBuf, lines: &[&str]) -> (r: Vec<Diagnostic>)
    requires
        lines_fit(views_of_strs(lines@)),
    ensures
        diag_views(r@) == empty_blocks_spec(
            *file,
            cleaned_lines(views_of_strs(lines@)),
            block_opens(views_of_strs(lines@)),
            block_ends(views_of_strs(lines@)),
        ),
{
    let ghost ls = views_of_strs(lines@);
    proof {
        assert forall|i: int| 0 <= i < lines@.len() implies #[trigger] byte_len(lines@[i]@)
            <= usize::MAX by {
            assert(ls[i] == lines@[i]@);
        }
    }
    let clean = clean_all(lines);
    assert(views_of_strings(clean@).len() == clean@.len());
    let re_start = compile(BLOCK_START);
    let re_end = compile(BLOCK_END);
    let mut starts: Vec<bool> = Vec::new();
    let mut ends: Vec<bool> = Vec::new();
    let mut i: usize = 0;
    while i < clean.len()
        invariant
            i <= clean@.len() == ls.len(),
            views_of_strings(clean@) == cleaned_lines(ls),
            compiled_from(re_start, BLOCK_START@),
            compiled_from(re_end, BLOCK_END@),
            starts@ == block_opens(ls).take(i as int),
            ends@ == block_ends(ls).take(i as int),
        decreases clean.len() - i,
    {
        assert(views_of_strings(clean@)[i as int] == clean@[i as int]@);
        let opens = is_match(&re_start, Ghost(BLOCK_START@), clean[i].as_str());
        let closes = is_match(&re_end, Ghost(BLOCK_END@), clean[i].as_str());
        starts.push(opens);
        ends.push(closes);
        assert(starts@ =~= block_opens(ls).take(i + 1));
        assert(ends@ =~= block_ends(ls).take(i + 1));
        i = i + 1;
    }
    assert(block_opens(ls).take(ls.len() as int) =~= block_opens(ls));
    assert(block_ends(ls).take(ls.len() as int) =~= block_ends(ls));
    empty_blocks_from_matches(file, clean.as_slice(), starts.as_slice(), ends.as_slice())
}

// ----------------------------------------------------------------------------
// single-equals
// ----------------------------------------------------------------------------

/// A keyword that starts a condition.
pub const CONDITION_START: &'static str = r"(?i)\b(if|elif|while)\b";

/// An `=` that is not part of `==`, `<=`, `>=` or `!=`.
pub const SINGLE_EQUALS: &'static str = r"[^<>=!]=\s*[^=]";

/// The condition text collected so far, and whether collection is under way,
/// after the first `k` cleaned lines. `triggers[i]` tells whether line `i`
/// holds a condition keyword.
pub open spec fn condition_state(code: Seq<Seq<char>>, triggers: Seq<bool>, k: nat) -> (
    Seq<char>,
    bool,
)
    decreases k,
{
    if k == 0 {
        (seq![], false)
    } else {
        let (buffer, active) = condition_state(code, triggers, (k - 1) as nat);
        let i = k - 1;
        if triggers[i] || active {
            let joined = buffer + code[i];
            if closes_condition(joined) {
                (seq![], false)
            } else {
                (joined, true)
            }
        } else {
            (buffer, active)
        }
    }
}

/// Collected condition text is complete: its parentheses balance and there is
/// at least one.
pub open spec fn closes_condition(text: Seq<char>) -> bool {
    count_char(text, '(') == count_char(text, ')') && text.contains('(')
}

/// Whether line `i` takes part in a condition.
pub open spec fn in_condition(code: Seq<Seq<char>>, triggers: Seq<bool>, i: int) -> bool {
    triggers[i] || condition_state(code, triggers, i as nat).1
}

/// The condition text once line `i` is added.
pub open spec fn condition_text(code: Seq<Seq<char>>, triggers: Seq<bool>, i: int) -> Seq<char> {
    condition_state(code, triggers, i as nat).0 + code[i]
}

/// Whether line `i` completes a condition.
pub open spec fn completes_condition(code: Seq<Seq<char>>, triggers: Seq<bool>, i: int) -> bool {
    in_condition(code, triggers, i) && closes_condition(condition_text(code, triggers, i))
}

/// The lines, numbered from 1, on which a completed condition holds a single
/// `=`; `bad[i]` tells whether the condition completed on line `i` does.
pub open spec fn single_equals_lines(
    code: Seq<Seq<char>>,
    triggers: Seq<bool>,
    bad: Seq<bool>,
    k: nat,
) -> Seq<nat>
    decreases k,
{
    if k == 0 {
        seq![]
    } else {
        let prev = single_equals_lines(code, triggers, bad, (k - 1) as nat);
        if completes_condition(code, triggers, k - 1) && bad[k - 1] {
            prev.push(k)
        } else {
            prev
        }
    }
}

/// The finding for a single `=` in the condition completed on line `line`.
pub open spec fn single_equals_diag(file: PathBuf, line: nat) -> DiagnosticView {
    diag(Severity::Error, "Используйте '==' для сравнения."@, file, line, 1, "single-equals"@, None)
}

/// Findings of the single-equals rule.
pub open spec fn single_equals_spec(
    file: PathBuf,
    code: Seq<Seq<char>>,
    triggers: Seq<bool>,
    bad: Seq<bool>,
) -> Seq<DiagnosticView> {
    single_equals_lines(code, triggers, bad, code.len()).map_values(
        |l: nat| single_equals_diag(file, l),
    )
}

/// Whether each cleaned line holds a condition keyword.
pub open spec fn condition_triggers(ls: Seq<Seq<char>>) -> Seq<bool> {
    Seq::new(ls.len(), |i: int| has_match(CONDITION_START@, cleaned(ls, i)))
}

/// For each line that completes a condition, whether the condition text holds
/// a single `=`.
pub open spec fn single_equals_flags(ls: Seq<Seq<char>>) -> Seq<bool> {
    let code = cleaned_lines(ls);
    let triggers = condition_triggers(ls);
    Seq::new(
        ls.len(),
        |i: int|
            completes_condition(code, triggers, i) && has_match(
                SINGLE_EQUALS@,
                condition_text(code, triggers, i),
            ),
    )
}

/// Whether collected condition text is complete.
fn condition_closed(text: &String) -> (r: bool)
    ensures
        r == closes_condition(text@),
{
    let v = chars_of(text.as_str());
    let opened = count_char_in(&v, 0, v.len(), '(');
    let closed = count_char_in(&v, 0, v.len(), ')');
    assert(v@.subrange(0, v@.len() as int) =~= v@);
    opened == closed && contains_char(&v, '(')
}

/// Reports conditions that hold a single `=`, at the line that completes
/// them, given the cleaned lines, whether each holds a condition keyword, and
/// whether the condition completed on each line holds a single `=`.
pub fn single_equals_from_matches(
    file: &PathBuf,
    code: &[String],
    triggers: &[bool],
    bad: &[bool],
) -> (r: Vec<Diagnostic>)
    requires
        code@.len() == triggers@.len() == bad@.len(),
    ensures
        diag_views(r@) == single_equals_spec(*file, views_of_strings(code@), triggers@, bad@),
{
    let ghost cs = views_of_strings(code@);
    let mut diagnostics: Vec<Diagnostic> = Vec::new();
    let mut buffer = String::new();
    let mut active = false;
    let mut i: usize = 0;
    assert(diag_views(diagnostics@) =~= single_equals_lines(cs, triggers@, bad@, 0).map_values(
        |l: nat| single_equals_diag(*file, l),
    ));
    while i < code.len()
        invariant
            i <= code@.len() == triggers@.len() == bad@.len(),
            cs == views_of_strings(code@),
            (buffer@, active) == condition_state(cs, triggers@, i as nat),
            diag_views(diagnostics@) == single_equals_lines(
                cs,
                triggers@,
                bad@,
                i as nat,
            ).map_values(|l: nat| single_equals_diag(*file, l)),
        decreases code.len() - i,
    {
        assert(cs[i as int] == code@[i as int]@);
        if triggers[i] || active {
            active = true;
            buffer.append(code[i].as_str());
            if condition_closed(&buffer) {
                if bad[i] {
                    let d = create_diag(
                        file,
                        i + 1,
                        "Используйте '==' для сравнения.",
                        "single-equals",
                    );
                    proof {
                        lemma_diag_views_push(diagnostics@, d);
                    }
                    diagnostics.push(d);
                    assert(diag_views(diagnostics@) =~= single_equals_lines(
                        cs,
                        triggers@,
                        bad@,
                        (i + 1) as nat,
                    ).map_values(|l: nat| single_equals_diag(*file, l)));
                }
                buffer = String::new();
                active = false;
            }
        }
        i = i + 1;
    }
    diagnostics
}

/// Reports an `if`, `elif` or `while` condition, possibly spread over several
/// lines until its parentheses balance, that holds a single `=`.
pub fn check_single_equals_in_condition(file: &PathBuf, lines: &[&str]) -> (r: Vec<Diagnostic>)
    requires
        lines_fit(views_of_strs(lines@)),
    ensures
        diag_views(r@) == single_equals_spec(
            *file,
            cleaned_lines(views_of_strs(lines@)),
            condition_triggers(views_of_strs(lines@)),
            single_equals_flags(views_of_strs(lines@)),
        ),
{
    let ghost ls = views_of_strs(lines@);
    proof {
        assert forall|i: int| 0 <= i < lines@.len() implies #[trigger] byte_len(lines@[i]@)
            <= usize::MAX by {
            assert(ls[i] == lines@[i]@);
        }
    }
    let clean = clean_all(lines);
    assert(views_of_strings(clean@).len() == clean@.len());
    let ghost cs = cleaned_lines(ls);
    let trigger = compile(CONDITION_START);
    let bad_eq = compile(SINGLE_EQUALS);
    let mut triggers: Vec<bool> = Vec::new();
    let mut i: usize = 0;
    while i < clean.len()
        invariant
            i <= clean@.len() == ls.len(),
            views_of_strings(clean@) == cs,
            cs == cleaned_lines(ls),
            compiled_from(trigger, CONDITION_START@),
            triggers@ == condition_triggers(ls).take(i as int),
        decreases clean.len() - i,
    {
        assert(views_of_strings(clean@)[i as int] == clean@[i as int]@);
        let t = is_match(&trigger, Ghost(CONDITION_START@), clean[i].as_str());
        triggers.push(t);
        assert(triggers@ =~= condition_triggers(ls).take(i + 1));
        i = i + 1;
    }
    assert(condition_triggers(ls).take(ls.len() as int) =~= condition_triggers(ls));
    let mut bad: Vec<bool> = Vec::new();
    let mut buffer = String::new();
    let mut active = false;
    let mut j: usize = 0;
    while j < clean.len()
        invariant
            j <= clean@.len() == ls.len() == triggers@.len(),
            views_of_strings(clean@) == cs,
            cs == cleaned_lines(ls),
            triggers@ == condition_triggers(ls),
            compiled_from(bad_eq, SINGLE_EQUALS@),
            (buffer@, active) == condition_state(cs, triggers@, j as nat),
            bad@ == single_equals_flags(ls).take(j as int),
        decreases clean.len() - j,
    {
        assert(views_of_strings(clean@)[j as int] == clean@[j as int]@);
        let mut flag = false;
        if triggers[j] || active {
            active = true;
            buffer.append(clean[j].as_str());
            if condition_closed(&buffer) {
                flag = is_match(&bad_eq, Ghost(SINGLE_EQUALS@), buffer.as_str());
                buffer = String::new();
                active = false;
            }
        }
        bad.push(flag);
        assert(bad@ =~= single_equals_flags(ls).take(j + 1));
        j = j + 1;
    }
    assert(single_equals_flags(ls).take(ls.len() as int) =~= single_equals_flags(ls));
    single_equals_from_matches(file, clean.as_slice(), triggers.as_slice(), bad.as_slice())
}

// ----------------------------------------------------------------------------
// deprecated-record and deprecated-array
// ----------------------------------------------------------------------------

/// The word `record`.
pub const RECORD_WORD: &'static str = r"\brecord\b";

/// The word `array`.
pub const ARRAY_WORD: &'static str = r"\barray\b";

/// The finding for the deprecated word `old` on line `line` at column `column`;
/// with `fix`, the line with every `old` replaced by `new`.
pub open spec fn deprecated_diag(
    file: PathBuf,
    line: nat,
    column: nat,
    old: Seq<char>,
    new: Seq<char>,
    fix: bool,
    source_line: Seq<char>,
) -> DiagnosticView {
    diag(
        Severity::Warning,
        "'"@ + old + "' устарел. Используйте '"@ + new + "'."@,
        file,
        line,
        column,
        "deprecated-"@ + old,
        if fix {
            Some(replace_all(source_line, old, new))
        } else {
            None
        },
    )
}

fn create_deprecated_diag(
    file: &PathBuf,
    line: usize,
    col: usize,
    old: &str,
    new: &str,
    fix: bool,
    source_line: &str,
) -> (d: Diagnostic)
    requires
        old@.len() > 0,
    ensures
        d@ == deprecated_diag(*file, line as nat, col as nat, old@, new@, fix, source_line@),
{
    let mut message = String::from_str("'");
    message.append(old);
    message.append("' устарел. Используйте '");
    message.append(new);
    message.append("'.");
    let mut rule = String::from_str("deprecated-");
    rule.append(old);
    let fixed = if fix {
        Some(replace_text(source_line, old, new))
    } else {
        None
    };
    let d = make_diagnostic(Severity::Warning, message, file, line, col, rule, fixed);
    assert(d@.message =~= "'"@ + old@ + "' устарел. Используйте '"@ + new@ + "'."@);
    d
}

/// The findings of the deprecated-word rule for line `i`: `record` first,
/// then `array`, each at the byte column of its first occurrence.
pub open spec fn deprecated_at(
    file: PathBuf,
    ls: Seq<Seq<char>>,
    fix: bool,
    records: Seq<Option<nat>>,
    arrays: Seq<Option<nat>>,
    i: int,
) -> Seq<DiagnosticView> {
    (if records[i] is Some {
        seq![
            deprecated_diag(
                file,
                (i + 1) as nat,
                records[i]->0 + 1,
                "record"@,
                "TRecHandler"@,
                fix,
                ls[i],
            ),
        ]
    } else {
        seq![]
    }) + (if arrays[i] is Some {
        seq![
            deprecated_diag(
                file,
                (i + 1) as nat,
                arrays[i]->0 + 1,
                "array"@,
                "TArray"@,
                fix,
                ls[i],
            ),
        ]
    } else {
        seq![]
    })
}

/// Findings of the deprecated-word rule on the first `k` lines.
pub open spec fn deprecated_diags(
    file: PathBuf,
    ls: Seq<Seq<char>>,
    fix: bool,
    records: Seq<Option<nat>>,
    arrays: Seq<Option<nat>>,
    k: nat,
) -> Seq<DiagnosticView>
    decreases k,
{
    if k == 0 {
        seq![]
    } else {
        deprecated_diags(file, ls, fix, records, arrays, (k - 1) as nat) + deprecated_at(
            file,
            ls,
            fix,
            records,
            arrays,
            k - 1,
        )
    }
}

/// The views of optional offsets.
pub open spec fn opt_nats(v: Seq<Option<usize>>) -> Seq<Option<nat>> {
    v.map_values(
        |o: Option<usize>|
            match o {
                Some(x) => Some(x as nat),
                None => None,
            },
    )
}

/// The byte offset at which a pattern first matches each cleaned line.
pub open spec fn first_offsets(pattern: Seq<char>, ls: Seq<Seq<char>>) -> Seq<Option<nat>> {
    Seq::new(
        ls.len(),
        |i: int|
            match first_match(pattern, cleaned(ls, i)) {
                Some(m) => Some(m.0),
                None => None,
            },
    )
}

/// Reports the deprecated words `record` and `array`, given for each line the
/// byte offset of their first occurrence in its cleaned form.
pub fn deprecated_from_matches(
    file: &PathBuf,
    lines: &[&str],
    fix: bool,
    records: &[Option<usize>],
    arrays: &[Option<usize>],
) -> (r: Vec<Diagnostic>)
    requires
        lines@.len() == records@.len() == arrays@.len(),
        forall|i: int| 0 <= i < records@.len() ==> (#[trigger] records@[i] matches Some(x) ==> x
            < usize::MAX),
        forall|i: int| 0 <= i < arrays@.len() ==> (#[trigger] arrays@[i] matches Some(x) ==> x
            < usize::MAX),
    ensures
        diag_views(r@) == deprecated_diags(
            *file,
            views_of_strs(lines@),
            fix,
            opt_nats(records@),
            opt_nats(arrays@),
            lines@.len() as nat,
        ),
{
    let ghost ls = views_of_strs(lines@);
    let ghost rs = opt_nats(records@);
    let ghost arrs = opt_nats(arrays@);
    let mut diagnostics: Vec<Diagnostic> = Vec::new();
    let mut i: usize = 0;
    while i < lines.len()
        invariant
            i <= lines@.len() == records@.len() == arrays@.len(),
            ls == views_of_strs(lines@),
            rs == opt_nats(records@),
            arrs == opt_nats(arrays@),
            forall|i: int| 0 <= i < records@.len() ==> (#[trigger] records@[i] matches Some(x)
                ==> x < usize::MAX),
            forall|i: int| 0 <= i < arrays@.len() ==> (#[trigger] arrays@[i] matches Some(x) ==> x
                < usize::MAX),
            diag_views(diagnostics@) == deprecated_diags(*file, ls, fix, rs, arrs, i as nat),
        decreases lines.len() - i,
    {
        let ghost before = diag_views(diagnostics@);
        assert(ls[i as int] == lines@[i as int]@);
        if let Some(start) = records[i] {
            assert(records@[i as int] matches Some(x) ==> x < usize::MAX);
            proof {
                reveal_strlit("record");
            }
            let d = create_deprecated_diag(file, i + 1, start + 1, "record", "TRecHandler", fix, lines[i]);
            proof {
                lemma_diag_views_push(diagnostics@, d);
            }
            diagnostics.push(d);
        }
        let ghost middle = diag_views(diagnostics@);
        if let Some(start) = arrays[i] {
            assert(arrays@[i as int] matches Some(x) ==> x < usize::MAX);
            proof {
                reveal_strlit("array");
            }
            let d = create_deprecated_diag(file, i + 1, start + 1, "array", "TArray", fix, lines[i]);
            proof {
                lemma_diag_views_push(diagnostics@, d);
            }
            diagnostics.push(d);
        }
        assert(diag_views(diagnostics@) =~= before + deprecated_at(*file, ls, fix, rs, arrs, i as int));
        i = i + 1;
    }
    diagnostics
}

/// Reports the deprecated words `record` (use `TRecHandler`) and `array`
/// (use `TArray`) outside comments and strings, at the first occurrence on
/// each line; with `fix`, the fix replaces every occurrence on the line.
pub fn check_deprecated_usage(file: &PathBuf, lines: &[&str], fix: bool) -> (r: Vec<Diagnostic>)
    requires
        lines_fit(views_of_strs(lines@)),
    ensures
        diag_views(r@) == deprecated_diags(
            *file,
            views_of_strs(lines@),
            fix,
            first_offsets(RECORD_WORD@, views_of_strs(lines@)),
            first_offsets(ARRAY_WORD@, views_of_strs(lines@)),
            lines@.len() as nat,
        ),
{
    let ghost ls = views_of_strs(lines@);
    proof {
        assert forall|i: int| 0 <= i < lines@.len() implies #[trigger] byte_len(lines@[i]@)
            <= usize::MAX by {
            assert(ls[i] == lines@[i]@);
        }
    }
    let clean = clean_all(lines);
    assert(views_of_strings(clean@).len() == clean@.len());
    let re_record = compile(RECORD_WORD);
    let re_array = compile(ARRAY_WORD);
    let mut records: Vec<Option<usize>> = Vec::new();
    let mut arrays: Vec<Option<usize>> = Vec::new();
    let mut i: usize = 0;
    while i < clean.len()
        invariant
            i <= clean@.len() == ls.len(),
            ls == views_of_strs(lines@),
            lines_fit(ls),
            views_of_strings(clean@) == cleaned_lines(ls),
            compiled_from(re_record, RECORD_WORD@),
            compiled_from(re_array, ARRAY_WORD@),
            opt_nats(records@) == first_offsets(RECORD_WORD@, ls).take(i as int),
            opt_nats(arrays@) == first_offsets(ARRAY_WORD@, ls).take(i as int),
            records@.len() == i,
            arrays@.len() == i,
            forall|j: int| 0 <= j < i ==> (#[trigger] records@[j] matches Some(x) ==> x
                < usize::MAX),
            forall|j: int| 0 <= j < i ==> (#[trigger] arrays@[j] matches Some(x) ==> x
                < usize::MAX),
        decreases clean.len() - i,
    {
        assert(views_of_strings(clean@)[i as int] == clean@[i as int]@);
        proof {
            lemma_clean_line_bytes(ls[i as int], comment_after(ls, i as nat));
            assert(byte_len(ls[i as int]) < usize::MAX);
        }
        let r = match find_first(&re_record, Ghost(RECORD_WORD@), clean[i].as_str()) {
            Some(m) => Some(m.0),
            None => None,
        };
        let a = match find_first(&re_array, Ghost(ARRAY_WORD@), clean[i].as_str()) {
            Some(m) => Some(m.0),
            None => None,
        };
        let ghost old_r = records@;
        let ghost old_a = arrays@;
        records.push(r);
        arrays.push(a);
        assert(opt_nats(records@) =~= first_offsets(RECORD_WORD@, ls).take(i + 1));
        assert(opt_nats(arrays@) =~= first_offsets(ARRAY_WORD@, ls).take(i + 1));
        i = i + 1;
    }
    assert(first_offsets(RECORD_WORD@, ls).take(ls.len() as int) =~= first_offsets(RECORD_WORD@, ls));
    assert(first_offsets(ARRAY_WORD@, ls).take(ls.len() as int) =~= first_offsets(ARRAY_WORD@, ls));
    deprecated_from_matches(file, lines, fix, records.as_slice(), arrays.as_slice())
}

// ----------------------------------------------------------------------------
// unused-variable
// ----------------------------------------------------------------------------

/// A `Var` declaration; group 1 is the declared name.
pub const VAR_DECLARATION: &'static str = r"(?i)\bVar\s+([a-zA-Z_][a-zA-Z0-9_]*)";

/// The views of optional captures (byte offset and text).
pub open spec fn capture_views(v: Seq<Option<(usize, String)>>) -> Seq<Option<(nat, Seq<char>)>> {
    v.map_values(
        |o: Option<(usize, String)>|
            match o {
                Some(c) => Some((c.0 as nat, c.1@)),
                None => None,
            },
    )
}

/// The declarations among the first `k` lines: name, line number and column
/// (one past the byte offset of the name). `captures[i]` is the declared
/// name on line `i`, with its byte offset, if the line declares one.
pub open spec fn var_decls(captures: Seq<Option<(nat, Seq<char>)>>, k: nat) -> Seq<
    (Seq<char>, nat, nat),
>
    decreases k,
{
    if k == 0 || k > captures.len() {
        seq![]
    } else {
        let prev = var_decls(captures, (k - 1) as nat);
        match captures[k - 1] {
            Some(c) => prev.push((c.1, k, c.0 + 1)),
            None => prev,
        }
    }
}

/// The finding for the unused variable `name` declared at `line`, `column`.
pub open spec fn unused_diag(file: PathBuf, name: Seq<char>, line: nat, column: nat) -> DiagnosticView {
    diag(
        Severity::Warning,
        "Переменная '"@ + name + "' не используется."@,
        file,
        line,
        column,
        "unused-variable"@,
        None,
    )
}

/// Findings for the first `j` declarations; `rare[j]` tells whether
/// declaration `j`'s name occurs at most once in the file.
pub open spec fn unused_diags(
    file: PathBuf,
    decls: Seq<(Seq<char>, nat, nat)>,
    rare: Seq<bool>,
    j: nat,
) -> Seq<DiagnosticView>
    decreases j,
{
    if j == 0 {
        seq![]
    } else {
        let prev = unused_diags(file, decls, rare, (j - 1) as nat);
        let d = decls[j - 1];
        if rare[j - 1] {
            prev.push(unused_diag(file, d.0, d.1, d.2))
        } else {
            prev
        }
    }
}

/// Findings of the unused-variable rule, in declaration order.
pub open spec fn unused_spec(
    file: PathBuf,
    captures: Seq<Option<(nat, Seq<char>)>>,
    rare: Seq<bool>,
) -> Seq<DiagnosticView> {
    let decls = var_decls(captures, captures.len());
    unused_diags(file, decls, rare, decls.len())
}

/// The pattern for whole-word uses of `name`.
pub open spec fn usage_pattern(name: Seq<char>) -> Seq<char> {
    r"\b"@ + regex_escaped(name) + r"\b"@
}

/// The number of matches of `pattern` in the first `k` cleaned lines.
pub open spec fn usage_total(code: Seq<Seq<char>>, pattern: Seq<char>, k: nat) -> nat
    decreases k,
{
    if k == 0 || k > code.len() {
        0
    } else {
        usage_total(code, pattern, (k - 1) as nat) + match_count(pattern, code[k - 1])
    }
}

/// The declared name that the declaration pattern captures on each cleaned
/// line.
pub open spec fn declared_names(ls: Seq<Seq<char>>) -> Seq<Option<(nat, Seq<char>)>> {
    Seq::new(ls.len(), |i: int| first_capture(VAR_DECLARATION@, cleaned(ls, i), 1))
}

/// For each declaration, whether its name occurs at most once as a whole word
/// in the cleaned file.
pub open spec fn rarely_used(ls: Seq<Seq<char>>) -> Seq<bool> {
    let code = cleaned_lines(ls);
    let decls = var_decls(declared_names(ls), ls.len());
    Seq::new(
        decls.len(),
        |j: int| usage_total(code, usage_pattern(decls[j].0), code.len()) <= 1,
    )
}

/// Reports declared variables whose name occurs at most once, given each
/// line's declared name with its byte offset and, for each declaration in
/// order, how many times its name occurs.
pub fn unused_variables_from_matches(
    file: &PathBuf,
    captures: &[Option<(usize, String)>],
    counts: &[usize],
) -> (r: Vec<Diagnostic>)
    requires
        counts@.len() == var_decls(capture_views(captures@), captures@.len() as nat).len(),
        forall|i: int| 0 <= i < captures@.len() ==> (#[trigger] captures@[i] matches Some(c) ==> c.0
            < usize::MAX),
    ensures
        diag_views(r@) == unused_spec(
            *file,
            capture_views(captures@),
            counts@.map_values(|c: usize| c <= 1),
        ),
{
    let ghost cv = capture_views(captures@);
    let mut decls: Vec<(String, usize, usize)> = Vec::new();
    let mut i: usize = 0;
    while i < captures.len()
        invariant
            i <= captures@.len(),
            cv == capture_views(captures@),
            forall|i: int| 0 <= i < captures@.len() ==> (#[trigger] captures@[i] matches Some(c)
                ==> c.0 < usize::MAX),
            decls@.map_values(|d: (String, usize, usize)| (d.0@, d.1 as nat, d.2 as nat))
                == var_decls(cv, i as nat),
        decreases captures.len() - i,
    {
        let ghost old_decls = decls@;
        if let Some(c) = &captures[i] {
            assert(captures@[i as int] matches Some(c) ==> c.0 < usize::MAX);
            decls.push((c.1.clone(), i + 1, c.0 + 1));
        }
        assert(decls@.map_values(|d: (String, usize, usize)| (d.0@, d.1 as nat, d.2 as nat))
            =~= var_decls(cv, (i + 1) as nat));
        i = i + 1;
    }
    let ghost dv = var_decls(cv, captures@.len() as nat);
    let ghost rare = counts@.map_values(|c: usize| c <= 1);
    let mut diagnostics: Vec<Diagnostic> = Vec::new();
    let mut j: usize = 0;
    while j < decls.len()
        invariant
            j <= decls@.len() == dv.len() == counts@.len(),
            decls@.map_values(|d: (String, usize, usize)| (d.0@, d.1 as nat, d.2 as nat)) == dv,
            rare == counts@.map_values(|c: usize| c <= 1),
            diag_views(diagnostics@) == unused_diags(*file, dv, rare, j as nat),
        decreases decls.len() - j,
    {
        assert(dv[j as int] == (decls@[j as int].0@, decls@[j as int].1 as nat, decls@[j as int].2 as nat));
        if counts[j] <= 1 {
            let mut message = String::from_str("Переменная '");
            message.append(decls[j].0.as_str());
            message.append("' не используется.");
            let d = make_diagnostic(
                Severity::Warning,
                message,
                file,
                decls[j].1,
                decls[j].2,
                String::from_str("unused-variable"),
                None,
            );
            proof {
                lemma_diag_views_push(diagnostics@, d);
            }
            diagnostics.push(d);
        }
        j = j + 1;
    }
    diagnostics
}

/// Reports each `Var` declaration whose name occurs no more than once as a
/// whole word in the cleaned file, which is to say only in the declaration.
pub fn check_unused_variables(file: &PathBuf, lines: &[&str]) -> (r: Vec<Diagnostic>)
    requires
        lines_fit(views_of_strs(lines@)),
    ensures
        diag_views(r@) == unused_spec(
            *file,
            declared_names(views_of_strs(lines@)),
            rarely_used(views_of_strs(lines@)),
        ),
{
    let ghost ls = views_of_strs(lines@);
    proof {
        assert forall|i: int| 0 <= i < lines@.len() implies #[trigger] byte_len(lines@[i]@)
            <= usize::MAX by {
            assert(ls[i] == lines@[i]@);
        }
    }
    let clean = clean_all(lines);
    assert(views_of_strings(clean@).len() == clean@.len());
    let ghost code = cleaned_lines(ls);
    let var_re = compile(VAR_DECLARATION);
    let mut captures: Vec<Option<(usize, String)>> = Vec::new();
    let mut i: usize = 0;
    while i < clean.len()
        invariant
            i <= clean@.len() == ls.len(),
            lines_fit(ls),
            views_of_strings(clean@) == code,
            code == cleaned_lines(ls),
            compiled_from(var_re, VAR_DECLARATION@),
            capture_views(captures@) == declared_names(ls).take(i as int),
            captures@.len() == i,
            forall|j: int| 0 <= j < i ==> (#[trigger] captures@[j] matches Some(c) ==> c.0
                < usize::MAX),
        decreases clean.len() - i,
    {
        assert(views_of_strings(clean@)[i as int] == clean@[i as int]@);
        proof {
            lemma_clean_line_bytes(ls[i as int], comment_after(ls, i as nat));
        }
        let c = capture_first(&var_re, Ghost(VAR_DECLARATION@), clean[i].as_str(), 1);
        captures.push(c);
        assert(capture_views(captures@) =~= declared_names(ls).take(i + 1));
        i = i + 1;
    }
    assert(declared_names(ls).take(ls.len() as int) =~= declared_names(ls));
    let ghost decls = var_decls(declared_names(ls), ls.len());
    let mut counts: Vec<usize> = Vec::new();
    let mut k: usize = 0;
    while k < captures.len()
        invariant
            k <= captures@.len() == clean@.len() == ls.len(),
            views_of_strings(clean@) == code,
            code == cleaned_lines(ls),
            capture_views(captures@) == declared_names(ls),
            decls == var_decls(declared_names(ls), ls.len()),
            counts@.len() == var_decls(declared_names(ls), k as nat).len(),
            forall|j: int| 0 <= j < counts@.len() ==> (#[trigger] counts@[j] <= 1) == (usage_total(
                code,
                usage_pattern(var_decls(declared_names(ls), k as nat)[j].0),
                code.len(),
            ) <= 1),
        decreases captures.len() - k,
    {
        proof {
            lemma_var_decls_prefix(declared_names(ls), k as nat, ls.len());
            lemma_var_decls_prefix(declared_names(ls), (k + 1) as nat, ls.len());
        }
        if let Some(c) = &captures[k] {
            let mut pattern = String::from_str(r"\b");
            let escaped = escape(c.1.as_str());
            pattern.append(escaped.as_str());
            pattern.append(r"\b");
            let usage_re = compile(pattern.as_str());
            let mut total: usize = 0;
            let mut m: usize = 0;
            while m < clean.len()
                invariant
                    m <= clean@.len() == code.len(),
                    views_of_strings(clean@) == code,
                    compiled_from(usage_re, pattern@),
                    total as nat == if usage_total(code, pattern@, m as nat) <= usize::MAX {
                        usage_total(code, pattern@, m as nat)
                    } else {
                        usize::MAX as nat
                    },
                decreases clean.len() - m,
            {
                assert(views_of_strings(clean@)[m as int] == clean@[m as int]@);
                let n = count_matches(&usage_re, Ghost(pattern@), clean[m].as_str());
                total = total.saturating_add(n);
                m = m + 1;
            }
            assert(pattern@ == usage_pattern(c.1@));
            let ghost old_counts = counts@;
            counts.push(total);
            assert(capture_views(captures@)[k as int] == Some((c.0 as nat, c.1@)));
            assert forall|j: int| 0 <= j < counts@.len() implies (#[trigger] counts@[j] <= 1) == (
            usage_total(
                code,
                usage_pattern(var_decls(declared_names(ls), (k + 1) as nat)[j].0),
                code.len(),
            ) <= 1) by {
                if j < old_counts.len() {
                    assert(counts@[j] == old_counts[j]);
                }
            }
        }
        k = k + 1;
    }
    assert(rarely_used(ls) =~= counts@.map_values(|c: usize| c <= 1));
    unused_variables_from_matches(file, captures.as_slice(), counts.as_slice())
}

/// Declarations among the first `k` lines are a prefix of the declarations
/// among the first `n`.
proof fn lemma_var_decls_prefix(captures: Seq<Option<(nat, Seq<char>)>>, k: nat, n: nat)
    requires
        k <= n <= captures.len(),
    ensures
        var_decls(captures, k).len() <= var_decls(captures, n).len(),
        forall|j: int| 0 <= j < var_decls(captures, k).len() ==> #[trigger] var_decls(captures, k)[j]
            == var_decls(captures, n)[j],
    decreases n - k,
{
    if k < n {
        lemma_var_decls_prefix(captures, k, (n - 1) as nat);
    }
}

// ----------------------------------------------------------------------------
// missing-semicolon
// ----------------------------------------------------------------------------

/// A keyword that starts a line needing no semicolon.
pub const STATEMENT_KEYWORD: &'static str =
    r"(?i)\b(Macro|Class|If|Else|Elif|For|While|With|Return|Import|Const|Var|Private|Local)\b";

/// Opening minus closing parentheses on a cleaned line; blank lines count
/// nothing.
pub open spec fn paren_delta(code: Seq<char>) -> int {
    if trim(code).len() == 0 {
        0
    } else {
        count_char(code, '(') as int - count_char(code, ')') as int
    }
}

/// The parenthesis depth after the first `k` cleaned lines.
pub open spec fn paren_depth(code: Seq<Seq<char>>, k: nat) -> int
    decreases k,
{
    if k == 0 || k > code.len() {
        0
    } else {
        paren_depth(code, (k - 1) as nat) + paren_delta(code[k - 1])
    }
}

/// Parenthesis counts and depths fit in `i32`.
pub open spec fn parens_fit(code: Seq<Seq<char>>) -> bool {
    &&& forall|i: int| 0 <= i < code.len() ==> #[trigger] count_char(code[i], '(') <= i32::MAX
    &&& forall|i: int| 0 <= i < code.len() ==> #[trigger] count_char(code[i], ')') <= i32::MAX
    &&& forall|k: nat| k <= code.len() ==> i32::MIN <= #[trigger] paren_depth(code, k) <= i32::MAX
}

/// A trimmed line that ends with `;`, `{`, `}` or `,`.
pub open spec fn ends_specially(t: Seq<char>) -> bool {
    ends_with_char(t, ';') || ends_with_char(t, '{') || ends_with_char(t, '}') || ends_with_char(
        t,
        ',',
    )
}

/// The finding of the missing-semicolon rule for line `i`, if any:
/// `keywords[i]` tells whether the trimmed cleaned line holds a keyword.
pub open spec fn semicolon_at(
    file: PathBuf,
    ls: Seq<Seq<char>>,
    code: Seq<Seq<char>>,
    keywords: Seq<bool>,
    i: int,
) -> Seq<DiagnosticView> {
    let t = trim(code[i]);
    let open_before = paren_depth(code, i as nat);
    let open_after = paren_depth(code, (i + 1) as nat);
    let in_condition = open_after > 0 || (open_before > 0 && ends_with_char(t, ')'));
    if t.len() > 0 && !ends_specially(t) && !keywords[i] && !in_condition {
        seq![
            diag(
                Severity::Warning,
                "Отсутствует точка с запятой."@,
                file,
                (i + 1) as nat,
                byte_len(ls[i]) + 1,
                "missing-semicolon"@,
                Some(ls[i] + ";"@),
            ),
        ]
    } else {
        seq![]
    }
}

/// Findings of the missing-semicolon rule on the first `k` lines.
pub open spec fn semicolon_diags(
    file: PathBuf,
    ls: Seq<Seq<char>>,
    code: Seq<Seq<char>>,
    keywords: Seq<bool>,
    k: nat,
) -> Seq<DiagnosticView>
    decreases k,
{
    if k == 0 {
        seq![]
    } else {
        semicolon_diags(file, ls, code, keywords, (k - 1) as nat) + semicolon_at(
            file,
            ls,
            code,
            keywords,
            k - 1,
        )
    }
}

/// Whether each trimmed cleaned line holds a statement keyword.
pub open spec fn statement_keywords(ls: Seq<Seq<char>>) -> Seq<bool> {
    Seq::new(ls.len(), |i: int| has_match(STATEMENT_KEYWORD@, trim(cleaned(ls, i))))
}

/// Reports lines that end without `;` (nor `{`, `}`, `,`), are not keyword
/// lines, and are not inside an open parenthesis, given the lines, their
/// cleaned forms, and whether each trimmed cleaned line holds a keyword.
/// The fix appends `;` to the line.
pub fn missing_semicolon_from_matches(
    file: &PathBuf,
    lines: &[&str],
    code: &[String],
    keywords: &[bool],
) -> (r: Vec<Diagnostic>)
    requires
        lines@.len() == code@.len() == keywords@.len(),
        lines_fit(views_of_strs(lines@)),
        parens_fit(views_of_strings(code@)),
    ensures
        diag_views(r@) == semicolon_diags(
            *file,
            views_of_strs(lines@),
            views_of_strings(code@),
            keywords@,
            lines@.len() as nat,
        ),
{
    let ghost ls = views_of_strs(lines@);
    let ghost cs = views_of_strings(code@);
    let mut diagnostics: Vec<Diagnostic> = Vec::new();
    let mut open_parens: i32 = 0;
    let mut i: usize = 0;
    while i < lines.len()
        invariant
            i <= lines@.len() == code@.len() == keywords@.len(),
            ls == views_of_strs(lines@),
            cs == views_of_strings(code@),
            lines_fit(ls),
            parens_fit(cs),
            open_parens == paren_depth(cs, i as nat),
            diag_views(diagnostics@) == semicolon_diags(*file, ls, cs, keywords@, i as nat),
        decreases lines.len() - i,
    {
        assert(cs[i as int] == code@[i as int]@);
        assert(ls[i as int] == lines@[i as int]@);
        let v = chars_of(code[i].as_str());
        let (lo, hi) = trim_bounds(&v);
        let ghost t = trim(cs[i as int]);
        assert(paren_depth(cs, (i + 1) as nat) == paren_depth(cs, i as nat) + paren_delta(
            cs[i as int],
        ));
        assert(i32::MIN <= paren_depth(cs, (i + 1) as nat) <= i32::MAX);
        if lo < hi {
            let opened = count_char_in(&v, 0, v.len(), '(');
            let closed = count_char_in(&v, 0, v.len(), ')');
            assert(v@.subrange(0, v@.len() as int) =~= v@);
            assert(count_char(cs[i as int], '(') <= i32::MAX);
            assert(count_char(cs[i as int], ')') <= i32::MAX);
            let opened_in_line = opened as i32;
            let closed_in_line = closed as i32;
            let prev_open_parens = open_parens;
            open_parens = open_parens + (opened_in_line - closed_in_line);
            let last = v[hi - 1];
            assert(t.last() == last);
            let ends_with_special = last == ';' || last == '{' || last == '}' || last == ',';
            let is_keyword_start = keywords[i];
            let in_multiline_condition = open_parens > 0 || (prev_open_parens > 0 && last == ')');
            if !ends_with_special && !is_keyword_start && !in_multiline_condition {
                let line_bytes = text_byte_len(lines[i]);
                let mut fixed = to_owned_string(lines[i]);
                fixed.append(";");
                let d = make_diagnostic(
                    Severity::Warning,
                    String::from_str("Отсутствует точка с запятой."),
                    file,
                    i + 1,
                    line_bytes + 1,
                    String::from_str("missing-semicolon"),
                    Some(fixed),
                );
                proof {
                    lemma_diag_views_push(diagnostics@, d);
                }
                diagnostics.push(d);
            }
        }
        i = i + 1;
    }
    diagnostics
}

/// Number of bytes of the UTF-8 encoding of a line.
fn text_byte_len(s: &str) -> (r: usize)
    requires
        byte_len(s@) <= usize::MAX,
    ensures
        r == byte_len(s@),
{
    let v = chars_of(s);
    assert(v@.take(v@.len() as int) =~= v@);
    byte_len_prefix(&v, v.len())
}

/// Reports statement lines that lack a terminating semicolon, on the cleaned
/// lines; lines inside an open parenthesis and keyword lines are exempt.
pub fn check_missing_semicolon(file: &PathBuf, lines: &[&str]) -> (r: Vec<Diagnostic>)
    requires
        lines_fit(views_of_strs(lines@)),
        parens_fit(cleaned_lines(views_of_strs(lines@))),
    ensures
        diag_views(r@) == semicolon_diags(
            *file,
            views_of_strs(lines@),
            cleaned_lines(views_of_strs(lines@)),
            statement_keywords(views_of_strs(lines@)),
            lines@.len() as nat,
        ),
{
    let ghost ls = views_of_strs(lines@);
    proof {
        assert forall|i: int| 0 <= i < lines@.len() implies #[trigger] byte_len(lines@[i]@)
            <= usize::MAX by {
            assert(ls[i] == lines@[i]@);
        }
    }
    let clean = clean_all(lines);
    assert(views_of_strings(clean@).len() == clean@.len());
    let skip_re = compile(STATEMENT_KEYWORD);
    let mut keywords: Vec<bool> = Vec::new();
    let mut i: usize = 0;
    while i < clean.len()
        invariant
            i <= clean@.len() == ls.len(),
            views_of_strings(clean@) == cleaned_lines(ls),
            compiled_from(skip_re, STATEMENT_KEYWORD@),
            keywords@ == statement_keywords(ls).take(i as int),
        decreases clean.len() - i,
    {
        assert(views_of_strings(clean@)[i as int] == clean@[i as int]@);
        let v = chars_of(clean[i].as_str());
        let (lo, hi) = trim_bounds(&v);
        let trimmed = string_from_chars(&v, lo, hi);
        let k = is_match(&skip_re, Ghost(STATEMENT_KEYWORD@), trimmed.as_str());
        keywords.push(k);
        assert(keywords@ =~= statement_keywords(ls).take(i + 1));
        i = i + 1;
    }
    assert(statement_keywords(ls).take(ls.len() as int) =~= statement_keywords(ls));
    missing_semicolon_from_matches(file, lines, clean.as_slice(), keywords.as_slice())
}

// ----------------------------------------------------------------------------
// What each rule finds in a file
// ----------------------------------------------------------------------------

/// Findings of the block-balance rule on lines `ls`.
pub open spec fn missing_end_findings(file: PathBuf, ls: Seq<Seq<char>>) -> Seq<DiagnosticView> {
    missing_end_spec(file, block_starts(ls), block_ends(ls))
}

/// Findings of the unclosed-string rule on lines `ls`.
pub open spec fn unclosed_string_findings(file: PathBuf, ls: Seq<Seq<char>>) -> Seq<DiagnosticView> {
    unclosed_string_diags(file, ls, ls.len())
}

/// Findings of the missing-semicolon rule on lines `ls`.
pub open spec fn missing_semicolon_findings(file: PathBuf, ls: Seq<Seq<char>>) -> Seq<
    DiagnosticView,
> {
    semicolon_diags(file, ls, cleaned_lines(ls), statement_keywords(ls), ls.len())
}

/// Findings of the single-equals rule on lines `ls`.
pub open spec fn single_equals_findings(file: PathBuf, ls: Seq<Seq<char>>) -> Seq<DiagnosticView> {
    single_equals_spec(file, cleaned_lines(ls), condition_triggers(ls), single_equals_flags(ls))
}

/// Findings of the deprecated-word rule on lines `ls`.
pub open spec fn deprecated_findings(file: PathBuf, ls: Seq<Seq<char>>, fix: bool) -> Seq<
    DiagnosticView,
> {
    deprecated_diags(
        file,
        ls,
        fix,
        first_offsets(RECORD_WORD@, ls),
        first_offsets(ARRAY_WORD@, ls),
        ls.len(),
    )
}

/// Findings of the unused-variable rule on lines `ls`.
pub open spec fn unused_variable_findings(file: PathBuf, ls: Seq<Seq<char>>) -> Seq<DiagnosticView> {
    unused_spec(file, declared_names(ls), rarely_used(ls))
}

/// Findings of the empty-block rule on lines `ls`.
pub open spec fn empty_block_findings(file: PathBuf, ls: Seq<Seq<char>>) -> Seq<DiagnosticView> {
    empty_blocks_spec(file, cleaned_lines(ls), block_opens(ls), block_ends(ls))
}

/// Findings of the trailing-whitespace rule on lines `ls`.
pub open spec fn trailing_ws_findings(file: PathBuf, ls: Seq<Seq<char>>, fix: bool) -> Seq<
    DiagnosticView,
> {
    trailing_ws_diags(file, ls, fix, ls.len())
}

/// Findings of the empty-whitespace-line rule on lines `ls`.
pub open spec fn blank_line_findings(file: PathBuf, ls: Seq<Seq<char>>, fix: bool) -> Seq<
    DiagnosticView,
> {
    blank_line_diags(file, ls, fix, ls.len())
}

} // verus!
