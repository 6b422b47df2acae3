//! Properties that hold of the linter as a whole.

use crate::linter::{lint_spec, DiagnosticView};
use crate::rules::{
    blank_line_at, blank_line_diags, block_ends, block_opens, block_starts, block_state,
    condition_triggers, declared_names, deprecated_at, deprecated_diags, empty_block_state,
    empty_blocks_spec, first_offsets, missing_end_spec, rarely_used, semicolon_at,
    semicolon_diags, single_equals_flags, single_equals_lines, single_equals_spec,
    deprecated_diag, deprecated_findings, missing_end_findings, unclosed_string_findings,
    missing_semicolon_findings, single_equals_findings, unused_variable_findings,
    empty_block_findings, trailing_ws_findings, blank_line_findings, orphan_diag,
    unclosed_block_diag,
    statement_keywords, trailing_ws_at, trailing_ws_diags, unclosed_string_diags, unused_diags,
    unused_spec, var_decls, ARRAY_WORD, RECORD_WORD,
};
use crate::cleaner::{clean_chars, clean_line, cleaned_lines, pad_to};
use crate::text::{
    all_ws, byte_len, lemma_byte_len_append, lemma_byte_len_bounds, lemma_byte_len_prefix,
    lemma_trim_end_all_ws, lemma_trim_end_prefix, lemma_trim_end_removed_ws, spaces, trim_end,
};
use std::path::PathBuf;
use vstd::prelude::*;

verus! {

/// A finding names `file`, points at one of its `n` lines, and carries a fix
/// with fixes off only if it is a missing-semicolon finding.
pub open spec fn placed(d: DiagnosticView, file: PathBuf, n: nat, fix: bool) -> bool {
    &&& d.file == file
    &&& 1 <= d.line <= n
    &&& (!fix && d.fix is Some ==> d.rule == "missing-semicolon"@)
}

/// Every finding of `ds` is placed.
pub open spec fn all_placed(ds: Seq<DiagnosticView>, file: PathBuf, n: nat, fix: bool) -> bool {
    forall|j: int| 0 <= j < ds.len() ==> #[trigger] placed(ds[j], file, n, fix)
}

proof fn lemma_placed_append(
    a: Seq<DiagnosticView>,
    b: Seq<DiagnosticView>,
    file: PathBuf,
    n: nat,
    fix: bool,
)
    requires
        all_placed(a, file, n, fix),
        all_placed(b, file, n, fix),
    ensures
        all_placed(a + b, file, n, fix),
{
    assert forall|j: int| 0 <= j < (a + b).len() implies #[trigger] placed((a + b)[j], file, n, fix) by {
        if j < a.len() {
            assert((a + b)[j] == a[j]);
        } else {
            assert((a + b)[j] == b[j - a.len()]);
        }
    }
}

proof fn lemma_placed_unclosed(file: PathBuf, ls: Seq<Seq<char>>, fix: bool, k: nat)
    requires
        k <= ls.len(),
    ensures
        all_placed(unclosed_string_diags(file, ls, k), file, ls.len(), fix),
    decreases k,
{
    if k > 0 {
        lemma_placed_unclosed(file, ls, fix, (k - 1) as nat);
    }
}

proof fn lemma_placed_trailing(file: PathBuf, ls: Seq<Seq<char>>, fix: bool, k: nat)
    requires
        k <= ls.len(),
    ensures
        all_placed(trailing_ws_diags(file, ls, fix, k), file, ls.len(), fix),
    decreases k,
{
    if k > 0 {
        lemma_placed_trailing(file, ls, fix, (k - 1) as nat);
        lemma_placed_append(
            trailing_ws_diags(file, ls, fix, (k - 1) as nat),
            trailing_ws_at(file, ls, fix, k - 1),
            file,
            ls.len(),
            fix,
        );
    }
}

proof fn lemma_placed_blank(file: PathBuf, ls: Seq<Seq<char>>, fix: bool, k: nat)
    requires
        k <= ls.len(),
    ensures
        all_placed(blank_line_diags(file, ls, fix, k), file, ls.len(), fix),
    decreases k,
{
    if k > 0 {
        lemma_placed_blank(file, ls, fix, (k - 1) as nat);
        lemma_placed_append(
            blank_line_diags(file, ls, fix, (k - 1) as nat),
            blank_line_at(file, ls, fix, k - 1),
            file,
            ls.len(),
            fix,
        );
    }
}

proof fn lemma_placed_deprecated(
    file: PathBuf,
    ls: Seq<Seq<char>>,
    fix: bool,
    records: Seq<Option<nat>>,
    arrays: Seq<Option<nat>>,
    k: nat,
)
    requires
        k <= ls.len(),
    ensures
        all_placed(deprecated_diags(file, ls, fix, records, arrays, k), file, ls.len(), fix),
    decreases k,
{
    if k > 0 {
        lemma_placed_deprecated(file, ls, fix, records, arrays, (k - 1) as nat);
        lemma_placed_append(
            deprecated_diags(file, ls, fix, records, arrays, (k - 1) as nat),
            deprecated_at(file, ls, fix, records, arrays, k - 1),
            file,
            ls.len(),
            fix,
        );
    }
}

proof fn lemma_placed_semicolon(
    file: PathBuf,
    ls: Seq<Seq<char>>,
    code: Seq<Seq<char>>,
    keywords: Seq<bool>,
    fix: bool,
    k: nat,
)
    requires
        k <= ls.len(),
    ensures
        all_placed(semicolon_diags(file, ls, code, keywords, k), file, ls.len(), fix),
    decreases k,
{
    if k > 0 {
        lemma_placed_semicolon(file, ls, code, keywords, fix, (k - 1) as nat);
        lemma_placed_append(
            semicolon_diags(file, ls, code, keywords, (k - 1) as nat),
            semicolon_at(file, ls, code, keywords, k - 1),
            file,
            ls.len(),
            fix,
        );
    }
}

proof fn lemma_single_equals_lines_range(
    code: Seq<Seq<char>>,
    triggers: Seq<bool>,
    bad: Seq<bool>,
    k: nat,
)
    ensures
        forall|j: int|
            0 <= j < single_equals_lines(code, triggers, bad, k).len() ==> 1 <= #[trigger] single_equals_lines(
                code,
                triggers,
                bad,
                k,
            )[j] <= k,
    decreases k,
{
    if k > 0 {
        lemma_single_equals_lines_range(code, triggers, bad, (k - 1) as nat);
        let prev = single_equals_lines(code, triggers, bad, (k - 1) as nat);
        let cur = single_equals_lines(code, triggers, bad, k);
        assert forall|j: int| 0 <= j < cur.len() implies 1 <= #[trigger] cur[j] <= k by {
            if j < prev.len() {
                assert(cur[j] == prev[j]);
            }
        }
    }
}

proof fn lemma_block_state_range(starts: Seq<Option<Seq<char>>>, ends: Seq<bool>, k: nat)
    ensures
        forall|j: int|
            0 <= j < block_state(starts, ends, k).0.len() ==> 1 <= #[trigger] block_state(
                starts,
                ends,
                k,
            ).0[j] <= k,
        forall|j: int|
            0 <= j < block_state(starts, ends, k).1.len() ==> 1 <= #[trigger] block_state(
                starts,
                ends,
                k,
            ).1[j].1 <= k,
    decreases k,
{
    if k > 0 {
        lemma_block_state_range(starts, ends, (k - 1) as nat);
        let prev = block_state(starts, ends, (k - 1) as nat);
        let cur = block_state(starts, ends, k);
        assert forall|j: int| 0 <= j < cur.0.len() implies 1 <= #[trigger] cur.0[j] <= k by {
            if j < prev.0.len() {
                assert(cur.0[j] == prev.0[j]);
            }
        }
        assert forall|j: int| 0 <= j < cur.1.len() implies 1 <= #[trigger] cur.1[j].1 <= k by {
            if j < prev.1.len() {
                assert(cur.1[j] == prev.1[j]);
            }
        }
    }
}

proof fn lemma_empty_block_state_range(
    code: Seq<Seq<char>>,
    starts: Seq<bool>,
    ends: Seq<bool>,
    k: nat,
)
    ensures
        forall|j: int|
            0 <= j < empty_block_state(code, starts, ends, k).0.len() ==> 1
                <= #[trigger] empty_block_state(code, starts, ends, k).0[j] <= k,
        empty_block_state(code, starts, ends, k).1 matches Some(l) ==> 1 <= l <= k,
    decreases k,
{
    if k > 0 {
        lemma_empty_block_state_range(code, starts, ends, (k - 1) as nat);
    }
}

proof fn lemma_var_decls_range(captures: Seq<Option<(nat, Seq<char>)>>, k: nat)
    ensures
        forall|j: int|
            0 <= j < var_decls(captures, k).len() ==> 1 <= #[trigger] var_decls(captures, k)[j].1
                <= k,
    decreases k,
{
    if k > 0 && k <= captures.len() {
        lemma_var_decls_range(captures, (k - 1) as nat);
        let prev = var_decls(captures, (k - 1) as nat);
        let cur = var_decls(captures, k);
        assert forall|j: int| 0 <= j < cur.len() implies 1 <= #[trigger] cur[j].1 <= k by {
            if j < prev.len() {
                assert(cur[j] == prev[j]);
            }
        }
    }
}

proof fn lemma_placed_unused(
    file: PathBuf,
    decls: Seq<(Seq<char>, nat, nat)>,
    rare: Seq<bool>,
    n: nat,
    fix: bool,
    j: nat,
)
    requires
        j <= decls.len(),
        forall|i: int| 0 <= i < decls.len() ==> 1 <= #[trigger] decls[i].1 <= n,
    ensures
        all_placed(unused_diags(file, decls, rare, j), file, n, fix),
    decreases j,
{
    if j > 0 {
        lemma_placed_unused(file, decls, rare, n, fix, (j - 1) as nat);
        assert(1 <= decls[j - 1].1 <= n);
    }
}

/// Every finding of the linter names the file that was linted and one of its
/// lines; and with fixes turned off, the only findings that still carry a fix
/// are missing-semicolon findings.
pub proof fn law_findings_stay_in_file(
    ignored: Seq<Seq<char>>,
    file: PathBuf,
    ls: Seq<Seq<char>>,
    fix: bool,
)
    ensures
        forall|j: int|
            0 <= j < lint_spec(ignored, file, ls, fix).len() ==> {
                let d = #[trigger] lint_spec(ignored, file, ls, fix)[j];
                d.file == file && 1 <= d.line <= ls.len()
            },
        !fix ==> forall|j: int|
            0 <= j < lint_spec(ignored, file, ls, fix).len() ==> (#[trigger] lint_spec(
                ignored,
                file,
                ls,
                fix,
            )[j].fix is Some ==> lint_spec(ignored, file, ls, fix)[j].rule
                == "missing-semicolon"@),
{
    let n = ls.len();
    let none = Seq::<DiagnosticView>::empty();
    // missing-end
    let starts = block_starts(ls);
    let ends = block_ends(ls);
    lemma_block_state_range(starts, ends, starts.len());
    let st = block_state(starts, ends, starts.len());
    let me = missing_end_spec(file, starts, ends);
    assert(all_placed(me, file, n, fix)) by {
        assert forall|j: int| 0 <= j < me.len() implies #[trigger] placed(me[j], file, n, fix) by {
            if j < st.0.len() {
                assert(1 <= st.0[j] <= n);
            } else {
                assert(1 <= st.1[j - st.0.len()].1 <= n);
            }
        }
    }
    // unclosed-string
    lemma_placed_unclosed(file, ls, fix, n);
    // missing-semicolon
    lemma_placed_semicolon(file, ls, cleaned_lines(ls), statement_keywords(ls), fix, n);
    // single-equals
    let code = cleaned_lines(ls);
    lemma_single_equals_lines_range(code, condition_triggers(ls), single_equals_flags(ls), n);
    let se = single_equals_spec(file, code, condition_triggers(ls), single_equals_flags(ls));
    assert(all_placed(se, file, n, fix)) by {
        assert forall|j: int| 0 <= j < se.len() implies #[trigger] placed(se[j], file, n, fix) by {
            assert(1 <= single_equals_lines(
                code,
                condition_triggers(ls),
                single_equals_flags(ls),
                n,
            )[j] <= n);
        }
    }
    // deprecated
    lemma_placed_deprecated(
        file,
        ls,
        fix,
        first_offsets(RECORD_WORD@, ls),
        first_offsets(ARRAY_WORD@, ls),
        n,
    );
    // unused-variable
    let decls = var_decls(declared_names(ls), ls.len());
    lemma_var_decls_range(declared_names(ls), ls.len());
    lemma_placed_unused(file, decls, rarely_used(ls), n, fix, decls.len());
    // empty-block
    lemma_empty_block_state_range(code, block_opens(ls), block_ends(ls), n);
    let eb = empty_blocks_spec(file, code, block_opens(ls), block_ends(ls));
    assert(all_placed(eb, file, n, fix)) by {
        assert forall|j: int| 0 <= j < eb.len() implies #[trigger] placed(eb[j], file, n, fix) by {
            assert(1 <= empty_block_state(code, block_opens(ls), block_ends(ls), n).0[j] <= n);
        }
    }
    // trailing and blank
    lemma_placed_trailing(file, ls, fix, n);
    lemma_placed_blank(file, ls, fix, n);
    assert(all_placed(none, file, n, fix));
    let p1 = if !ignored.contains("missing-end"@) { me } else { none };
    let p2 = if !ignored.contains("unclosed-string"@) {
        unclosed_string_diags(file, ls, n)
    } else {
        none
    };
    let p3 = if !ignored.contains("missing-semicolon"@) {
        semicolon_diags(file, ls, code, statement_keywords(ls), n)
    } else {
        none
    };
    let p4 = if !ignored.contains("single-equals-in-condition"@) { se } else { none };
    let p5 = if !ignored.contains("deprecated-record"@) || !ignored.contains("deprecated-array"@) {
        deprecated_diags(
            file,
            ls,
            fix,
            first_offsets(RECORD_WORD@, ls),
            first_offsets(ARRAY_WORD@, ls),
            n,
        )
    } else {
        none
    };
    let p6 = if !ignored.contains("unused-variable"@) {
        unused_spec(file, declared_names(ls), rarely_used(ls))
    } else {
        none
    };
    let p7 = if !ignored.contains("empty-block"@) { eb } else { none };
    let p8 = if !ignored.contains("trailing-whitespace"@) {
        trailing_ws_diags(file, ls, fix, n)
    } else {
        none
    };
    let p9 = if !ignored.contains("empty-whitespace-line"@) {
        blank_line_diags(file, ls, fix, n)
    } else {
        none
    };
    lemma_placed_append(p1, p2, file, n, fix);
    lemma_placed_append(p1 + p2, p3, file, n, fix);
    lemma_placed_append(p1 + p2 + p3, p4, file, n, fix);
    lemma_placed_append(p1 + p2 + p3 + p4, p5, file, n, fix);
    lemma_placed_append(p1 + p2 + p3 + p4 + p5, p6, file, n, fix);
    lemma_placed_append(p1 + p2 + p3 + p4 + p5 + p6, p7, file, n, fix);
    lemma_placed_append(p1 + p2 + p3 + p4 + p5 + p6 + p7, p8, file, n, fix);
    lemma_placed_append(p1 + p2 + p3 + p4 + p5 + p6 + p7 + p8, p9, file, n, fix);
    let all = p1 + p2 + p3 + p4 + p5 + p6 + p7 + p8 + p9;
    assert(lint_spec(ignored, file, ls, fix) == all);
    assert forall|j: int| 0 <= j < lint_spec(ignored, file, ls, fix).len() implies {
        let d = #[trigger] lint_spec(ignored, file, ls, fix)[j];
        d.file == file && 1 <= d.line <= ls.len()
    } by {
        assert(placed(all[j], file, n, fix));
    }
    assert forall|j: int| 0 <= j < lint_spec(ignored, file, ls, fix).len() implies (!fix ==> ((
    #[trigger] lint_spec(ignored, file, ls, fix)[j]).fix is Some ==> lint_spec(
        ignored,
        file,
        ls,
        fix,
    )[j].rule == "missing-semicolon"@)) by {
        assert(placed(all[j], file, n, fix));
    }
}

/// A line made only of white space draws a trailing-whitespace finding too:
/// on the same line, at column 1, with the same fix as its
/// empty-whitespace-line finding.
pub proof fn law_blank_line_is_trailing_whitespace(
    file: PathBuf,
    ls: Seq<Seq<char>>,
    fix: bool,
    i: int,
)
    requires
        0 <= i < ls.len(),
        blank_line_at(file, ls, fix, i).len() > 0,
    ensures
        trailing_ws_at(file, ls, fix, i).len() == 1,
        trailing_ws_at(file, ls, fix, i)[0].line == blank_line_at(file, ls, fix, i)[0].line,
        trailing_ws_at(file, ls, fix, i)[0].column == 1,
        trailing_ws_at(file, ls, fix, i)[0].fix == blank_line_at(file, ls, fix, i)[0].fix,
{
    let line = ls[i];
    lemma_trim_end_all_ws(line);
    lemma_trim_end_prefix(line);
    lemma_byte_len_bounds(line);
    assert(trim_end(line) =~= Seq::<char>::empty());
    assert(byte_len(trim_end(line)) == 0);
}

/// `trim_end` removes everything there is to remove.
proof fn lemma_trim_end_idempotent(s: Seq<char>)
    ensures
        trim_end(trim_end(s)) == trim_end(s),
{
    lemma_trim_end_removed_ws(s);
}

/// A line replaced by its trailing-whitespace fix draws no further
/// trailing-whitespace finding.
pub proof fn law_trailing_fix_settles(file: PathBuf, ls: Seq<Seq<char>>, fix: bool, i: int)
    requires
        0 <= i < ls.len(),
    ensures
        trailing_ws_at(file, ls.update(i, trim_end(ls[i])), fix, i).len() == 0,
        fix && trailing_ws_at(file, ls, fix, i).len() > 0 ==> trailing_ws_at(file, ls, fix, i)[0].fix
            == Some(trim_end(ls[i])),
{
    lemma_trim_end_idempotent(ls[i]);
}

/// With every rule ignored, the linter reports nothing.
pub proof fn law_all_rules_ignored(ignored: Seq<Seq<char>>, file: PathBuf, ls: Seq<Seq<char>>, fix: bool)
    requires
        ignored.contains("missing-end"@),
        ignored.contains("unclosed-string"@),
        ignored.contains("missing-semicolon"@),
        ignored.contains("single-equals-in-condition"@),
        ignored.contains("deprecated-record"@),
        ignored.contains("deprecated-array"@),
        ignored.contains("unused-variable"@),
        ignored.contains("empty-block"@),
        ignored.contains("trailing-whitespace"@),
        ignored.contains("empty-whitespace-line"@),
    ensures
        lint_spec(ignored, file, ls, fix).len() == 0,
{
}

/// `clean_chars` leaves text without quotes and slashes unchanged.
proof fn lemma_clean_chars_plain(s: Seq<char>)
    requires
        !s.contains('"'),
        !s.contains('/'),
    ensures
        clean_chars(s, false, false) == (s, false),
    decreases s.len(),
{
    if s.len() > 0 {
        assert(s[0] != '"' && s[0] != '/') by {
            if s[0] == '"' || s[0] == '/' {
                assert(s.contains(s[0]));
            }
        }
        let rest = s.skip(1);
        assert forall|c: char| c == '"' || c == '/' implies !rest.contains(c) by {
            if rest.contains(c) {
                let k = choose|k: int| 0 <= k < rest.len() && rest[k] == c;
                assert(s[k + 1] == c);
            }
        }
        lemma_clean_chars_plain(rest);
        assert(seq![s[0]] + rest =~= s);
    }
}

/// Outside a block comment, a line with no quote and no slash holds neither
/// comments nor strings, and cleaning leaves it as it is.
pub proof fn law_plain_code_unchanged(line: Seq<char>)
    requires
        !line.contains('"'),
        !line.contains('/'),
    ensures
        clean_line(line, false) == (line, false),
{
    lemma_clean_chars_plain(line);
}

/// Spaces come out of the cleaner as they went in, inside a string literal
/// or not.
proof fn lemma_clean_spaces(k: nat, in_string: bool)
    ensures
        clean_chars(spaces(k), false, in_string) == (spaces(k), false),
    decreases k,
{
    if k > 0 {
        lemma_clean_spaces((k - 1) as nat, in_string);
        assert(spaces(k).skip(1) =~= spaces((k - 1) as nat));
        assert(seq![' '] + spaces((k - 1) as nat) =~= spaces(k));
    }
}

/// Outside comments and strings, the cleaner keeps the first character of
/// text that does not start with `*` or `/`.
proof fn lemma_clean_chars_first(t: Seq<char>)
    requires
        t.len() > 0,
        t[0] != '*',
        t[0] != '/',
    ensures
        clean_chars(t, false, false).0.len() > 0,
        clean_chars(t, false, false).0[0] == t[0],
{
}

/// What the cleaner produces, followed by any number of spaces, comes out of
/// a second cleaning unchanged, the second cleaning starting outside comments
/// and in the string state that the first started in.
proof fn lemma_clean_chars_again(s: Seq<char>, in_comment: bool, in_string: bool, k: nat)
    requires
        in_comment ==> !in_string,
    ensures
        ({
            let out = clean_chars(s, in_comment, in_string).0 + spaces(k);
            clean_chars(out, false, in_string) == (out, false)
        }),
    decreases s.len(),
{
    let out = clean_chars(s, in_comment, in_string).0 + spaces(k);
    if s.len() == 0 {
        assert(out =~= spaces(k));
        lemma_clean_spaces(k, in_string);
    } else if in_comment {
        let skip = if s[0] == '*' && s.len() > 1 && s[1] == '/' { 2int } else { 1int };
        let ic = skip == 1;
        let r = clean_chars(s.skip(skip), ic, in_string);
        lemma_clean_chars_again(s.skip(skip), ic, in_string, k);
        assert(out =~= seq![' '] + (r.0 + spaces(k)));
        assert(out.skip(1) =~= r.0 + spaces(k));
    } else if !in_string && s[0] == '/' && s.len() > 1 && s[1] == '*' {
        let r = clean_chars(s.skip(2), true, in_string);
        lemma_clean_chars_again(s.skip(2), true, in_string, k);
        let tail = r.0 + spaces(k);
        assert(out =~= seq![' ', ' '] + tail);
        assert(out.skip(1) =~= seq![' '] + tail);
        assert(out.skip(1).skip(1) =~= tail);
        assert(clean_chars(out.skip(1), false, false) == (seq![' '] + tail, false));
    } else if !in_string && s[0] == '/' && s.len() > 1 && s[1] == '/' {
        assert(out =~= spaces(k));
        lemma_clean_spaces(k, in_string);
    } else if s[0] == '"' {
        let r = clean_chars(s.skip(1), false, !in_string);
        lemma_clean_chars_again(s.skip(1), false, !in_string, k);
        assert(out =~= seq!['"'] + (r.0 + spaces(k)));
        assert(out.skip(1) =~= r.0 + spaces(k));
    } else if in_string {
        let r = clean_chars(s.skip(1), false, true);
        lemma_clean_chars_again(s.skip(1), false, true, k);
        assert(out =~= seq![' '] + (r.0 + spaces(k)));
        assert(out.skip(1) =~= r.0 + spaces(k));
    } else {
        let r = clean_chars(s.skip(1), false, false);
        lemma_clean_chars_again(s.skip(1), false, false, k);
        let tail = r.0 + spaces(k);
        assert(out =~= seq![s[0]] + tail);
        assert(out.skip(1) =~= tail);
        if s[0] == '/' && tail.len() > 0 {
            if s.len() > 1 {
                lemma_clean_chars_first(s.skip(1));
                assert(tail[0] == r.0[0]);
            } else {
                assert(s.skip(1) =~= Seq::<char>::empty());
                assert(tail[0] == spaces(k)[0]);
            }
            assert(out[1] == tail[0]);
        }
    }
}

/// Cleaning a line that has already been cleaned changes nothing, and leaves
/// the cleaner outside any block comment.
pub proof fn law_clean_idempotent(line: Seq<char>, in_comment: bool)
    ensures
        clean_line(clean_line(line, in_comment).0, false) == (clean_line(line, in_comment).0, false),
{
    let r = clean_chars(line, in_comment, false);
    let once = clean_line(line, in_comment).0;
    let k: nat = if byte_len(r.0) < byte_len(line) {
        (byte_len(line) - byte_len(r.0)) as nat
    } else {
        0
    };
    assert(once =~= r.0 + spaces(k));
    lemma_clean_chars_again(line, in_comment, false, k);
    assert(pad_to(once, byte_len(once)) == once);
}

/// `a` and `b` are the same finding, but perhaps for their fixes.
pub open spec fn same_but_fix(a: DiagnosticView, b: DiagnosticView) -> bool {
    &&& a.severity == b.severity
    &&& a.message == b.message
    &&& a.file == b.file
    &&& a.line == b.line
    &&& a.column == b.column
    &&& a.rule == b.rule
}

/// `a` and `b` list the same findings in the same order, but perhaps for
/// their fixes.
pub open spec fn agree_but_fix(a: Seq<DiagnosticView>, b: Seq<DiagnosticView>) -> bool {
    &&& a.len() == b.len()
    &&& forall|j: int| 0 <= j < a.len() ==> #[trigger] same_but_fix(a[j], b[j])
}

proof fn lemma_agree_append(
    a1: Seq<DiagnosticView>,
    b1: Seq<DiagnosticView>,
    a2: Seq<DiagnosticView>,
    b2: Seq<DiagnosticView>,
)
    requires
        agree_but_fix(a1, b1),
        agree_but_fix(a2, b2),
    ensures
        agree_but_fix(a1 + a2, b1 + b2),
{
    assert forall|j: int| 0 <= j < (a1 + a2).len() implies #[trigger] same_but_fix(
        (a1 + a2)[j],
        (b1 + b2)[j],
    ) by {
        if j < a1.len() {
            assert(same_but_fix(a1[j], b1[j]));
        } else {
            assert(same_but_fix(a2[j - a1.len()], b2[j - a1.len()]));
        }
    }
}

proof fn lemma_agree_same(a: Seq<DiagnosticView>)
    ensures
        agree_but_fix(a, a),
{
    assert forall|j: int| 0 <= j < a.len() implies #[trigger] same_but_fix(a[j], a[j]) by {}
}

proof fn lemma_agree_trailing(file: PathBuf, ls: Seq<Seq<char>>, k: nat)
    ensures
        agree_but_fix(trailing_ws_diags(file, ls, true, k), trailing_ws_diags(file, ls, false, k)),
    decreases k,
{
    if k > 0 && k <= ls.len() {
        lemma_agree_trailing(file, ls, (k - 1) as nat);
        let a = trailing_ws_at(file, ls, true, k - 1);
        let b = trailing_ws_at(file, ls, false, k - 1);
        assert(agree_but_fix(a, b)) by {
            if a.len() > 0 {
                assert(same_but_fix(a[0], b[0]));
            }
        }
        lemma_agree_append(
            trailing_ws_diags(file, ls, true, (k - 1) as nat),
            trailing_ws_diags(file, ls, false, (k - 1) as nat),
            a,
            b,
        );
    }
}

proof fn lemma_agree_blank(file: PathBuf, ls: Seq<Seq<char>>, k: nat)
    ensures
        agree_but_fix(blank_line_diags(file, ls, true, k), blank_line_diags(file, ls, false, k)),
    decreases k,
{
    if k > 0 && k <= ls.len() {
        lemma_agree_blank(file, ls, (k - 1) as nat);
        let a = blank_line_at(file, ls, true, k - 1);
        let b = blank_line_at(file, ls, false, k - 1);
        assert(agree_but_fix(a, b)) by {
            if a.len() > 0 {
                assert(same_but_fix(a[0], b[0]));
            }
        }
        lemma_agree_append(
            blank_line_diags(file, ls, true, (k - 1) as nat),
            blank_line_diags(file, ls, false, (k - 1) as nat),
            a,
            b,
        );
    }
}

proof fn lemma_agree_deprecated(
    file: PathBuf,
    ls: Seq<Seq<char>>,
    records: Seq<Option<nat>>,
    arrays: Seq<Option<nat>>,
    k: nat,
)
    ensures
        agree_but_fix(
            deprecated_diags(file, ls, true, records, arrays, k),
            deprecated_diags(file, ls, false, records, arrays, k),
        ),
    decreases k,
{
    if k > 0 {
        lemma_agree_deprecated(file, ls, records, arrays, (k - 1) as nat);
        let i = k - 1;
        let r1 = if records[i] is Some {
            seq![deprecated_diag(file, (i + 1) as nat, records[i]->0 + 1, "record"@, "TRecHandler"@, true, ls[i])]
        } else {
            seq![]
        };
        let r0 = if records[i] is Some {
            seq![deprecated_diag(file, (i + 1) as nat, records[i]->0 + 1, "record"@, "TRecHandler"@, false, ls[i])]
        } else {
            seq![]
        };
        let a1 = if arrays[i] is Some {
            seq![deprecated_diag(file, (i + 1) as nat, arrays[i]->0 + 1, "array"@, "TArray"@, true, ls[i])]
        } else {
            seq![]
        };
        let a0 = if arrays[i] is Some {
            seq![deprecated_diag(file, (i + 1) as nat, arrays[i]->0 + 1, "array"@, "TArray"@, false, ls[i])]
        } else {
            seq![]
        };
        assert(agree_but_fix(r1, r0)) by {
            if r1.len() > 0 {
                assert(same_but_fix(r1[0], r0[0]));
            }
        }
        assert(agree_but_fix(a1, a0)) by {
            if a1.len() > 0 {
                assert(same_but_fix(a1[0], a0[0]));
            }
        }
        lemma_agree_append(r1, r0, a1, a0);
        assert(deprecated_at(file, ls, true, records, arrays, i) == r1 + a1);
        assert(deprecated_at(file, ls, false, records, arrays, i) == r0 + a0);
        lemma_agree_append(
            deprecated_diags(file, ls, true, records, arrays, (k - 1) as nat),
            deprecated_diags(file, ls, false, records, arrays, (k - 1) as nat),
            r1 + a1,
            r0 + a0,
        );
    }
}

/// Turning fixes on or off changes only the fixes: the linter reports the same
/// findings in the same order either way, and with fixes off only
/// missing-semicolon findings carry a fix.
pub proof fn law_fix_changes_only_fixes(ignored: Seq<Seq<char>>, file: PathBuf, ls: Seq<Seq<char>>)
    ensures
        agree_but_fix(lint_spec(ignored, file, ls, true), lint_spec(ignored, file, ls, false)),
        forall|j: int|
            0 <= j < lint_spec(ignored, file, ls, false).len() ==> (#[trigger] lint_spec(
                ignored,
                file,
                ls,
                false,
            )[j].fix is Some ==> lint_spec(ignored, file, ls, false)[j].rule
                == "missing-semicolon"@),
{
    law_findings_stay_in_file(ignored, file, ls, false);
    let none = Seq::<DiagnosticView>::empty();
    let p1 = if !ignored.contains("missing-end"@) { missing_end_findings(file, ls) } else { none };
    let p2 = if !ignored.contains("unclosed-string"@) { unclosed_string_findings(file, ls) } else { none };
    let p3 = if !ignored.contains("missing-semicolon"@) { missing_semicolon_findings(file, ls) } else { none };
    let p4 = if !ignored.contains("single-equals-in-condition"@) { single_equals_findings(file, ls) } else { none };
    let dep = !ignored.contains("deprecated-record"@) || !ignored.contains("deprecated-array"@);
    let p5t = if dep { deprecated_findings(file, ls, true) } else { none };
    let p5f = if dep { deprecated_findings(file, ls, false) } else { none };
    let p6 = if !ignored.contains("unused-variable"@) { unused_variable_findings(file, ls) } else { none };
    let p7 = if !ignored.contains("empty-block"@) { empty_block_findings(file, ls) } else { none };
    let p8t = if !ignored.contains("trailing-whitespace"@) { trailing_ws_findings(file, ls, true) } else { none };
    let p8f = if !ignored.contains("trailing-whitespace"@) { trailing_ws_findings(file, ls, false) } else { none };
    let p9t = if !ignored.contains("empty-whitespace-line"@) { blank_line_findings(file, ls, true) } else { none };
    let p9f = if !ignored.contains("empty-whitespace-line"@) { blank_line_findings(file, ls, false) } else { none };
    lemma_agree_same(p1);
    lemma_agree_same(p2);
    lemma_agree_same(p3);
    lemma_agree_same(p4);
    lemma_agree_same(p6);
    lemma_agree_same(p7);
    lemma_agree_same(none);
    lemma_agree_deprecated(file, ls, first_offsets(RECORD_WORD@, ls), first_offsets(ARRAY_WORD@, ls), ls.len());
    lemma_agree_trailing(file, ls, ls.len());
    lemma_agree_blank(file, ls, ls.len());
    lemma_agree_append(p1, p1, p2, p2);
    lemma_agree_append(p1 + p2, p1 + p2, p3, p3);
    lemma_agree_append(p1 + p2 + p3, p1 + p2 + p3, p4, p4);
    lemma_agree_append(p1 + p2 + p3 + p4, p1 + p2 + p3 + p4, p5t, p5f);
    lemma_agree_append(p1 + p2 + p3 + p4 + p5t, p1 + p2 + p3 + p4 + p5f, p6, p6);
    lemma_agree_append(p1 + p2 + p3 + p4 + p5t + p6, p1 + p2 + p3 + p4 + p5f + p6, p7, p7);
    lemma_agree_append(
        p1 + p2 + p3 + p4 + p5t + p6 + p7,
        p1 + p2 + p3 + p4 + p5f + p6 + p7,
        p8t,
        p8f,
    );
    lemma_agree_append(
        p1 + p2 + p3 + p4 + p5t + p6 + p7 + p8t,
        p1 + p2 + p3 + p4 + p5f + p6 + p7 + p8f,
        p9t,
        p9f,
    );
    assert(lint_spec(ignored, file, ls, true) == p1 + p2 + p3 + p4 + p5t + p6 + p7 + p8t + p9t);
    assert(lint_spec(ignored, file, ls, false) == p1 + p2 + p3 + p4 + p5f + p6 + p7 + p8f + p9f);
}

/// Every finding of `ds` comes from rule `a` or rule `b`.
#[verifier::opaque]
spec fn rules_among(ds: Seq<DiagnosticView>, a: Seq<char>, b: Seq<char>) -> bool {
    forall|j: int| 0 <= j < ds.len() ==> (#[trigger] ds[j]).rule == a || ds[j].rule == b
}

proof fn lemma_rules_append(x: Seq<DiagnosticView>, y: Seq<DiagnosticView>, a: Seq<char>, b: Seq<char>)
    requires
        rules_among(x, a, b),
        rules_among(y, a, b),
    ensures
        rules_among(x + y, a, b),
{
    reveal(rules_among);
    assert forall|j: int| 0 <= j < (x + y).len() implies (#[trigger] (x + y)[j]).rule == a || (x
        + y)[j].rule == b by {
        if j < x.len() {
            assert((x + y)[j] == x[j]);
        } else {
            assert((x + y)[j] == y[j - x.len()]);
        }
    }
}

proof fn lemma_rules_unclosed(file: PathBuf, ls: Seq<Seq<char>>, k: nat)
    ensures
        rules_among(unclosed_string_diags(file, ls, k), "unclosed-string"@, "unclosed-string"@),
    decreases k,
{
    reveal(rules_among);
    if k > 0 && k <= ls.len() {
        lemma_rules_unclosed(file, ls, (k - 1) as nat);
    }
}

proof fn lemma_rules_semicolon(
    file: PathBuf,
    ls: Seq<Seq<char>>,
    code: Seq<Seq<char>>,
    keywords: Seq<bool>,
    k: nat,
)
    ensures
        rules_among(
            semicolon_diags(file, ls, code, keywords, k),
            "missing-semicolon"@,
            "missing-semicolon"@,
        ),
    decreases k,
{
    reveal(rules_among);
    if k > 0 {
        lemma_rules_semicolon(file, ls, code, keywords, (k - 1) as nat);
        lemma_rules_append(
            semicolon_diags(file, ls, code, keywords, (k - 1) as nat),
            semicolon_at(file, ls, code, keywords, k - 1),
            "missing-semicolon"@,
            "missing-semicolon"@,
        );
    }
}

proof fn lemma_rules_deprecated(
    file: PathBuf,
    ls: Seq<Seq<char>>,
    fix: bool,
    records: Seq<Option<nat>>,
    arrays: Seq<Option<nat>>,
    k: nat,
)
    ensures
        rules_among(
            deprecated_diags(file, ls, fix, records, arrays, k),
            "deprecated-"@ + "record"@,
            "deprecated-"@ + "array"@,
        ),
    decreases k,
{
    reveal(rules_among);
    if k > 0 {
        lemma_rules_deprecated(file, ls, fix, records, arrays, (k - 1) as nat);
        lemma_rules_append(
            deprecated_diags(file, ls, fix, records, arrays, (k - 1) as nat),
            deprecated_at(file, ls, fix, records, arrays, k - 1),
            "deprecated-"@ + "record"@,
            "deprecated-"@ + "array"@,
        );
    }
}

proof fn lemma_rules_unused(file: PathBuf, decls: Seq<(Seq<char>, nat, nat)>, rare: Seq<bool>, j: nat)
    ensures
        rules_among(unused_diags(file, decls, rare, j), "unused-variable"@, "unused-variable"@),
    decreases j,
{
    reveal(rules_among);
    if j > 0 {
        lemma_rules_unused(file, decls, rare, (j - 1) as nat);
    }
}

proof fn lemma_rules_trailing(file: PathBuf, ls: Seq<Seq<char>>, fix: bool, k: nat)
    ensures
        rules_among(trailing_ws_diags(file, ls, fix, k), "trailing-whitespace"@, "trailing-whitespace"@),
    decreases k,
{
    reveal(rules_among);
    if k > 0 && k <= ls.len() {
        lemma_rules_trailing(file, ls, fix, (k - 1) as nat);
        lemma_rules_append(
            trailing_ws_diags(file, ls, fix, (k - 1) as nat),
            trailing_ws_at(file, ls, fix, k - 1),
            "trailing-whitespace"@,
            "trailing-whitespace"@,
        );
    }
}

proof fn lemma_rules_blank(file: PathBuf, ls: Seq<Seq<char>>, fix: bool, k: nat)
    ensures
        rules_among(blank_line_diags(file, ls, fix, k), "empty-whitespace-line"@, "empty-whitespace-line"@),
    decreases k,
{
    reveal(rules_among);
    if k > 0 && k <= ls.len() {
        lemma_rules_blank(file, ls, fix, (k - 1) as nat);
        lemma_rules_append(
            blank_line_diags(file, ls, fix, (k - 1) as nat),
            blank_line_at(file, ls, fix, k - 1),
            "empty-whitespace-line"@,
            "empty-whitespace-line"@,
        );
    }
}

/// The test that keeps the findings of every rule but `rule`.
pub open spec fn rule_is_not(rule: Seq<char>) -> spec_fn(DiagnosticView) -> bool {
    |d: DiagnosticView| d.rule != rule
}

/// `ds` without the findings of rule `rule`, the rest in their order.
pub open spec fn without_rule(ds: Seq<DiagnosticView>, rule: Seq<char>) -> Seq<DiagnosticView> {
    ds.filter(rule_is_not(rule))
}

proof fn lemma_without_rule_keeps(ds: Seq<DiagnosticView>, rule: Seq<char>)
    requires
        forall|j: int| 0 <= j < ds.len() ==> (#[trigger] ds[j]).rule != rule,
    ensures
        without_rule(ds, rule) == ds,
    decreases ds.len(),
{
    reveal(Seq::filter);
    if ds.len() > 0 {
        let rest = ds.drop_last();
        assert forall|j: int| 0 <= j < rest.len() implies (#[trigger] rest[j]).rule != rule by {
            assert(rest[j] == ds[j]);
        }
        lemma_without_rule_keeps(rest, rule);
        assert(ds.last().rule != rule);
        assert(rest.push(ds.last()) =~= ds);
    }
}

proof fn lemma_without_rule_drops(ds: Seq<DiagnosticView>, rule: Seq<char>)
    requires
        forall|j: int| 0 <= j < ds.len() ==> (#[trigger] ds[j]).rule == rule,
    ensures
        without_rule(ds, rule) == Seq::<DiagnosticView>::empty(),
    decreases ds.len(),
{
    reveal(Seq::filter);
    if ds.len() > 0 {
        let rest = ds.drop_last();
        assert forall|j: int| 0 <= j < rest.len() implies (#[trigger] rest[j]).rule == rule by {
            assert(rest[j] == ds[j]);
        }
        lemma_without_rule_drops(rest, rule);
        assert(ds.last().rule == rule);
    }
    assert(without_rule(ds, rule) =~= Seq::<DiagnosticView>::empty());
}

/// A part of the linter's output from rules `x` and `y`, which are not
/// `rule`, keeps all its findings when `rule`'s are taken out.
proof fn lemma_part_kept(ds: Seq<DiagnosticView>, x: Seq<char>, y: Seq<char>, rule: Seq<char>)
    requires
        rules_among(ds, x, y),
        x != rule,
        y != rule,
    ensures
        without_rule(ds, rule) == ds,
{
    reveal(rules_among);
    assert forall|j: int| 0 <= j < ds.len() implies (#[trigger] ds[j]).rule != rule by {
        assert(ds[j].rule == x || ds[j].rule == y);
    }
    lemma_without_rule_keeps(ds, rule);
}

proof fn lemma_push_contains(s: Seq<Seq<char>>, r: Seq<char>, x: Seq<char>)
    ensures
        s.push(r).contains(x) == (s.contains(x) || x == r),
{
    if s.contains(x) {
        let i = choose|i: int| 0 <= i < s.len() && s[i] == x;
        assert(s.push(r)[i] == x);
    }
    if x == r {
        assert(s.push(r)[s.len() as int] == x);
    }
    if s.push(r).contains(x) {
        let i = choose|i: int| 0 <= i < s.push(r).len() && s.push(r)[i] == x;
        if i < s.len() {
            assert(s[i] == x);
        }
    }
}

/// The rule names that an ignorable rule's name is not.
proof fn lemma_other_rule_names(rule: Seq<char>)
    requires
        rule == "unclosed-string"@ || rule == "missing-semicolon"@ || rule == "unused-variable"@
            || rule == "empty-block"@ || rule == "trailing-whitespace"@ || rule
            == "empty-whitespace-line"@,
    ensures
        rule != "missing-end"@,
        rule != "orphaned-end"@,
        rule != "single-equals"@,
        rule != "single-equals-in-condition"@,
        rule != "deprecated-record"@,
        rule != "deprecated-array"@,
        "deprecated-"@ + "record"@ == "deprecated-record"@,
        "deprecated-"@ + "array"@ == "deprecated-array"@,
{
    reveal_strlit("missing-end");
    reveal_strlit("orphaned-end");
    reveal_strlit("unclosed-string");
    reveal_strlit("missing-semicolon");
    reveal_strlit("single-equals");
    reveal_strlit("single-equals-in-condition");
    reveal_strlit("deprecated-");
    reveal_strlit("record");
    reveal_strlit("array");
    reveal_strlit("deprecated-record");
    reveal_strlit("deprecated-array");
    reveal_strlit("unused-variable");
    reveal_strlit("empty-block");
    reveal_strlit("trailing-whitespace");
    reveal_strlit("empty-whitespace-line");
    assert("missing-end"@.len() == 11 && "missing-end"@[0] == 'm');
    assert("orphaned-end"@.len() == 12);
    assert("unclosed-string"@.len() == 15);
    assert("missing-semicolon"@.len() == 17 && "missing-semicolon"@[0] == 'm');
    assert("single-equals"@.len() == 13);
    assert("single-equals-in-condition"@.len() == 26);
    assert("deprecated-record"@.len() == 17 && "deprecated-record"@[0] == 'd');
    assert("deprecated-array"@.len() == 16);
    assert("unused-variable"@.len() == 15);
    assert("empty-block"@.len() == 11 && "empty-block"@[0] == 'e');
    assert("trailing-whitespace"@.len() == 19);
    assert("empty-whitespace-line"@.len() == 21);
    assert("deprecated-"@ + "record"@ =~= "deprecated-record"@);
    assert("deprecated-"@ + "array"@ =~= "deprecated-array"@);
}

/// Which rules each part of the linter's output comes from.
proof fn lemma_part_rules(file: PathBuf, ls: Seq<Seq<char>>, fix: bool)
    ensures
        rules_among(missing_end_findings(file, ls), "orphaned-end"@, "missing-end"@),
        rules_among(unclosed_string_findings(file, ls), "unclosed-string"@, "unclosed-string"@),
        rules_among(missing_semicolon_findings(file, ls), "missing-semicolon"@, "missing-semicolon"@),
        rules_among(single_equals_findings(file, ls), "single-equals"@, "single-equals"@),
        rules_among(
            deprecated_findings(file, ls, fix),
            "deprecated-"@ + "record"@,
            "deprecated-"@ + "array"@,
        ),
        rules_among(unused_variable_findings(file, ls), "unused-variable"@, "unused-variable"@),
        rules_among(empty_block_findings(file, ls), "empty-block"@, "empty-block"@),
        rules_among(trailing_ws_findings(file, ls, fix), "trailing-whitespace"@, "trailing-whitespace"@),
        rules_among(
            blank_line_findings(file, ls, fix),
            "empty-whitespace-line"@,
            "empty-whitespace-line"@,
        ),
{
    reveal(rules_among);
    let f1 = missing_end_findings(file, ls);
    let starts = block_starts(ls);
    let ends = block_ends(ls);
    let st = block_state(starts, ends, starts.len());
    assert forall|j: int| 0 <= j < f1.len() implies (#[trigger] f1[j]).rule == "orphaned-end"@
        || f1[j].rule == "missing-end"@ by {
        if j < st.0.len() {
            assert(f1[j] == orphan_diag(file, st.0[j]));
        } else {
            let e = st.1[j - st.0.len()];
            assert(f1[j] == unclosed_block_diag(file, e.0, e.1));
        }
    }
    lemma_rules_unclosed(file, ls, ls.len());
    lemma_rules_semicolon(file, ls, cleaned_lines(ls), statement_keywords(ls), ls.len());
    lemma_rules_deprecated(
        file,
        ls,
        fix,
        first_offsets(RECORD_WORD@, ls),
        first_offsets(ARRAY_WORD@, ls),
        ls.len(),
    );
    let decls = var_decls(declared_names(ls), declared_names(ls).len());
    lemma_rules_unused(file, decls, rarely_used(ls), decls.len());
    lemma_rules_trailing(file, ls, fix, ls.len());
    lemma_rules_blank(file, ls, fix, ls.len());
}

/// Taking `rule`'s findings out of one part of the output, from rules `x` and
/// `y` and switched on by `before`, leaves the part switched on by `after`,
/// where `after` keeps the part on unless it is `rule`'s own.
proof fn lemma_part_switch(
    ds: Seq<DiagnosticView>,
    x: Seq<char>,
    y: Seq<char>,
    rule: Seq<char>,
    before: bool,
    after: bool,
)
    requires
        rules_among(ds, x, y),
        x == y || (x != rule && y != rule),
        after == (before && x != rule),
    ensures
        without_rule(if before { ds } else { Seq::empty() }, rule) == (if after {
            ds
        } else {
            Seq::empty()
        }),
{
    reveal(rules_among);
    lemma_without_rule_keeps(Seq::<DiagnosticView>::empty(), rule);
    if before {
        if x == rule {
            lemma_without_rule_drops(ds, rule);
        } else {
            lemma_part_kept(ds, x, y, rule);
        }
    }
}

/// The linter's output assembled from the nine rules' findings `f1` to `f9`,
/// in the order and under the switches of [`lint_spec`].
spec fn assemble(
    ignored: Seq<Seq<char>>,
    f1: Seq<DiagnosticView>,
    f2: Seq<DiagnosticView>,
    f3: Seq<DiagnosticView>,
    f4: Seq<DiagnosticView>,
    f5: Seq<DiagnosticView>,
    f6: Seq<DiagnosticView>,
    f7: Seq<DiagnosticView>,
    f8: Seq<DiagnosticView>,
    f9: Seq<DiagnosticView>,
) -> Seq<DiagnosticView> {
    let none = Seq::<DiagnosticView>::empty();
    (if !ignored.contains("missing-end"@) { f1 } else { none })
        + (if !ignored.contains("unclosed-string"@) { f2 } else { none })
        + (if !ignored.contains("missing-semicolon"@) { f3 } else { none })
        + (if !ignored.contains("single-equals-in-condition"@) { f4 } else { none })
        + (if !ignored.contains("deprecated-record"@) || !ignored.contains("deprecated-array"@) { f5 } else { none })
        + (if !ignored.contains("unused-variable"@) { f6 } else { none })
        + (if !ignored.contains("empty-block"@) { f7 } else { none })
        + (if !ignored.contains("trailing-whitespace"@) { f8 } else { none })
        + (if !ignored.contains("empty-whitespace-line"@) { f9 } else { none })
}

proof fn lemma_assemble_without(
    ignored: Seq<Seq<char>>,
    rule: Seq<char>,
    f1: Seq<DiagnosticView>,
    f2: Seq<DiagnosticView>,
    f3: Seq<DiagnosticView>,
    f4: Seq<DiagnosticView>,
    f5: Seq<DiagnosticView>,
    f6: Seq<DiagnosticView>,
    f7: Seq<DiagnosticView>,
    f8: Seq<DiagnosticView>,
    f9: Seq<DiagnosticView>,
)
    requires
        rule == "unclosed-string"@ || rule == "missing-semicolon"@ || rule == "unused-variable"@
            || rule == "empty-block"@ || rule == "trailing-whitespace"@ || rule
            == "empty-whitespace-line"@,
        rules_among(f1, "orphaned-end"@, "missing-end"@),
        rules_among(f2, "unclosed-string"@, "unclosed-string"@),
        rules_among(f3, "missing-semicolon"@, "missing-semicolon"@),
        rules_among(f4, "single-equals"@, "single-equals"@),
        rules_among(f5, "deprecated-"@ + "record"@, "deprecated-"@ + "array"@),
        rules_among(f6, "unused-variable"@, "unused-variable"@),
        rules_among(f7, "empty-block"@, "empty-block"@),
        rules_among(f8, "trailing-whitespace"@, "trailing-whitespace"@),
        rules_among(f9, "empty-whitespace-line"@, "empty-whitespace-line"@),
    ensures
        without_rule(assemble(ignored, f1, f2, f3, f4, f5, f6, f7, f8, f9), rule) == assemble(
            ignored.push(rule),
            f1,
            f2,
            f3,
            f4,
            f5,
            f6,
            f7,
            f8,
            f9,
        ),
{
    lemma_other_rule_names(rule);
    let pushed = ignored.push(rule);
    lemma_push_contains(ignored, rule, "missing-end"@);
    lemma_push_contains(ignored, rule, "unclosed-string"@);
    lemma_push_contains(ignored, rule, "missing-semicolon"@);
    lemma_push_contains(ignored, rule, "single-equals-in-condition"@);
    lemma_push_contains(ignored, rule, "deprecated-record"@);
    lemma_push_contains(ignored, rule, "deprecated-array"@);
    lemma_push_contains(ignored, rule, "unused-variable"@);
    lemma_push_contains(ignored, rule, "empty-block"@);
    lemma_push_contains(ignored, rule, "trailing-whitespace"@);
    lemma_push_contains(ignored, rule, "empty-whitespace-line"@);
    let b1 = !ignored.contains("missing-end"@);
    let b2 = !ignored.contains("unclosed-string"@);
    let b3 = !ignored.contains("missing-semicolon"@);
    let b4 = !ignored.contains("single-equals-in-condition"@);
    let b5 = !ignored.contains("deprecated-record"@) || !ignored.contains("deprecated-array"@);
    let b6 = !ignored.contains("unused-variable"@);
    let b7 = !ignored.contains("empty-block"@);
    let b8 = !ignored.contains("trailing-whitespace"@);
    let b9 = !ignored.contains("empty-whitespace-line"@);
    let c1 = !pushed.contains("missing-end"@);
    let c2 = !pushed.contains("unclosed-string"@);
    let c3 = !pushed.contains("missing-semicolon"@);
    let c4 = !pushed.contains("single-equals-in-condition"@);
    let c5 = !pushed.contains("deprecated-record"@) || !pushed.contains("deprecated-array"@);
    let c6 = !pushed.contains("unused-variable"@);
    let c7 = !pushed.contains("empty-block"@);
    let c8 = !pushed.contains("trailing-whitespace"@);
    let c9 = !pushed.contains("empty-whitespace-line"@);
    lemma_part_switch(f1, "orphaned-end"@, "missing-end"@, rule, b1, c1);
    lemma_part_switch(f2, "unclosed-string"@, "unclosed-string"@, rule, b2, c2);
    lemma_part_switch(f3, "missing-semicolon"@, "missing-semicolon"@, rule, b3, c3);
    lemma_part_switch(f4, "single-equals"@, "single-equals"@, rule, b4, c4);
    lemma_part_switch(f5, "deprecated-"@ + "record"@, "deprecated-"@ + "array"@, rule, b5, c5);
    lemma_part_switch(f6, "unused-variable"@, "unused-variable"@, rule, b6, c6);
    lemma_part_switch(f7, "empty-block"@, "empty-block"@, rule, b7, c7);
    lemma_part_switch(f8, "trailing-whitespace"@, "trailing-whitespace"@, rule, b8, c8);
    lemma_part_switch(f9, "empty-whitespace-line"@, "empty-whitespace-line"@, rule, b9, c9);
}

/// Ignoring one more of the rules unclosed-string, missing-semicolon,
/// unused-variable, empty-block, trailing-whitespace and
/// empty-whitespace-line takes exactly that rule's findings out of the
/// linter's output and keeps the rest in their order.
pub proof fn law_ignoring_one_rule(
    ignored: Seq<Seq<char>>,
    file: PathBuf,
    ls: Seq<Seq<char>>,
    fix: bool,
    rule: Seq<char>,
)
    requires
        rule == "unclosed-string"@ || rule == "missing-semicolon"@ || rule == "unused-variable"@
            || rule == "empty-block"@ || rule == "trailing-whitespace"@ || rule
            == "empty-whitespace-line"@,
    ensures
        lint_spec(ignored.push(rule), file, ls, fix) == without_rule(
            lint_spec(ignored, file, ls, fix),
            rule,
        ),
{
    lemma_part_rules(file, ls, fix);
    let f1 = missing_end_findings(file, ls);
    let f2 = unclosed_string_findings(file, ls);
    let f3 = missing_semicolon_findings(file, ls);
    let f4 = single_equals_findings(file, ls);
    let f5 = deprecated_findings(file, ls, fix);
    let f6 = unused_variable_findings(file, ls);
    let f7 = empty_block_findings(file, ls);
    let f8 = trailing_ws_findings(file, ls, fix);
    let f9 = blank_line_findings(file, ls, fix);
    lemma_assemble_without(ignored, rule, f1, f2, f3, f4, f5, f6, f7, f8, f9);
    assert(lint_spec(ignored, file, ls, fix) == assemble(ignored, f1, f2, f3, f4, f5, f6, f7, f8, f9));
    assert(lint_spec(ignored.push(rule), file, ls, fix) == assemble(
        ignored.push(rule),
        f1,
        f2,
        f3,
        f4,
        f5,
        f6,
        f7,
        f8,
        f9,
    ));
}

/// `ls` with the fixes of `ds` applied in order: each finding that carries a
/// fix and points at one of the lines replaces that line by its fix.
pub open spec fn apply_fixes(ls: Seq<Seq<char>>, ds: Seq<DiagnosticView>) -> Seq<Seq<char>>
    decreases ds.len(),
{
    if ds.len() == 0 {
        ls
    } else {
        let prev = apply_fixes(ls, ds.drop_last());
        let d = ds.last();
        if d.fix is Some && 1 <= d.line <= prev.len() {
            prev.update(d.line - 1, d.fix->0)
        } else {
            prev
        }
    }
}

/// Fixes that touch no line leave the lines alone, and one more fix applies
/// on top of the others.
proof fn lemma_apply_fixes_step(ls: Seq<Seq<char>>, ds: Seq<DiagnosticView>, more: Seq<DiagnosticView>)
    requires
        more.len() <= 1,
    ensures
        more.len() == 0 ==> apply_fixes(ls, ds + more) == apply_fixes(ls, ds),
        more.len() == 1 ==> apply_fixes(ls, ds + more) == apply_fixes(ls, ds.push(more[0])),
{
    if more.len() == 0 {
        assert(ds + more =~= ds);
    } else {
        assert(ds + more =~= ds.push(more[0]));
    }
}

/// A line whose trailing white space takes no bytes has none.
proof fn lemma_trim_end_same(line: Seq<char>)
    requires
        byte_len(line) == byte_len(trim_end(line)),
    ensures
        trim_end(line) == line,
{
    lemma_trim_end_prefix(line);
    let n = trim_end(line).len() as int;
    lemma_byte_len_append(line.take(n), line.skip(n));
    assert(line.take(n) + line.skip(n) =~= line);
    lemma_byte_len_bounds(line.skip(n));
    assert(line.skip(n).len() == 0);
    assert(trim_end(line) =~= line);
}

/// The lines after the trailing-whitespace fixes of the first `k` lines.
spec fn trimmed_until(ls: Seq<Seq<char>>, k: int) -> Seq<Seq<char>> {
    Seq::new(ls.len(), |i: int| if i < k { trim_end(ls[i]) } else { ls[i] })
}

proof fn lemma_trailing_fixes(file: PathBuf, ls: Seq<Seq<char>>, k: nat)
    requires
        k <= ls.len(),
    ensures
        apply_fixes(ls, trailing_ws_diags(file, ls, true, k)) == trimmed_until(ls, k as int),
    decreases k,
{
    if k == 0 {
        assert(trimmed_until(ls, 0) =~= ls);
    } else {
        lemma_trailing_fixes(file, ls, (k - 1) as nat);
        let prev = trailing_ws_diags(file, ls, true, (k - 1) as nat);
        let at = trailing_ws_at(file, ls, true, k - 1);
        lemma_apply_fixes_step(ls, prev, at);
        let line = ls[k - 1];
        if at.len() == 0 {
            lemma_trim_end_prefix(line);
            lemma_byte_len_prefix(line, trim_end(line).len() as int);
            lemma_trim_end_same(line);
            assert(trimmed_until(ls, k as int) =~= trimmed_until(ls, k - 1));
        } else {
            assert(prev.push(at[0]).drop_last() =~= prev);
            assert(trimmed_until(ls, k - 1).update(k - 1, trim_end(line)) =~= trimmed_until(
                ls,
                k as int,
            ));
        }
    }
}

proof fn lemma_no_trailing(file: PathBuf, ls: Seq<Seq<char>>, fix: bool, k: nat)
    requires
        forall|i: int| 0 <= i < ls.len() ==> trim_end(#[trigger] ls[i]) == ls[i],
    ensures
        trailing_ws_diags(file, ls, fix, k).len() == 0,
    decreases k,
{
    if k > 0 && k <= ls.len() {
        lemma_no_trailing(file, ls, fix, (k - 1) as nat);
        assert(trim_end(ls[k - 1]) == ls[k - 1]);
    }
}

/// Applying all the fixes of the trailing-whitespace rule trims every line,
/// keeps the number of lines, and leaves nothing for the rule to find, with
/// fixes on or off.
pub proof fn law_trailing_fixes_settle(file: PathBuf, ls: Seq<Seq<char>>, fix: bool)
    ensures
        apply_fixes(ls, trailing_ws_findings(file, ls, true)).len() == ls.len(),
        forall|i: int|
            0 <= i < ls.len() ==> #[trigger] apply_fixes(ls, trailing_ws_findings(file, ls, true))[i]
                == trim_end(ls[i]),
        trailing_ws_findings(file, apply_fixes(ls, trailing_ws_findings(file, ls, true)), fix).len()
            == 0,
{
    lemma_trailing_fixes(file, ls, ls.len());
    let fixed = apply_fixes(ls, trailing_ws_findings(file, ls, true));
    assert(fixed == trimmed_until(ls, ls.len() as int));
    assert forall|i: int| 0 <= i < fixed.len() implies trim_end(#[trigger] fixed[i]) == fixed[i] by {
        lemma_trim_end_idempotent(ls[i]);
    }
    lemma_no_trailing(file, fixed, fix, fixed.len());
}

/// A line the empty-whitespace-line rule reports on.
spec fn blank(line: Seq<char>) -> bool {
    line.len() > 0 && all_ws(line)
}

/// The lines after the empty-whitespace-line fixes of the first `k` lines.
spec fn emptied_until(ls: Seq<Seq<char>>, k: int) -> Seq<Seq<char>> {
    Seq::new(ls.len(), |i: int| if i < k && blank(ls[i]) { Seq::<char>::empty() } else { ls[i] })
}

proof fn lemma_blank_fixes(file: PathBuf, ls: Seq<Seq<char>>, k: nat)
    requires
        k <= ls.len(),
    ensures
        apply_fixes(ls, blank_line_diags(file, ls, true, k)) == emptied_until(ls, k as int),
    decreases k,
{
    if k == 0 {
        assert(emptied_until(ls, 0) =~= ls);
    } else {
        lemma_blank_fixes(file, ls, (k - 1) as nat);
        let prev = blank_line_diags(file, ls, true, (k - 1) as nat);
        let at = blank_line_at(file, ls, true, k - 1);
        lemma_apply_fixes_step(ls, prev, at);
        if at.len() == 0 {
            assert(emptied_until(ls, k as int) =~= emptied_until(ls, k - 1));
        } else {
            assert(prev.push(at[0]).drop_last() =~= prev);
            assert(emptied_until(ls, k - 1).update(k - 1, Seq::<char>::empty()) =~= emptied_until(
                ls,
                k as int,
            ));
        }
    }
}

proof fn lemma_no_blank(file: PathBuf, ls: Seq<Seq<char>>, fix: bool, k: nat)
    requires
        forall|i: int| 0 <= i < ls.len() ==> !blank(#[trigger] ls[i]),
    ensures
        blank_line_diags(file, ls, fix, k).len() == 0,
    decreases k,
{
    if k > 0 && k <= ls.len() {
        lemma_no_blank(file, ls, fix, (k - 1) as nat);
        assert(!blank(ls[k - 1]));
    }
}

/// Applying all the fixes of the empty-whitespace-line rule empties exactly
/// the lines made only of white space, keeps the number of lines, and leaves
/// nothing for the rule to find, with fixes on or off.
pub proof fn law_blank_fixes_settle(file: PathBuf, ls: Seq<Seq<char>>, fix: bool)
    ensures
        apply_fixes(ls, blank_line_findings(file, ls, true)).len() == ls.len(),
        forall|i: int|
            0 <= i < ls.len() ==> #[trigger] apply_fixes(ls, blank_line_findings(file, ls, true))[i]
                == (if ls[i].len() > 0 && all_ws(ls[i]) {
                Seq::<char>::empty()
            } else {
                ls[i]
            }),
        blank_line_findings(file, apply_fixes(ls, blank_line_findings(file, ls, true)), fix).len()
            == 0,
{
    lemma_blank_fixes(file, ls, ls.len());
    let fixed = apply_fixes(ls, blank_line_findings(file, ls, true));
    assert(fixed == emptied_until(ls, ls.len() as int));
    assert forall|i: int| 0 <= i < fixed.len() implies !blank(#[trigger] fixed[i]) by {
        if blank(ls[i]) {
            assert(fixed[i].len() == 0);
        }
    }
    lemma_no_blank(file, fixed, fix, fixed.len());
}

/// Each finding of the empty-whitespace-line rule on the first `k` lines is
/// the finding for one of those lines.
proof fn lemma_blank_origin(file: PathBuf, ls: Seq<Seq<char>>, fix: bool, k: nat)
    requires
        k <= ls.len(),
    ensures
        forall|j: int|
            0 <= j < blank_line_diags(file, ls, fix, k).len() ==> exists|i: int|
                0 <= i < k && blank_line_at(file, ls, fix, i).len() > 0
                    && #[trigger] blank_line_diags(file, ls, fix, k)[j] == blank_line_at(
                    file,
                    ls,
                    fix,
                    i,
                )[0],
    decreases k,
{
    if k > 0 {
        lemma_blank_origin(file, ls, fix, (k - 1) as nat);
        let prev = blank_line_diags(file, ls, fix, (k - 1) as nat);
        let at = blank_line_at(file, ls, fix, k - 1);
        let all = blank_line_diags(file, ls, fix, k);
        assert forall|j: int| 0 <= j < all.len() implies exists|i: int|
            0 <= i < k && blank_line_at(file, ls, fix, i).len() > 0 && #[trigger] all[j]
                == blank_line_at(file, ls, fix, i)[0] by {
            if j < prev.len() {
                assert(all[j] == prev[j]);
                let i = choose|i: int|
                    0 <= i < k - 1 && blank_line_at(file, ls, fix, i).len() > 0 && #[trigger] prev[j]
                        == blank_line_at(file, ls, fix, i)[0];
                assert(all[j] == blank_line_at(file, ls, fix, i)[0]);
            } else {
                assert(all[j] == at[0]);
            }
        }
    }
}

/// The finding of the trailing-whitespace rule for one of the first `k` lines
/// is among its findings on those lines.
proof fn lemma_trailing_holds(file: PathBuf, ls: Seq<Seq<char>>, fix: bool, k: nat, i: int)
    requires
        0 <= i < k <= ls.len(),
        trailing_ws_at(file, ls, fix, i).len() > 0,
    ensures
        exists|m: int|
            0 <= m < trailing_ws_diags(file, ls, fix, k).len() && #[trigger] trailing_ws_diags(
                file,
                ls,
                fix,
                k,
            )[m] == trailing_ws_at(file, ls, fix, i)[0],
    decreases k,
{
    let prev = trailing_ws_diags(file, ls, fix, (k - 1) as nat);
    let all = trailing_ws_diags(file, ls, fix, k);
    if i == k - 1 {
        assert(all[prev.len() as int] == trailing_ws_at(file, ls, fix, i)[0]);
    } else {
        lemma_trailing_holds(file, ls, fix, (k - 1) as nat, i);
        let m = choose|m: int|
            0 <= m < prev.len() && #[trigger] prev[m] == trailing_ws_at(file, ls, fix, i)[0];
        assert(all[m] == prev[m]);
    }
}

/// `ds` holds a finding on line `line` at column 1.
pub open spec fn found_at_start(ds: Seq<DiagnosticView>, line: nat) -> bool {
    exists|m: int| 0 <= m < ds.len() && (#[trigger] ds[m]).line == line && ds[m].column == 1
}

/// Every finding of the empty-whitespace-line rule has a trailing-whitespace
/// finding on the same line at column 1, whether either rule offers fixes.
pub proof fn law_blank_lines_are_trailing_whitespace(
    file: PathBuf,
    ls: Seq<Seq<char>>,
    blank_fix: bool,
    trailing_fix: bool,
)
    ensures
        forall|j: int|
            0 <= j < blank_line_findings(file, ls, blank_fix).len() ==> found_at_start(
                trailing_ws_findings(file, ls, trailing_fix),
                (#[trigger] blank_line_findings(file, ls, blank_fix)[j]).line,
            ),
{
    let e = blank_line_findings(file, ls, blank_fix);
    let t = trailing_ws_findings(file, ls, trailing_fix);
    lemma_blank_origin(file, ls, blank_fix, ls.len());
    assert forall|j: int| 0 <= j < e.len() implies found_at_start(t, (#[trigger] e[j]).line) by {
        let i = choose|i: int|
            0 <= i < ls.len() && blank_line_at(file, ls, blank_fix, i).len() > 0 && #[trigger] e[j]
                == blank_line_at(file, ls, blank_fix, i)[0];
        assert(blank_line_at(file, ls, trailing_fix, i).len() > 0);
        law_blank_line_is_trailing_whitespace(file, ls, trailing_fix, i);
        lemma_trailing_holds(file, ls, trailing_fix, ls.len(), i);
        let m = choose|m: int|
            0 <= m < t.len() && #[trigger] t[m] == trailing_ws_at(file, ls, trailing_fix, i)[0];
        assert(t[m].line == e[j].line && t[m].column == 1);
    }
}

} // verus!
