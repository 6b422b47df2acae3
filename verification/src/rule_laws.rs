//! What each rule reports, stated over the lines it is given rather than
//! over the steps it takes.

use crate::cleaner::cleaned_lines;
use crate::pattern::{is_regex_meta, regex_escaped};
use crate::rules::{
    block_state, closes_condition, completes_condition, condition_state, condition_triggers,
    declared_names, missing_end_spec, rarely_used, single_equals_findings, single_equals_flags,
    single_equals_lines, usage_pattern, usage_total, var_decls, SINGLE_EQUALS,
    missing_semicolon_findings, paren_depth, semicolon_at, semicolon_diags, statement_keywords,
    deprecated_at, deprecated_diags, deprecated_findings, first_offsets, ARRAY_WORD, RECORD_WORD,
    unused_diags, unused_variable_findings,
};
use crate::cleaner::cleaned;
use crate::pattern::first_match;
use crate::text::replace_all;
use crate::linter::{diag, DiagnosticView, Severity};
use crate::text::{byte_len, trim};
use crate::pattern::has_match;
use std::path::PathBuf;
use vstd::prelude::*;

verus! {

// ----------------------------------------------------------------------------
// Block balance
// ----------------------------------------------------------------------------

/// Blocks opened minus `End`s on the first `k` lines, a line that both opens
/// a block and holds `End` counting neither.
pub open spec fn block_balance(starts: Seq<Option<Seq<char>>>, ends: Seq<bool>, k: nat) -> int
    decreases k,
{
    if k == 0 {
        0
    } else {
        let i = k - 1;
        block_balance(starts, ends, (k - 1) as nat) + if starts[i] is Some && !ends[i] {
            1int
        } else if starts[i] is None && ends[i] {
            -1int
        } else {
            0int
        }
    }
}

/// Lines that are well nested when one-line blocks are left out: no prefix
/// closes more blocks than it opens.
pub open spec fn never_over_closed(starts: Seq<Option<Seq<char>>>, ends: Seq<bool>) -> bool {
    forall|k: nat| k <= starts.len() ==> #[trigger] block_balance(starts, ends, k) >= 0
}

proof fn lemma_balance_is_stack(starts: Seq<Option<Seq<char>>>, ends: Seq<bool>, k: nat)
    requires
        k <= starts.len() == ends.len(),
        forall|j: nat| j <= k ==> #[trigger] block_balance(starts, ends, j) >= 0,
    ensures
        block_state(starts, ends, k).0.len() == 0,
        block_state(starts, ends, k).1.len() == block_balance(starts, ends, k),
    decreases k,
{
    if k > 0 {
        assert(block_balance(starts, ends, (k - 1) as nat) >= 0);
        assert(block_balance(starts, ends, k) >= 0);
        lemma_balance_is_stack(starts, ends, (k - 1) as nat);
    }
}

/// When no prefix of the file closes more blocks than it has opened and the
/// whole file closes all it opens, one-line blocks left aside, the
/// block-balance rule reports nothing.
pub proof fn law_balanced_blocks_report_nothing(
    file: PathBuf,
    starts: Seq<Option<Seq<char>>>,
    ends: Seq<bool>,
)
    requires
        starts.len() == ends.len(),
        never_over_closed(starts, ends),
        block_balance(starts, ends, starts.len()) == 0,
    ensures
        missing_end_spec(file, starts, ends).len() == 0,
{
    assert forall|j: nat| j <= starts.len() implies #[trigger] block_balance(starts, ends, j) >= 0 by {
        assert(block_balance(starts, ends, j) >= 0);
    }
    lemma_balance_is_stack(starts, ends, starts.len());
}

proof fn lemma_skip_line_state(
    starts: Seq<Option<Seq<char>>>,
    ends: Seq<bool>,
    i: int,
    k: nat,
)
    requires
        starts.len() == ends.len(),
        0 <= i < starts.len(),
        starts[i] is Some,
        ends[i],
        k <= starts.len(),
    ensures
        block_state(starts, ends, k) == block_state(starts.update(i, None), ends.update(i, false), k),
    decreases k,
{
    if k > 0 {
        lemma_skip_line_state(starts, ends, i, (k - 1) as nat);
    }
}

/// A line that both opens a block and holds `End` is left out: the findings
/// are those for the same lines with that line holding neither.
pub proof fn law_one_line_block_is_skipped(
    file: PathBuf,
    starts: Seq<Option<Seq<char>>>,
    ends: Seq<bool>,
    i: int,
)
    requires
        starts.len() == ends.len(),
        0 <= i < starts.len(),
        starts[i] is Some,
        ends[i],
    ensures
        missing_end_spec(file, starts, ends) == missing_end_spec(
            file,
            starts.update(i, None),
            ends.update(i, false),
        ),
{
    lemma_skip_line_state(starts, ends, i, starts.len());
}

proof fn lemma_orphans_kept(starts: Seq<Option<Seq<char>>>, ends: Seq<bool>, k: nat, n: nat, v: nat)
    requires
        k <= n,
        block_state(starts, ends, k).0.contains(v),
    ensures
        block_state(starts, ends, n).0.contains(v),
    decreases n - k,
{
    if k < n {
        let a = block_state(starts, ends, k).0;
        let b = block_state(starts, ends, k + 1).0;
        let m = choose|m: int| 0 <= m < a.len() && a[m] == v;
        assert(b[m] == v);
        lemma_orphans_kept(starts, ends, k + 1, n, v);
    }
}

/// An `End` on a line that opens no block, reached when every block opened
/// before it has been closed, is reported as closing nothing.
pub proof fn law_stray_end_is_reported(
    file: PathBuf,
    starts: Seq<Option<Seq<char>>>,
    ends: Seq<bool>,
    i: int,
)
    requires
        starts.len() == ends.len(),
        0 <= i < starts.len(),
        starts[i] is None,
        ends[i],
        forall|j: nat| j <= i ==> #[trigger] block_balance(starts, ends, j) >= 0,
        block_balance(starts, ends, i as nat) == 0,
    ensures
        missing_end_spec(file, starts, ends).contains(
            diag(Severity::Error, "Лишний 'End'."@, file, (i + 1) as nat, 1, "orphaned-end"@, None),
        ),
{
    lemma_balance_is_stack(starts, ends, i as nat);
    let after = block_state(starts, ends, (i + 1) as nat).0;
    assert(after[after.len() - 1] == i + 1);
    lemma_orphans_kept(starts, ends, (i + 1) as nat, starts.len(), (i + 1) as nat);
    let st = block_state(starts, ends, starts.len());
    let m = choose|m: int| 0 <= m < st.0.len() && st.0[m] == i + 1;
    assert(missing_end_spec(file, starts, ends)[m] == diag(
        Severity::Error,
        "Лишний 'End'."@,
        file,
        (i + 1) as nat,
        1,
        "orphaned-end"@,
        None,
    ));
}

proof fn lemma_open_blocks_kept(starts: Seq<Option<Seq<char>>>, ends: Seq<bool>, k: nat, i: int)
    requires
        k <= starts.len() == ends.len(),
        forall|j: int| 0 <= j < ends.len() ==> !#[trigger] ends[j],
        0 <= i < k,
        starts[i] is Some,
    ensures
        block_state(starts, ends, k).1.contains((starts[i]->0, (i + 1) as nat)),
    decreases k,
{
    let prev = block_state(starts, ends, (k - 1) as nat).1;
    let cur = block_state(starts, ends, k).1;
    assert(!ends[k - 1]);
    if i == k - 1 {
        assert(cur[prev.len() as int] == (starts[i]->0, (i + 1) as nat));
    } else {
        lemma_open_blocks_kept(starts, ends, (k - 1) as nat, i);
        let m = choose|m: int| 0 <= m < prev.len() && prev[m] == (starts[i]->0, (i + 1) as nat);
        assert(cur[m] == prev[m]);
    }
}

/// In lines without any `End`, every line that opens a block is reported as
/// a block left open, with the keyword that opened it.
pub proof fn law_unclosed_block_is_reported(
    file: PathBuf,
    starts: Seq<Option<Seq<char>>>,
    ends: Seq<bool>,
    i: int,
)
    requires
        starts.len() == ends.len(),
        forall|j: int| 0 <= j < ends.len() ==> !#[trigger] ends[j],
        0 <= i < starts.len(),
        starts[i] is Some,
    ensures
        missing_end_spec(file, starts, ends).contains(
            diag(
                Severity::Error,
                "Незакрытый блок '"@ + starts[i]->0 + "'."@,
                file,
                (i + 1) as nat,
                1,
                "missing-end"@,
                None,
            ),
        ),
{
    lemma_open_blocks_kept(starts, ends, starts.len(), i);
    let st = block_state(starts, ends, starts.len());
    let m = choose|m: int| 0 <= m < st.1.len() && st.1[m] == (starts[i]->0, (i + 1) as nat);
    let all = missing_end_spec(file, starts, ends);
    assert(all[st.0.len() + m] == diag(
        Severity::Error,
        "Незакрытый блок '"@ + starts[i]->0 + "'."@,
        file,
        (i + 1) as nat,
        1,
        "missing-end"@,
        None,
    ));
}

// ----------------------------------------------------------------------------
// Unused variables
// ----------------------------------------------------------------------------

/// `p` is a regular expression made only of literal characters and escaped
/// meta characters, and it spells `text`: it matches `text` and nothing else.
pub open spec fn literal_pattern(p: Seq<char>, text: Seq<char>) -> bool
    decreases p.len(),
{
    if p.len() == 0 {
        text.len() == 0
    } else if p[0] == '\\' {
        &&& p.len() >= 2
        &&& is_regex_meta(p[1])
        &&& text.len() > 0
        &&& text[0] == p[1]
        &&& literal_pattern(p.skip(2), text.skip(1))
    } else {
        &&& !is_regex_meta(p[0])
        &&& text.len() > 0
        &&& text[0] == p[0]
        &&& literal_pattern(p.skip(1), text.skip(1))
    }
}

/// `p` matches `name` as a whole word only: a word boundary, `name` spelled
/// literally, and another word boundary.
pub open spec fn whole_word_pattern(p: Seq<char>, name: Seq<char>) -> bool {
    &&& p.len() >= 4
    &&& p.take(2) == r"\b"@
    &&& p.skip(p.len() - 2) == r"\b"@
    &&& literal_pattern(p.subrange(2, p.len() - 2), name)
}

proof fn lemma_literal_append(p: Seq<char>, t: Seq<char>, q: Seq<char>, u: Seq<char>)
    requires
        literal_pattern(p, t),
        literal_pattern(q, u),
    ensures
        literal_pattern(p + q, t + u),
    decreases p.len(),
{
    if p.len() == 0 {
        assert(p + q =~= q);
        assert(t + u =~= u);
    } else if p[0] == '\\' {
        lemma_literal_append(p.skip(2), t.skip(1), q, u);
        assert((p + q).skip(2) =~= p.skip(2) + q);
        assert((t + u).skip(1) =~= t.skip(1) + u);
    } else {
        lemma_literal_append(p.skip(1), t.skip(1), q, u);
        assert((p + q).skip(1) =~= p.skip(1) + q);
        assert((t + u).skip(1) =~= t.skip(1) + u);
    }
}

/// Escaping spells the text literally.
proof fn lemma_escaped_is_literal(s: Seq<char>)
    ensures
        literal_pattern(regex_escaped(s), s),
    decreases s.len(),
{
    if s.len() > 0 {
        lemma_escaped_is_literal(s.drop_last());
        let c = s.last();
        let e = regex_escaped(s.drop_last());
        let one = if is_regex_meta(c) { seq!['\\', c] } else { seq![c] };
        assert(literal_pattern(one, seq![c])) by {
            reveal_with_fuel(literal_pattern, 2);
            if is_regex_meta(c) {
                assert(one.skip(2) =~= Seq::<char>::empty());
            } else {
                assert(one.skip(1) =~= Seq::<char>::empty());
            }
            assert(seq![c].skip(1) =~= Seq::<char>::empty());
        }
        lemma_literal_append(e, s.drop_last(), one, seq![c]);
        assert(s.drop_last() + seq![c] =~= s);
        if is_regex_meta(c) {
            assert(e.push('\\').push(c) =~= e + one);
        } else {
            assert(e.push(c) =~= e + one);
        }
    }
}

/// The uses of a declared name are counted with a pattern that matches the
/// name as a whole word only, over every cleaned line of the file; the
/// declaration is reported exactly when that count is at most one.
pub proof fn law_uses_are_whole_words(ls: Seq<Seq<char>>, j: int)
    requires
        0 <= j < var_decls(declared_names(ls), ls.len()).len(),
    ensures
        ({
            let name = var_decls(declared_names(ls), ls.len())[j].0;
            let code = cleaned_lines(ls);
            &&& whole_word_pattern(usage_pattern(name), name)
            &&& rarely_used(ls)[j] == (usage_total(code, usage_pattern(name), code.len()) <= 1)
        }),
{
    let name = var_decls(declared_names(ls), ls.len())[j].0;
    let p = usage_pattern(name);
    reveal_strlit("\\b");
    lemma_escaped_is_literal(name);
    assert(p.take(2) =~= r"\b"@);
    assert(p.skip(p.len() - 2) =~= r"\b"@);
    assert(p.subrange(2, p.len() - 2) =~= regex_escaped(name));
}

proof fn lemma_unused_holds(
    file: PathBuf,
    decls: Seq<(Seq<char>, nat, nat)>,
    rare: Seq<bool>,
    k: nat,
    j: int,
)
    requires
        0 <= j < k,
        rare[j],
    ensures
        unused_diags(file, decls, rare, k).contains(
            diag(
                Severity::Warning,
                "Переменная '"@ + decls[j].0 + "' не используется."@,
                file,
                decls[j].1,
                decls[j].2,
                "unused-variable"@,
                None,
            ),
        ),
    decreases k,
{
    let prev = unused_diags(file, decls, rare, (k - 1) as nat);
    let all = unused_diags(file, decls, rare, k);
    let d = diag(
        Severity::Warning,
        "Переменная '"@ + decls[j].0 + "' не используется."@,
        file,
        decls[j].1,
        decls[j].2,
        "unused-variable"@,
        None,
    );
    if j == k - 1 {
        assert(all[prev.len() as int] == d);
    } else {
        lemma_unused_holds(file, decls, rare, (k - 1) as nat, j);
        let m = choose|m: int| 0 <= m < prev.len() && prev[m] == d;
        assert(all[m] == d);
    }
}

/// A declared variable whose name occurs at most once as a whole word in the
/// cleaned file is reported at its declaration.
pub proof fn law_rarely_used_variable_is_reported(file: PathBuf, ls: Seq<Seq<char>>, j: int)
    requires
        0 <= j < var_decls(declared_names(ls), ls.len()).len(),
        ({
            let name = var_decls(declared_names(ls), ls.len())[j].0;
            let code = cleaned_lines(ls);
            usage_total(code, usage_pattern(name), code.len()) <= 1
        }),
    ensures
        ({
            let d = var_decls(declared_names(ls), ls.len())[j];
            unused_variable_findings(file, ls).contains(
                diag(
                    Severity::Warning,
                    "Переменная '"@ + d.0 + "' не используется."@,
                    file,
                    d.1,
                    d.2,
                    "unused-variable"@,
                    None,
                ),
            )
        }),
{
    let decls = var_decls(declared_names(ls), ls.len());
    assert(declared_names(ls).len() == ls.len());
    lemma_unused_holds(file, decls, rarely_used(ls), decls.len(), j);
}

proof fn lemma_decl_lines_increase(captures: Seq<Option<(nat, Seq<char>)>>, k: nat)
    ensures
        forall|a: int, b: int|
            0 <= a < b < var_decls(captures, k).len() ==> #[trigger] var_decls(captures, k)[a].1
                < #[trigger] var_decls(captures, k)[b].1,
        forall|a: int|
            0 <= a < var_decls(captures, k).len() ==> #[trigger] var_decls(captures, k)[a].1 <= k,
    decreases k,
{
    if k > 0 && k <= captures.len() {
        lemma_decl_lines_increase(captures, (k - 1) as nat);
        let prev = var_decls(captures, (k - 1) as nat);
        let cur = var_decls(captures, k);
        assert forall|a: int| 0 <= a < cur.len() implies #[trigger] cur[a].1 <= k by {
            if a < prev.len() {
                assert(cur[a] == prev[a]);
            }
        }
        assert forall|a: int, b: int| 0 <= a < b < cur.len() implies #[trigger] cur[a].1
            < #[trigger] cur[b].1 by {
            assert(cur[a] == prev[a]);
            if b < prev.len() {
                assert(cur[b] == prev[b]);
            }
        }
    }
}

proof fn lemma_unused_origin(file: PathBuf, decls: Seq<(Seq<char>, nat, nat)>, rare: Seq<bool>, k: nat)
    requires
        k <= decls.len(),
    ensures
        forall|m: int|
            0 <= m < unused_diags(file, decls, rare, k).len() ==> exists|j: int|
                0 <= j < k && rare[j] && (#[trigger] unused_diags(file, decls, rare, k)[m]).line
                    == decls[j].1,
    decreases k,
{
    if k > 0 {
        lemma_unused_origin(file, decls, rare, (k - 1) as nat);
        let prev = unused_diags(file, decls, rare, (k - 1) as nat);
        let all = unused_diags(file, decls, rare, k);
        assert forall|m: int| 0 <= m < all.len() implies exists|j: int|
            0 <= j < k && rare[j] && (#[trigger] all[m]).line == decls[j].1 by {
            if m < prev.len() {
                assert(all[m] == prev[m]);
            } else {
                assert(all[m].line == decls[k - 1].1);
            }
        }
    }
}

/// A declared variable whose name occurs more than once as a whole word in
/// the cleaned file is not reported.
pub proof fn law_used_variable_is_not_reported(file: PathBuf, ls: Seq<Seq<char>>, j: int)
    requires
        0 <= j < var_decls(declared_names(ls), ls.len()).len(),
        ({
            let name = var_decls(declared_names(ls), ls.len())[j].0;
            let code = cleaned_lines(ls);
            usage_total(code, usage_pattern(name), code.len()) > 1
        }),
    ensures
        !found_on_line(
            unused_variable_findings(file, ls),
            var_decls(declared_names(ls), ls.len())[j].1,
        ),
{
    let decls = var_decls(declared_names(ls), ls.len());
    let rare = rarely_used(ls);
    let ds = unused_variable_findings(file, ls);
    assert(declared_names(ls).len() == ls.len());
    lemma_decl_lines_increase(declared_names(ls), ls.len());
    lemma_unused_origin(file, decls, rare, decls.len());
    assert(!rare[j]);
    if found_on_line(ds, decls[j].1) {
        let m = choose|m: int| 0 <= m < ds.len() && (#[trigger] ds[m]).line == decls[j].1;
        let j2 = choose|j2: int| 0 <= j2 < decls.len() && rare[j2] && (#[trigger] ds[m]).line == decls[j2].1;
        if j2 < j {
            assert(decls[j2].1 < decls[j].1);
        } else if j < j2 {
            assert(decls[j].1 < decls[j2].1);
        }
    }
}

// ----------------------------------------------------------------------------
// Single `=` in conditions
// ----------------------------------------------------------------------------

/// Lines `s` up to but not including `e`, one after the other.
pub open spec fn joined(code: Seq<Seq<char>>, s: int, e: int) -> Seq<char>
    decreases e - s,
{
    if e <= s {
        seq![]
    } else {
        joined(code, s, e - 1) + code[e - 1]
    }
}

/// `ds` holds a finding on line `line`.
pub open spec fn found_on_line(ds: Seq<DiagnosticView>, line: nat) -> bool {
    exists|m: int| 0 <= m < ds.len() && (#[trigger] ds[m]).line == line
}

proof fn lemma_idle_buffer_empty(code: Seq<Seq<char>>, triggers: Seq<bool>, k: nat)
    requires
        !condition_state(code, triggers, k).1,
    ensures
        condition_state(code, triggers, k).0 == Seq::<char>::empty(),
    decreases k,
{
    if k > 0 {
        let prev = condition_state(code, triggers, (k - 1) as nat);
        if !prev.1 {
            lemma_idle_buffer_empty(code, triggers, (k - 1) as nat);
        }
    }
}

proof fn lemma_collecting(code: Seq<Seq<char>>, triggers: Seq<bool>, s: int, k: int)
    requires
        0 <= s < k,
        triggers[s],
        !condition_state(code, triggers, s as nat).1,
        forall|m: int| s < m <= k ==> !closes_condition(#[trigger] joined(code, s, m)),
    ensures
        condition_state(code, triggers, k as nat) == (joined(code, s, k), true),
    decreases k - s,
{
    lemma_idle_buffer_empty(code, triggers, s as nat);
    assert(!closes_condition(joined(code, s, k)));
    if k == s + 1 {
        assert(joined(code, s, s) =~= Seq::<char>::empty());
        assert(Seq::<char>::empty() + code[s] =~= joined(code, s, s + 1));
    } else {
        lemma_collecting(code, triggers, s, k - 1);
    }
}

proof fn lemma_lines_bound(code: Seq<Seq<char>>, triggers: Seq<bool>, bad: Seq<bool>, k: nat)
    ensures
        forall|m: int|
            0 <= m < single_equals_lines(code, triggers, bad, k).len() ==> 1
                <= #[trigger] single_equals_lines(code, triggers, bad, k)[m] <= k,
    decreases k,
{
    if k > 0 {
        lemma_lines_bound(code, triggers, bad, (k - 1) as nat);
        let prev = single_equals_lines(code, triggers, bad, (k - 1) as nat);
        let cur = single_equals_lines(code, triggers, bad, k);
        assert forall|m: int| 0 <= m < cur.len() implies 1 <= #[trigger] cur[m] <= k by {
            if m < prev.len() {
                assert(cur[m] == prev[m]);
            }
        }
    }
}

proof fn lemma_lines_member(
    code: Seq<Seq<char>>,
    triggers: Seq<bool>,
    bad: Seq<bool>,
    k: nat,
    i: int,
)
    requires
        0 <= i < k,
    ensures
        single_equals_lines(code, triggers, bad, k).contains((i + 1) as nat) == (
        completes_condition(code, triggers, i) && bad[i]),
    decreases k,
{
    let prev = single_equals_lines(code, triggers, bad, (k - 1) as nat);
    let cur = single_equals_lines(code, triggers, bad, k);
    lemma_lines_bound(code, triggers, bad, (k - 1) as nat);
    if i == k - 1 {
        if prev.contains(k) {
            let m = choose|m: int| 0 <= m < prev.len() && prev[m] == k;
            assert(prev[m] <= k - 1);
        }
        if completes_condition(code, triggers, i) && bad[i] {
            assert(cur[prev.len() as int] == k);
        } else if cur.contains(k) {
            let m = choose|m: int| 0 <= m < cur.len() && cur[m] == k;
            assert(prev[m] == k);
        }
    } else {
        lemma_lines_member(code, triggers, bad, (k - 1) as nat, i);
        if prev.contains((i + 1) as nat) {
            let m = choose|m: int| 0 <= m < prev.len() && prev[m] == i + 1;
            assert(cur[m] == i + 1);
        }
        if cur.contains((i + 1) as nat) {
            let m = choose|m: int| 0 <= m < cur.len() && cur[m] == i + 1;
            if m < prev.len() {
                assert(prev[m] == i + 1);
            } else {
                assert(cur[m] == k);
            }
        }
    }
}

/// A condition that starts on line `s` (which holds `if`, `elif` or `while`
/// while no other condition is being collected) and whose parentheses first
/// balance on line `i` is reported on line `i` exactly when the text of all
/// its lines, `s` to `i`, holds a single `=`.
pub proof fn law_whole_condition_is_searched(file: PathBuf, ls: Seq<Seq<char>>, s: int, i: int)
    requires
        0 <= s <= i < ls.len(),
        condition_triggers(ls)[s],
        !condition_state(cleaned_lines(ls), condition_triggers(ls), s as nat).1,
        forall|m: int|
            s < m <= i ==> !closes_condition(#[trigger] joined(cleaned_lines(ls), s, m)),
        closes_condition(joined(cleaned_lines(ls), s, i + 1)),
    ensures
        single_equals_flags(ls)[i] == has_match(SINGLE_EQUALS@, joined(cleaned_lines(ls), s, i + 1)),
        found_on_line(single_equals_findings(file, ls), (i + 1) as nat) == has_match(
            SINGLE_EQUALS@,
            joined(cleaned_lines(ls), s, i + 1),
        ),
{
    let code = cleaned_lines(ls);
    let triggers = condition_triggers(ls);
    let text = joined(code, s, i + 1);
    if i == s {
        lemma_idle_buffer_empty(code, triggers, s as nat);
        assert(joined(code, s, s) =~= Seq::<char>::empty());
        assert(Seq::<char>::empty() + code[s] =~= text);
    } else {
        lemma_collecting(code, triggers, s, i);
    }
    assert(completes_condition(code, triggers, i));
    let flags = single_equals_flags(ls);
    assert(flags[i] == has_match(SINGLE_EQUALS@, text));
    lemma_lines_member(code, triggers, flags, code.len(), i);
    let lines = single_equals_lines(code, triggers, flags, code.len());
    let ds = single_equals_findings(file, ls);
    assert(ds.len() == lines.len());
    if lines.contains((i + 1) as nat) {
        let m = choose|m: int| 0 <= m < lines.len() && lines[m] == i + 1;
        assert(ds[m].line == i + 1);
    }
    if found_on_line(ds, (i + 1) as nat) {
        let m = choose|m: int| 0 <= m < ds.len() && (#[trigger] ds[m]).line == i + 1;
        assert(lines[m] == i + 1);
    }
}

// ----------------------------------------------------------------------------
// Missing semicolon
// ----------------------------------------------------------------------------

/// The characters that may end a statement line.
pub open spec fn is_terminator(c: char) -> bool {
    c == ';' || c == '{' || c == '}' || c == ','
}

proof fn lemma_semicolon_holds(
    file: PathBuf,
    ls: Seq<Seq<char>>,
    code: Seq<Seq<char>>,
    keywords: Seq<bool>,
    k: nat,
    i: int,
)
    requires
        0 <= i < k,
        semicolon_at(file, ls, code, keywords, i).len() > 0,
    ensures
        exists|m: int|
            0 <= m < semicolon_diags(file, ls, code, keywords, k).len() && #[trigger] semicolon_diags(
                file,
                ls,
                code,
                keywords,
                k,
            )[m] == semicolon_at(file, ls, code, keywords, i)[0],
    decreases k,
{
    let prev = semicolon_diags(file, ls, code, keywords, (k - 1) as nat);
    let all = semicolon_diags(file, ls, code, keywords, k);
    if i == k - 1 {
        assert(all[prev.len() as int] == semicolon_at(file, ls, code, keywords, i)[0]);
    } else {
        lemma_semicolon_holds(file, ls, code, keywords, (k - 1) as nat, i);
        let m = choose|m: int|
            0 <= m < prev.len() && #[trigger] prev[m] == semicolon_at(file, ls, code, keywords, i)[0];
        assert(all[m] == prev[m]);
    }
}

proof fn lemma_semicolon_origin(
    file: PathBuf,
    ls: Seq<Seq<char>>,
    code: Seq<Seq<char>>,
    keywords: Seq<bool>,
    k: nat,
)
    ensures
        forall|m: int|
            0 <= m < semicolon_diags(file, ls, code, keywords, k).len() ==> exists|j: int|
                0 <= j < k && semicolon_at(file, ls, code, keywords, j).len() > 0
                    && #[trigger] semicolon_diags(file, ls, code, keywords, k)[m] == semicolon_at(
                    file,
                    ls,
                    code,
                    keywords,
                    j,
                )[0],
    decreases k,
{
    if k > 0 {
        lemma_semicolon_origin(file, ls, code, keywords, (k - 1) as nat);
        let prev = semicolon_diags(file, ls, code, keywords, (k - 1) as nat);
        let all = semicolon_diags(file, ls, code, keywords, k);
        assert forall|m: int| 0 <= m < all.len() implies exists|j: int|
            0 <= j < k && semicolon_at(file, ls, code, keywords, j).len() > 0 && #[trigger] all[m]
                == semicolon_at(file, ls, code, keywords, j)[0] by {
            if m < prev.len() {
                let j = choose|j: int|
                    0 <= j < k - 1 && semicolon_at(file, ls, code, keywords, j).len() > 0
                        && #[trigger] prev[m] == semicolon_at(file, ls, code, keywords, j)[0];
                assert(all[m] == prev[m]);
            } else {
                assert(all[m] == semicolon_at(file, ls, code, keywords, k - 1)[0]);
            }
        }
    }
}

/// Outside any open parenthesis, before and after it, a non-empty line that
/// holds no statement keyword and whose trimmed code does not end with `;`,
/// `{`, `}` or `,` is reported at one past its end, with the fix that appends
/// `;`.
pub proof fn law_unterminated_statement_is_reported(file: PathBuf, ls: Seq<Seq<char>>, i: int)
    requires
        0 <= i < ls.len(),
        trim(cleaned_lines(ls)[i]).len() > 0,
        !is_terminator(trim(cleaned_lines(ls)[i]).last()),
        !statement_keywords(ls)[i],
        paren_depth(cleaned_lines(ls), i as nat) == 0,
        paren_depth(cleaned_lines(ls), (i + 1) as nat) == 0,
    ensures
        missing_semicolon_findings(file, ls).contains(
            diag(
                Severity::Warning,
                "Отсутствует точка с запятой."@,
                file,
                (i + 1) as nat,
                byte_len(ls[i]) + 1,
                "missing-semicolon"@,
                Some(ls[i] + ";"@),
            ),
        ),
{
    let code = cleaned_lines(ls);
    let keywords = statement_keywords(ls);
    assert(semicolon_at(file, ls, code, keywords, i).len() > 0);
    lemma_semicolon_holds(file, ls, code, keywords, ls.len(), i);
}

/// A line whose trimmed code is empty or ends with `;`, `{`, `}` or `,` is
/// never reported.
pub proof fn law_terminated_line_is_not_reported(file: PathBuf, ls: Seq<Seq<char>>, i: int)
    requires
        0 <= i < ls.len(),
        trim(cleaned_lines(ls)[i]).len() == 0 || is_terminator(trim(cleaned_lines(ls)[i]).last()),
    ensures
        !found_on_line(missing_semicolon_findings(file, ls), (i + 1) as nat),
{
    let code = cleaned_lines(ls);
    let keywords = statement_keywords(ls);
    let ds = missing_semicolon_findings(file, ls);
    lemma_semicolon_origin(file, ls, code, keywords, ls.len());
    assert(semicolon_at(file, ls, code, keywords, i).len() == 0);
    if found_on_line(ds, (i + 1) as nat) {
        let m = choose|m: int| 0 <= m < ds.len() && (#[trigger] ds[m]).line == i + 1;
        let j = choose|j: int|
            0 <= j < ls.len() && semicolon_at(file, ls, code, keywords, j).len() > 0
                && #[trigger] ds[m] == semicolon_at(file, ls, code, keywords, j)[0];
        assert(ds[m].line == j + 1);
    }
}

// ----------------------------------------------------------------------------
// Deprecated words
// ----------------------------------------------------------------------------

proof fn lemma_deprecated_holds(
    file: PathBuf,
    ls: Seq<Seq<char>>,
    fix: bool,
    records: Seq<Option<nat>>,
    arrays: Seq<Option<nat>>,
    k: nat,
    i: int,
    x: int,
)
    requires
        0 <= i < k,
        0 <= x < deprecated_at(file, ls, fix, records, arrays, i).len(),
    ensures
        deprecated_diags(file, ls, fix, records, arrays, k).contains(
            deprecated_at(file, ls, fix, records, arrays, i)[x],
        ),
    decreases k,
{
    let prev = deprecated_diags(file, ls, fix, records, arrays, (k - 1) as nat);
    let all = deprecated_diags(file, ls, fix, records, arrays, k);
    let d = deprecated_at(file, ls, fix, records, arrays, i)[x];
    if i == k - 1 {
        assert(all[prev.len() + x] == d);
    } else {
        lemma_deprecated_holds(file, ls, fix, records, arrays, (k - 1) as nat, i, x);
        let m = choose|m: int| 0 <= m < prev.len() && prev[m] == d;
        assert(all[m] == d);
    }
}

/// Every line whose cleaned text holds the word `record` is reported on its
/// own, at the byte column where the word first occurs, whatever the other
/// lines hold; likewise for `array`.
pub proof fn law_each_line_reports_its_deprecated_words(
    file: PathBuf,
    ls: Seq<Seq<char>>,
    fix: bool,
    i: int,
)
    requires
        0 <= i < ls.len(),
    ensures
        first_match(RECORD_WORD@, cleaned(ls, i)) matches Some(m) ==> deprecated_findings(
            file,
            ls,
            fix,
        ).contains(
            diag(
                Severity::Warning,
                "'record' устарел. Используйте 'TRecHandler'."@,
                file,
                (i + 1) as nat,
                m.0 + 1,
                "deprecated-record"@,
                if fix {
                    Some(replace_all(ls[i], "record"@, "TRecHandler"@))
                } else {
                    None
                },
            ),
        ),
        first_match(ARRAY_WORD@, cleaned(ls, i)) matches Some(m) ==> deprecated_findings(
            file,
            ls,
            fix,
        ).contains(
            diag(
                Severity::Warning,
                "'array' устарел. Используйте 'TArray'."@,
                file,
                (i + 1) as nat,
                m.0 + 1,
                "deprecated-array"@,
                if fix {
                    Some(replace_all(ls[i], "array"@, "TArray"@))
                } else {
                    None
                },
            ),
        ),
{
    reveal_strlit("'");
    reveal_strlit("' устарел. Используйте '");
    reveal_strlit("'.");
    reveal_strlit("deprecated-");
    reveal_strlit("record");
    reveal_strlit("array");
    reveal_strlit("TRecHandler");
    reveal_strlit("TArray");
    reveal_strlit("'record' устарел. Используйте 'TRecHandler'.");
    reveal_strlit("'array' устарел. Используйте 'TArray'.");
    reveal_strlit("deprecated-record");
    reveal_strlit("deprecated-array");
    assert("'"@ + "record"@ + "' устарел. Используйте '"@ + "TRecHandler"@ + "'."@
        =~= "'record' устарел. Используйте 'TRecHandler'."@);
    assert("'"@ + "array"@ + "' устарел. Используйте '"@ + "TArray"@ + "'."@
        =~= "'array' устарел. Используйте 'TArray'."@);
    assert("deprecated-"@ + "record"@ =~= "deprecated-record"@);
    assert("deprecated-"@ + "array"@ =~= "deprecated-array"@);
    let records = first_offsets(RECORD_WORD@, ls);
    let arrays = first_offsets(ARRAY_WORD@, ls);
    let at = deprecated_at(file, ls, fix, records, arrays, i);
    if first_match(RECORD_WORD@, cleaned(ls, i)) is Some {
        lemma_deprecated_holds(file, ls, fix, records, arrays, ls.len(), i, 0);
    }
    if first_match(ARRAY_WORD@, cleaned(ls, i)) is Some {
        let x = if records[i] is Some { 1int } else { 0int };
        lemma_deprecated_holds(file, ls, fix, records, arrays, ls.len(), i, x);
    }
}

/// `d` is one of the deprecated-word findings for one of the first `k` lines.
spec fn from_deprecated_line(
    d: DiagnosticView,
    file: PathBuf,
    ls: Seq<Seq<char>>,
    fix: bool,
    records: Seq<Option<nat>>,
    arrays: Seq<Option<nat>>,
    k: nat,
) -> bool {
    exists|j: int, x: int|
        0 <= j < k && 0 <= x < deprecated_at(file, ls, fix, records, arrays, j).len() && d
            == #[trigger] deprecated_at(file, ls, fix, records, arrays, j)[x]
}

proof fn lemma_deprecated_origin(
    file: PathBuf,
    ls: Seq<Seq<char>>,
    fix: bool,
    records: Seq<Option<nat>>,
    arrays: Seq<Option<nat>>,
    k: nat,
)
    ensures
        forall|m: int|
            0 <= m < deprecated_diags(file, ls, fix, records, arrays, k).len() ==> from_deprecated_line(
                #[trigger] deprecated_diags(file, ls, fix, records, arrays, k)[m],
                file,
                ls,
                fix,
                records,
                arrays,
                k,
            ),
    decreases k,
{
    if k > 0 {
        lemma_deprecated_origin(file, ls, fix, records, arrays, (k - 1) as nat);
        let prev = deprecated_diags(file, ls, fix, records, arrays, (k - 1) as nat);
        let all = deprecated_diags(file, ls, fix, records, arrays, k);
        let at = deprecated_at(file, ls, fix, records, arrays, k - 1);
        assert forall|m: int| 0 <= m < all.len() implies from_deprecated_line(
            #[trigger] all[m],
            file,
            ls,
            fix,
            records,
            arrays,
            k,
        ) by {
            if m < prev.len() {
                assert(all[m] == prev[m]);
                assert(from_deprecated_line(prev[m], file, ls, fix, records, arrays, (k - 1) as nat));
                let (j, x) = choose|j: int, x: int|
                    0 <= j < k - 1 && 0 <= x < deprecated_at(file, ls, fix, records, arrays, j).len()
                        && prev[m] == #[trigger] deprecated_at(file, ls, fix, records, arrays, j)[x];
                assert(all[m] == deprecated_at(file, ls, fix, records, arrays, j)[x]);
            } else {
                assert(all[m] == at[m - prev.len()]);
            }
        }
    }
}

/// A line whose cleaned text does not hold the word `record` draws no
/// deprecated-record finding; likewise for `array`.
pub proof fn law_deprecated_findings_need_the_word(file: PathBuf, ls: Seq<Seq<char>>, fix: bool, i: int)
    requires
        0 <= i < ls.len(),
    ensures
        first_match(RECORD_WORD@, cleaned(ls, i)) is None ==> forall|m: int|
            0 <= m < deprecated_findings(file, ls, fix).len() && (#[trigger] deprecated_findings(
                file,
                ls,
                fix,
            )[m]).line == i + 1 ==> deprecated_findings(file, ls, fix)[m].rule
                != "deprecated-record"@,
        first_match(ARRAY_WORD@, cleaned(ls, i)) is None ==> forall|m: int|
            0 <= m < deprecated_findings(file, ls, fix).len() && (#[trigger] deprecated_findings(
                file,
                ls,
                fix,
            )[m]).line == i + 1 ==> deprecated_findings(file, ls, fix)[m].rule
                != "deprecated-array"@,
{
    reveal_strlit("deprecated-");
    reveal_strlit("record");
    reveal_strlit("array");
    reveal_strlit("deprecated-record");
    reveal_strlit("deprecated-array");
    assert("deprecated-"@ + "record"@ =~= "deprecated-record"@);
    assert("deprecated-"@ + "array"@ =~= "deprecated-array"@);
    assert("deprecated-record"@.len() != "deprecated-array"@.len());
    let records = first_offsets(RECORD_WORD@, ls);
    let arrays = first_offsets(ARRAY_WORD@, ls);
    let ds = deprecated_findings(file, ls, fix);
    lemma_deprecated_origin(file, ls, fix, records, arrays, ls.len());
    assert forall|m: int| 0 <= m < ds.len() && (#[trigger] ds[m]).line == i + 1 implies (
    first_match(RECORD_WORD@, cleaned(ls, i)) is None ==> ds[m].rule != "deprecated-record"@) && (
    first_match(ARRAY_WORD@, cleaned(ls, i)) is None ==> ds[m].rule != "deprecated-array"@) by {
        assert(from_deprecated_line(ds[m], file, ls, fix, records, arrays, ls.len()));
        let (j, x) = choose|j: int, x: int|
            0 <= j < ls.len() && 0 <= x < deprecated_at(file, ls, fix, records, arrays, j).len()
                && ds[m] == #[trigger] deprecated_at(file, ls, fix, records, arrays, j)[x];
        assert(ds[m].line == j + 1);
        assert(j == i);
    }
}

} // verus!
