//! Tracking block comments and string literals across the lines of a file.
//!
//! `Scrubber` follows block comments while the unclosed-string rule scans a
//! line; `CodeCleaner` blanks out comments and the contents of string
//! literals so that the other rules only see code.

use crate::text::{
    byte_len, byte_len_prefix, char_width, chars_of, lemma_byte_len_append, lemma_byte_len_bounds,
    lemma_byte_len_spaces, spaces, utf8_width, views_of_strings, views_of_strs,
};
use vstd::prelude::*;

verus! {

// ----------------------------------------------------------------------------
// Specifications
// ----------------------------------------------------------------------------

/// Scanning `s` for the unclosed-string rule, starting inside a block comment
/// or not and inside a string literal or not: whether the scan ends inside a
/// string literal, and whether it ends inside a block comment.
/// `/*` and `//` are recognised even inside string literals.
pub open spec fn scrub(s: Seq<char>, in_comment: bool, in_string: bool) -> (bool, bool)
    decreases s.len(),
{
    if s.len() == 0 {
        (in_string, in_comment)
    } else if in_comment {
        if s[0] == '*' && s.len() > 1 && s[1] == '/' {
            scrub(s.skip(2), false, in_string)
        } else {
            scrub(s.skip(1), true, in_string)
        }
    } else if s[0] == '/' && s.len() > 1 && s[1] == '*' {
        scrub(s.skip(2), true, in_string)
    } else if s[0] == '/' && s.len() > 1 && s[1] == '/' {
        (in_string, false)
    } else if s[0] == '"' {
        scrub(s.skip(1), false, !in_string)
    } else {
        scrub(s.skip(1), false, in_string)
    }
}

/// Whether the unclosed-string scan is inside a block comment after the first
/// `k` lines.
pub open spec fn scrub_comment_after(lines: Seq<Seq<char>>, k: nat) -> bool
    decreases k,
{
    if k == 0 || k > lines.len() {
        false
    } else {
        let before = scrub_comment_after(lines, (k - 1) as nat);
        scrub(lines[k - 1], before, false).1
    }
}

/// Whether line `i` ends inside a string literal, for the unclosed-string rule.
pub open spec fn line_has_open_string(lines: Seq<Seq<char>>, i: int) -> bool {
    scrub(lines[i], scrub_comment_after(lines, i as nat), false).0
}

/// The code of `s` with comments and string contents blanked, before
/// padding, and whether the line ends inside a block comment.
/// A block comment's characters become one space each, except that `*/`
/// becomes a single space and `/*` two; a string's characters become one
/// space each while its quotes stay; `//` outside a string ends the line.
pub open spec fn clean_chars(s: Seq<char>, in_comment: bool, in_string: bool) -> (
    Seq<char>,
    bool,
)
    decreases s.len(),
{
    if s.len() == 0 {
        (seq![], in_comment)
    } else if in_comment {
        if s[0] == '*' && s.len() > 1 && s[1] == '/' {
            let r = clean_chars(s.skip(2), false, in_string);
            (seq![' '] + r.0, r.1)
        } else {
            let r = clean_chars(s.skip(1), true, in_string);
            (seq![' '] + r.0, r.1)
        }
    } else if !in_string && s[0] == '/' && s.len() > 1 && s[1] == '*' {
        let r = clean_chars(s.skip(2), true, in_string);
        (seq![' ', ' '] + r.0, r.1)
    } else if !in_string && s[0] == '/' && s.len() > 1 && s[1] == '/' {
        (seq![], false)
    } else if s[0] == '"' {
        let r = clean_chars(s.skip(1), false, !in_string);
        (seq!['"'] + r.0, r.1)
    } else if in_string {
        let r = clean_chars(s.skip(1), false, true);
        (seq![' '] + r.0, r.1)
    } else {
        let r = clean_chars(s.skip(1), false, false);
        (seq![s[0]] + r.0, r.1)
    }
}

/// `out` followed by spaces up to `n` bytes.
pub open spec fn pad_to(out: Seq<char>, n: nat) -> Seq<char> {
    if byte_len(out) < n {
        out + spaces((n - byte_len(out)) as nat)
    } else {
        out
    }
}

/// The cleaned form of `line` when the previous line ended inside a block
/// comment or not, padded with spaces to the byte length of `line`, and
/// whether `line` ends inside a block comment.
pub open spec fn clean_line(line: Seq<char>, in_comment: bool) -> (Seq<char>, bool) {
    let r = clean_chars(line, in_comment, false);
    (pad_to(r.0, byte_len(line)), r.1)
}

/// Whether the cleaner is inside a block comment after the first `k` lines.
pub open spec fn comment_after(lines: Seq<Seq<char>>, k: nat) -> bool
    decreases k,
{
    if k == 0 || k > lines.len() {
        false
    } else {
        clean_line(lines[k - 1], comment_after(lines, (k - 1) as nat)).1
    }
}

/// The cleaned form of line `i` of a file.
pub open spec fn cleaned(lines: Seq<Seq<char>>, i: int) -> Seq<char> {
    clean_line(lines[i], comment_after(lines, i as nat)).0
}

// ----------------------------------------------------------------------------
// Lemmas
// ----------------------------------------------------------------------------

proof fn lemma_byte_len_cons(c: char, s: Seq<char>)
    ensures
        byte_len(seq![c] + s) == char_width(c) + byte_len(s),
{
    lemma_byte_len_append(seq![c], s);
    assert(seq![c].drop_last() =~= Seq::<char>::empty());
    assert(byte_len(Seq::<char>::empty()) == 0);
    assert(byte_len(seq![c]) == byte_len(seq![c].drop_last()) + char_width(seq![c].last()));
}

proof fn lemma_byte_len_split(s: Seq<char>, k: int)
    requires
        0 <= k <= s.len(),
    ensures
        byte_len(s) == byte_len(s.take(k)) + byte_len(s.skip(k)),
        byte_len(s.take(k)) >= k,
{
    lemma_byte_len_append(s.take(k), s.skip(k));
    assert(s.take(k) + s.skip(k) =~= s);
    lemma_byte_len_bounds(s.take(k));
}

/// Cleaning never lengthens a line's encoding.
pub proof fn lemma_clean_chars_bytes(s: Seq<char>, in_comment: bool, in_string: bool)
    ensures
        byte_len(clean_chars(s, in_comment, in_string).0) <= byte_len(s),
    decreases s.len(),
{
    if s.len() == 0 {
    } else {
        lemma_byte_len_split(s, 1);
        if s.len() >= 2 {
            lemma_byte_len_split(s, 2);
        }
        if in_comment {
            if s[0] == '*' && s.len() > 1 && s[1] == '/' {
                let r = clean_chars(s.skip(2), false, in_string);
                lemma_clean_chars_bytes(s.skip(2), false, in_string);
                lemma_byte_len_cons(' ', r.0);
            } else {
                let r = clean_chars(s.skip(1), true, in_string);
                lemma_clean_chars_bytes(s.skip(1), true, in_string);
                lemma_byte_len_cons(' ', r.0);
            }
        } else if !in_string && s[0] == '/' && s.len() > 1 && s[1] == '*' {
            let r = clean_chars(s.skip(2), true, in_string);
            lemma_clean_chars_bytes(s.skip(2), true, in_string);
            lemma_byte_len_cons(' ', r.0);
            lemma_byte_len_cons(' ', seq![' '] + r.0);
            assert(seq![' ', ' '] + r.0 =~= seq![' '] + (seq![' '] + r.0));
        } else if !in_string && s[0] == '/' && s.len() > 1 && s[1] == '/' {
        } else if s[0] == '"' {
            let r = clean_chars(s.skip(1), false, !in_string);
            lemma_clean_chars_bytes(s.skip(1), false, !in_string);
            lemma_byte_len_cons('"', r.0);
        } else if in_string {
            let r = clean_chars(s.skip(1), false, true);
            lemma_clean_chars_bytes(s.skip(1), false, true);
            lemma_byte_len_cons(' ', r.0);
        } else {
            let r = clean_chars(s.skip(1), false, false);
            lemma_clean_chars_bytes(s.skip(1), false, false);
            lemma_byte_len_cons(s[0], r.0);
        }
        assert(s.take(1) =~= seq![s[0]]);
        lemma_byte_len_cons(s[0], Seq::<char>::empty());
        assert(seq![s[0]] + Seq::<char>::empty() =~= seq![s[0]]);
    }
}

/// A cleaned line has exactly the byte length of the line it came from.
pub proof fn lemma_clean_line_bytes(line: Seq<char>, in_comment: bool)
    ensures
        byte_len(clean_line(line, in_comment).0) == byte_len(line),
{
    let r = clean_chars(line, in_comment, false);
    lemma_clean_chars_bytes(line, in_comment, false);
    if byte_len(r.0) < byte_len(line) {
        let n = (byte_len(line) - byte_len(r.0)) as nat;
        lemma_byte_len_append(r.0, spaces(n));
        lemma_byte_len_spaces(n);
    }
}

// ----------------------------------------------------------------------------
// Executable scanners
// ----------------------------------------------------------------------------

/// Follows block comments line by line for the unclosed-string rule.
pub struct Scrubber {
    pub in_block_comment: bool,
}

impl Scrubber {
    pub fn new() -> (r: Self)
        ensures
            !r.in_block_comment,
    {
        Self { in_block_comment: false }
    }

    /// Scans one line; returns whether it ends inside a string literal.
    pub fn scan(&mut self, v: &Vec<char>) -> (in_string: bool)
        ensures
            (in_string, final(self).in_block_comment) == scrub(v@, old(self).in_block_comment, false),
    {
        let n = v.len();
        let mut in_comment = self.in_block_comment;
        let mut in_string = false;
        let mut i: usize = 0;
        assert(v@.skip(0) =~= v@);
        while i < n
            invariant
                i <= n == v.len(),
                scrub(v@, old(self).in_block_comment, false) == scrub(
                    v@.skip(i as int),
                    in_comment,
                    in_string,
                ),
            decreases n - i,
        {
            let ghost rest = v@.skip(i as int);
            assert(rest[0] == v@[i as int]);
            let c = v[i];
            let pair = i + 1 < n && v[i + 1] == '/';
            let star = i + 1 < n && v[i + 1] == '*';
            if i + 1 < n {
                assert(rest[1] == v@[i + 1]);
                assert(rest.skip(2) =~= v@.skip(i + 2));
            }
            assert(rest.skip(1) =~= v@.skip(i + 1));
            if in_comment {
                if c == '*' && pair {
                    in_comment = false;
                    i = i + 2;
                } else {
                    i = i + 1;
                }
            } else if c == '/' && star {
                in_comment = true;
                i = i + 2;
            } else if c == '/' && pair {
                assert(v@.skip(n as int) =~= Seq::<char>::empty());
                i = n;
            } else {
                if c == '"' {
                    in_string = !in_string;
                }
                i = i + 1;
            }
        }
        assert(v@.skip(n as int) =~= Seq::<char>::empty());
        self.in_block_comment = in_comment;
        in_string
    }
}

/// Blanks out comments and string contents, line by line.
pub struct CodeCleaner {
    pub in_block_comment: bool,
}

impl CodeCleaner {
    pub fn new() -> (r: Self)
        ensures
            !r.in_block_comment,
    {
        Self { in_block_comment: false }
    }

    /// The cleaned form of `line`, which has the byte length of `line`.
    pub fn clean(&mut self, line: &str) -> (r: String)
        requires
            byte_len(line@) <= usize::MAX,
        ensures
            (r@, final(self).in_block_comment) == clean_line(line@, old(self).in_block_comment),
            byte_len(r@) == byte_len(line@),
    {
        let v = chars_of(line);
        let n = v.len();
        let ghost start = self.in_block_comment;
        let ghost full = clean_chars(line@, start, false).0;
        let mut in_comment = self.in_block_comment;
        let mut in_string = false;
        let mut result = String::new();
        let mut out_bytes: usize = 0;
        let mut i: usize = 0;
        proof {
            lemma_clean_chars_bytes(line@, start, false);
        }
        assert(v@.skip(0) =~= v@);
        assert(result@ + clean_chars(v@.skip(0), in_comment, in_string).0 =~= full);
        while i < n
            invariant
                i <= n == v.len(),
                v@ == line@,
                byte_len(full) <= byte_len(line@) <= usize::MAX,
                full == clean_chars(line@, start, false).0,
                full == result@ + clean_chars(v@.skip(i as int), in_comment, in_string).0,
                clean_chars(line@, start, false).1 == clean_chars(
                    v@.skip(i as int),
                    in_comment,
                    in_string,
                ).1,
                out_bytes == byte_len(result@),
            decreases n - i,
        {
            let ghost rest = v@.skip(i as int);
            let ghost before = result@;
            let ghost ic = in_comment;
            let ghost is = in_string;
            assert(rest[0] == v@[i as int]);
            let c = v[i];
            let pair = i + 1 < n && v[i + 1] == '/';
            let star = i + 1 < n && v[i + 1] == '*';
            if i + 1 < n {
                assert(rest[1] == v@[i + 1]);
                assert(rest.skip(2) =~= v@.skip(i + 2));
            }
            assert(rest.skip(1) =~= v@.skip(i + 1));
            if in_comment {
                if c == '*' && pair {
                    in_comment = false;
                    i = i + 2;
                } else {
                    i = i + 1;
                }
                result.push(' ');
                let ghost tail = clean_chars(v@.skip(i as int), in_comment, in_string).0;
                assert(result@ =~= before + seq![' ']);
                assert(clean_chars(rest, ic, is).0 == seq![' '] + tail);
                assert(before + (seq![' '] + tail) =~= result@ + tail);
                proof {
                    lemma_byte_len_append(result@, tail);
                    lemma_byte_len_cons(' ', Seq::<char>::empty());
                    lemma_byte_len_append(before, seq![' ']);
                    assert(seq![' '] + Seq::<char>::empty() =~= seq![' ']);
                }
                out_bytes = out_bytes + 1;
            } else if !in_string && c == '/' && star {
                in_comment = true;
                i = i + 2;
                result.push(' ');
                result.push(' ');
                let ghost tail = clean_chars(v@.skip(i as int), in_comment, in_string).0;
                assert(result@ =~= before + seq![' ', ' ']);
                assert(clean_chars(rest, ic, is).0 == seq![' ', ' '] + tail);
                assert(before + (seq![' ', ' '] + tail) =~= result@ + tail);
                proof {
                    lemma_byte_len_append(result@, tail);
                    lemma_byte_len_append(before, seq![' ', ' ']);
                    lemma_byte_len_cons(' ', seq![' ']);
                    lemma_byte_len_cons(' ', Seq::<char>::empty());
                    assert(seq![' '] + Seq::<char>::empty() =~= seq![' ']);
                    assert(seq![' '] + seq![' '] =~= seq![' ', ' ']);
                }
                out_bytes = out_bytes + 2;
            } else if !in_string && c == '/' && pair {
                assert(v@.skip(n as int) =~= Seq::<char>::empty());
                assert(result@ + Seq::<char>::empty() =~= result@);
                i = n;
            } else {
                let d = if c == '"' {
                    in_string = !in_string;
                    '"'
                } else if in_string {
                    ' '
                } else {
                    c
                };
                i = i + 1;
                result.push(d);
                let ghost tail = clean_chars(v@.skip(i as int), in_comment, in_string).0;
                assert(result@ =~= before + seq![d]);
                assert(clean_chars(rest, ic, is).0 == seq![d] + tail);
                assert(before + (seq![d] + tail) =~= result@ + tail);
                proof {
                    lemma_byte_len_append(result@, tail);
                    lemma_byte_len_append(before, seq![d]);
                    lemma_byte_len_cons(d, Seq::<char>::empty());
                    assert(seq![d] + Seq::<char>::empty() =~= seq![d]);
                }
                out_bytes = out_bytes + utf8_width(d);
            }
        }
        assert(v@.skip(n as int) =~= Seq::<char>::empty());
        assert(result@ + Seq::<char>::empty() =~= result@);
        let line_bytes = byte_len_prefix(&v, n);
        assert(v@.take(n as int) =~= v@);
        let ghost base = result@;
        while out_bytes < line_bytes
            invariant
                byte_len(base) <= out_bytes <= line_bytes || (out_bytes == byte_len(base)
                    && line_bytes <= out_bytes),
                result@ == base + spaces((out_bytes - byte_len(base)) as nat),
            decreases line_bytes - out_bytes,
        {
            result.push(' ');
            out_bytes = out_bytes + 1;
            assert(result@ =~= base + spaces((out_bytes - byte_len(base)) as nat));
        }
        proof {
            if byte_len(base) >= line_bytes {
                assert(result@ =~= base);
            }
        }
        self.in_block_comment = in_comment;
        proof {
            lemma_clean_line_bytes(line@, start);
        }
        result
    }
}

/// The cleaned forms of all lines of a file.
pub open spec fn cleaned_lines(lines: Seq<Seq<char>>) -> Seq<Seq<char>> {
    Seq::new(lines.len(), |i: int| cleaned(lines, i))
}

/// Cleans every line of a file, carrying block comments from line to line.
pub fn clean_all(lines: &[&str]) -> (r: Vec<String>)
    requires
        forall|i: int| 0 <= i < lines@.len() ==> #[trigger] byte_len(lines@[i]@) <= usize::MAX,
    ensures
        views_of_strings(r@) == cleaned_lines(views_of_strs(lines@)),
{
    let ghost ls = views_of_strs(lines@);
    let mut cleaner = CodeCleaner::new();
    let mut out: Vec<String> = Vec::new();
    let mut i: usize = 0;
    while i < lines.len()
        invariant
            i <= lines@.len(),
            ls == views_of_strs(lines@),
            forall|j: int| 0 <= j < lines@.len() ==> #[trigger] byte_len(lines@[j]@) <= usize::MAX,
            cleaner.in_block_comment == comment_after(ls, i as nat),
            views_of_strings(out@) == cleaned_lines(ls).take(i as int),
        decreases lines.len() - i,
    {
        assert(lines@[i as int]@ == ls[i as int]);
        let ghost prev = out@;
        let c = cleaner.clean(lines[i]);
        assert(c@ == cleaned(ls, i as int));
        out.push(c);
        assert(views_of_strings(out@) =~= views_of_strings(prev).push(c@));
        assert(views_of_strings(out@) =~= cleaned_lines(ls).take(i + 1));
        i = i + 1;
    }
    assert(cleaned_lines(ls).take(lines@.len() as int) =~= cleaned_lines(ls));
    out
}

} // verus!
