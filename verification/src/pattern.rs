//! Regular expressions, through the `regex` crate.
//!
//! What a regular expression matches is the `regex` crate's business; the
//! rules speak of it through the names below. A name stands for what the
//! crate computes from the pattern and the haystack alone.

use crate::text::{byte_len, chars_of};
use regex::Regex;
use vstd::prelude::*;

verus! {

/// `regex::Regex`, carried through as an opaque value.
#[verifier::external_type_specification]
#[verifier::external_body]
pub struct ExRegex(Regex);

/// Whether `regex::Regex::new(pattern)` succeeds.
pub uninterp spec fn regex_compiles(pattern: Seq<char>) -> bool;

/// The first match that `Regex::find` reports for `pattern` in `haystack`: its
/// byte offset and the matched text.
pub uninterp spec fn regex_find(pattern: Seq<char>, haystack: Seq<char>) -> Option<(nat, Seq<char>)>;

/// What `Regex::captures` reports for capture group `group` of the first match
/// of `pattern` in `haystack`: its byte offset and text, when the regex
/// matches and the group took part in the match.
pub uninterp spec fn regex_capture(pattern: Seq<char>, haystack: Seq<char>, group: nat) -> Option<
    (nat, Seq<char>),
>;

/// The number of successive non-overlapping matches of `pattern` in
/// `haystack` that `Regex::find_iter` yields.
pub uninterp spec fn regex_count(pattern: Seq<char>, haystack: Seq<char>) -> nat;

/// The first match of `pattern` in `haystack`; a pattern that does not compile
/// matches nothing.
pub open spec fn first_match(pattern: Seq<char>, haystack: Seq<char>) -> Option<(nat, Seq<char>)> {
    if regex_compiles(pattern) {
        regex_find(pattern, haystack)
    } else {
        None
    }
}

/// Whether `pattern` matches somewhere in `haystack`.
pub open spec fn has_match(pattern: Seq<char>, haystack: Seq<char>) -> bool {
    first_match(pattern, haystack) is Some
}

/// Capture group `group` of the first match of `pattern` in `haystack`.
pub open spec fn first_capture(pattern: Seq<char>, haystack: Seq<char>, group: nat) -> Option<
    (nat, Seq<char>),
> {
    if regex_compiles(pattern) {
        regex_capture(pattern, haystack, group)
    } else {
        None
    }
}

/// The number of non-overlapping matches of `pattern` in `haystack`.
pub open spec fn match_count(pattern: Seq<char>, haystack: Seq<char>) -> nat {
    if regex_compiles(pattern) {
        regex_count(pattern, haystack)
    } else {
        0
    }
}

/// Characters that `regex::escape` prefixes with a backslash.
pub open spec fn is_regex_meta(c: char) -> bool {
    ||| c == '\\'
    ||| c == '.'
    ||| c == '+'
    ||| c == '*'
    ||| c == '?'
    ||| c == '('
    ||| c == ')'
    ||| c == '|'
    ||| c == '['
    ||| c == ']'
    ||| c == '{'
    ||| c == '}'
    ||| c == '^'
    ||| c == '$'
    ||| c == '#'
    ||| c == '&'
    ||| c == '-'
    ||| c == '~'
}

/// `s` with every regex meta character prefixed by a backslash.
pub open spec fn regex_escaped(s: Seq<char>) -> Seq<char>
    decreases s.len(),
{
    if s.len() == 0 {
        seq![]
    } else if is_regex_meta(s.last()) {
        regex_escaped(s.drop_last()).push('\\').push(s.last())
    } else {
        regex_escaped(s.drop_last()).push(s.last())
    }
}

/// A compiled regular expression and the pattern it was compiled from.
pub struct Pattern {
    source: String,
    re: Regex,
}

impl Pattern {
    /// The pattern this regular expression was compiled from.
    pub closed spec fn source(&self) -> Seq<char> {
        self.source@
    }

    /// Calls `Regex::find` and returns the match's byte offset and text.
    /// Claims that the result is the named first match, and that the match
    /// lies within the haystack, as the crate documents for `Match::start`
    /// and `Match::end`.
    #[verifier::external_body]
    pub(crate) fn find(&self, haystack: &str) -> (r: Option<(usize, String)>)
        ensures
            r matches Some(m) ==> regex_find(self.source(), haystack@) == Some(
                (m.0 as nat, m.1@),
            ),
            r is None ==> regex_find(self.source(), haystack@) is None,
            r matches Some(m) ==> m.0 + byte_len(m.1@) <= byte_len(haystack@),
    {
        match self.re.find(haystack) {
            Some(m) => Some((m.start(), m.as_str().to_string())),
            None => None,
        }
    }

    /// Calls `Regex::captures` and returns capture group `group` of the first
    /// match: its byte offset and text. Claims that the result is the named
    /// capture, and that it lies within the haystack.
    #[verifier::external_body]
    pub(crate) fn capture(&self, haystack: &str, group: usize) -> (r: Option<(usize, String)>)
        ensures
            r matches Some(m) ==> regex_capture(self.source(), haystack@, group as nat) == Some(
                (m.0 as nat, m.1@),
            ),
            r is None ==> regex_capture(self.source(), haystack@, group as nat) is None,
            r matches Some(m) ==> m.0 + byte_len(m.1@) <= byte_len(haystack@),
    {
        match self.re.captures(haystack) {
            Some(caps) => match caps.get(group) {
                Some(m) => Some((m.start(), m.as_str().to_string())),
                None => None,
            },
            None => None,
        }
    }

    /// Counts the matches that `Regex::find_iter` yields. Claims that the
    /// count is the named count.
    #[verifier::external_body]
    pub(crate) fn count(&self, haystack: &str) -> (r: usize)
        ensures
            r == regex_count(self.source(), haystack@),
    {
        self.re.find_iter(haystack).count()
    }
}

/// Calls `Regex::new`. Claims that it succeeds exactly when the pattern
/// compiles, and that the result remembers the pattern it was compiled from.
#[verifier::external_body]
pub(crate) fn compile(source: &str) -> (r: Option<Pattern>)
    ensures
        r is Some <==> regex_compiles(source@),
        r matches Some(p) ==> p.source() == source@,
{
    match Regex::new(source) {
        Ok(re) => Some(Pattern { source: source.to_string(), re }),
        Err(_) => None,
    }
}

/// Whether `c` is a regex meta character.
fn is_meta(c: char) -> (r: bool)
    ensures
        r == is_regex_meta(c),
{
    c == '\\' || c == '.' || c == '+' || c == '*' || c == '?' || c == '(' || c == ')' || c == '|'
        || c == '[' || c == ']' || c == '{' || c == '}' || c == '^' || c == '$' || c == '#' || c
        == '&' || c == '-' || c == '~'
}

/// `text` with every regex meta character prefixed by a backslash, so that
/// the result, as a pattern, matches `text` literally.
pub(crate) fn escape(text: &str) -> (r: String)
    ensures
        r@ == regex_escaped(text@),
{
    let v = chars_of(text);
    let mut r = String::new();
    let mut i: usize = 0;
    assert(v@.take(0) =~= Seq::<char>::empty());
    while i < v.len()
        invariant
            i <= v.len(),
            v@ == text@,
            r@ == regex_escaped(v@.take(i as int)),
        decreases v.len() - i,
    {
        let c = v[i];
        let ghost before = v@.take(i as int);
        if is_meta(c) {
            r.push('\\');
        }
        r.push(c);
        i = i + 1;
        assert(v@.take(i as int).drop_last() =~= before);
        assert(v@.take(i as int).last() == c);
    }
    assert(v@.take(v.len() as int) =~= v@);
    r
}

/// A pattern compiled from `source`, or nothing when it does not compile.
pub open spec fn compiled_from(p: Option<Pattern>, source: Seq<char>) -> bool {
    &&& (p is Some <==> regex_compiles(source))
    &&& (p matches Some(q) ==> q.source() == source)
}

/// The first match of an optionally compiled pattern.
pub(crate) fn find_first(p: &Option<Pattern>, Ghost(source): Ghost<Seq<char>>, haystack: &str) -> (r:
    Option<(usize, String)>)
    requires
        compiled_from(*p, source),
    ensures
        r matches Some(m) ==> first_match(source, haystack@) == Some((m.0 as nat, m.1@)),
        r is None ==> first_match(source, haystack@) is None,
        r matches Some(m) ==> m.0 + byte_len(m.1@) <= byte_len(haystack@),
{
    match p {
        Some(q) => q.find(haystack),
        None => None,
    }
}

/// Whether an optionally compiled pattern matches.
pub(crate) fn is_match(p: &Option<Pattern>, Ghost(source): Ghost<Seq<char>>, haystack: &str) -> (r: bool)
    requires
        compiled_from(*p, source),
    ensures
        r == has_match(source, haystack@),
{
    find_first(p, Ghost(source), haystack).is_some()
}

/// Capture group `group` of the first match of an optionally compiled pattern.
pub(crate) fn capture_first(
    p: &Option<Pattern>,
    Ghost(source): Ghost<Seq<char>>,
    haystack: &str,
    group: usize,
) -> (r: Option<(usize, String)>)
    requires
        compiled_from(*p, source),
    ensures
        r matches Some(m) ==> first_capture(source, haystack@, group as nat) == Some(
            (m.0 as nat, m.1@),
        ),
        r is None ==> first_capture(source, haystack@, group as nat) is None,
        r matches Some(m) ==> m.0 + byte_len(m.1@) <= byte_len(haystack@),
{
    match p {
        Some(q) => q.capture(haystack, group),
        None => None,
    }
}

/// The number of matches of an optionally compiled pattern.
pub(crate) fn count_matches(p: &Option<Pattern>, Ghost(source): Ghost<Seq<char>>, haystack: &str) -> (r:
    usize)
    requires
        compiled_from(*p, source),
    ensures
        r == match_count(source, haystack@),
{
    match p {
        Some(q) => q.count(haystack),
        None => 0,
    }
}

} // verus!
