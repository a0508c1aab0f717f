//! Anchor handling and the search over start offsets: the whole match decision.

use vstd::prelude::*;
use crate::lexer::{chars_of, lex, tokenize_chars};
use crate::matcher::{attempt, match_tokens_at_position};
use crate::token::{PatternToken, TokenModel, tokens_view};

verus! {

/// The pattern begins with `^`.
pub open spec fn start_anchored(p: Seq<char>) -> bool {
    p.len() > 0 && p[0] == '^'
}

/// The pattern without its leading `^`, if it has one.
pub open spec fn after_start(p: Seq<char>) -> Seq<char> {
    if start_anchored(p) {
        p.skip(1)
    } else {
        p
    }
}

/// What is left after a leading `^` is removed ends with `$`.
pub open spec fn end_anchored(p: Seq<char>) -> bool {
    let q = after_start(p);
    q.len() > 0 && q.last() == '$'
}

/// The pattern with both anchors removed: the part that is tokenized.
pub open spec fn pattern_body(p: Seq<char>) -> Seq<char> {
    if end_anchored(p) {
        after_start(p).drop_last()
    } else {
        after_start(p)
    }
}

/// Matching `toks` from `start` succeeds, and reaches the end of the input
/// when the pattern is end-anchored.
pub open spec fn accepted_at(input: Seq<char>, toks: Seq<TokenModel>, end: bool, start: nat) -> bool {
    match attempt(input, toks, 0, start) {
        Some(e) => !end || e == input.len(),
        None => false,
    }
}

/// Some allowed start offset is accepted: only offset 0 when `start` holds,
/// else any offset from 0 to the input's length.
pub open spec fn search(input: Seq<char>, toks: Seq<TokenModel>, start: bool, end: bool) -> bool {
    if start {
        accepted_at(input, toks, end, 0)
    } else {
        exists|s: nat| s <= input.len() && #[trigger] accepted_at(input, toks, end, s)
    }
}

/// Whether `pattern` matches the (already trimmed) `input`.
pub open spec fn engine_matches(input: Seq<char>, pattern: Seq<char>) -> bool {
    let sa = start_anchored(pattern);
    let ea = end_anchored(pattern);
    let body = pattern_body(pattern);
    if (sa || ea) && body.len() == 0 {
        input.len() == 0
    } else {
        search(input, lex(body), sa, ea)
    }
}

/// Removes a leading `^` and then a trailing `$`, and reports which were there.
pub fn resolve_anchors(pattern: &Vec<char>) -> (r: (bool, bool, Vec<char>))
    ensures
        r.0 == start_anchored(pattern@),
        r.1 == end_anchored(pattern@),
        r.2@ == pattern_body(pattern@),
{
    let n = pattern.len();
    let start = n > 0 && pattern[0] == '^';
    let lo: usize = if start { 1 } else { 0 };
    let end = lo < n && pattern[n - 1] == '$';
    let hi: usize = if end { n - 1 } else { n };
    let mut body: Vec<char> = Vec::new();
    let mut i: usize = lo;
    while i < hi
        invariant
            lo <= i <= hi <= n,
            n == pattern.len(),
            body@ == pattern@.subrange(lo as int, i as int),
        decreases hi - i,
    {
        body.push(pattern[i]);
        i = i + 1;
        assert(body@ =~= pattern@.subrange(lo as int, i as int));
    }
    assert(after_start(pattern@) =~= pattern@.subrange(lo as int, n as int));
    assert(pattern_body(pattern@) =~= pattern@.subrange(lo as int, hi as int));
    (start, end, body)
}

fn accepted(input_chars: &Vec<char>, tokens: &Vec<PatternToken>, end: bool, start_pos: usize) -> (r:
    bool)
    ensures
        r == accepted_at(input_chars@, tokens_view(tokens@), end, start_pos as nat),
{
    match match_tokens_at_position(input_chars.as_slice(), tokens.as_slice(), start_pos) {
        Some(e) => !end || e == input_chars.len(),
        None => false,
    }
}

/// Tries the allowed start offsets in increasing order and reports whether
/// one is accepted.
pub fn search_offsets(input_chars: &Vec<char>, tokens: &Vec<PatternToken>, start: bool, end: bool) -> (r:
    bool)
    ensures
        r == search(input_chars@, tokens_view(tokens@), start, end),
{
    let ghost toks = tokens_view(tokens@);
    if start {
        return accepted(input_chars, tokens, end, 0);
    }
    let mut s: usize = 0;
    loop
        invariant
            s <= input_chars.len(),
            toks == tokens_view(tokens@),
            !start,
            forall|t: nat| t < s ==> !#[trigger] accepted_at(input_chars@, toks, end, t),
        decreases input_chars.len() - s,
    {
        if accepted(input_chars, tokens, end, s) {
            return true;
        }
        if s == input_chars.len() {
            assert forall|t: nat| t <= input_chars.len() implies !#[trigger] accepted_at(
                input_chars@,
                toks,
                end,
                t,
            ) by {
                if t < s {
                } else {
                    assert(t == s);
                }
            }
            return false;
        }
        s = s + 1;
    }
}

/// Matches `pattern` against an input line whose line ending has already been
/// removed.
pub fn match_trimmed(input: &str, pattern: &str) -> (r: bool)
    ensures
        r == engine_matches(input@, pattern@),
{
    let input_chars = chars_of(input);
    let p = chars_of(pattern);
    let (start, end, body) = resolve_anchors(&p);
    if (start || end) && body.len() == 0 {
        return input_chars.len() == 0;
    }
    let tokens = tokenize_chars(&body);
    search_offsets(&input_chars, &tokens, start, end)
}

/// What `str::trim_end` gives for a string: a function of its characters.
pub uninterp spec fn trimmed_end(s: Seq<char>) -> Seq<char>;

/// Relies on `str::trim_end`: the string with trailing whitespace removed.
#[verifier::external_body]
fn trim_line_end(s: &str) -> (r: &str)
    ensures
        r@ == trimmed_end(s@),
{
    s.trim_end()
}

/// Reports whether `pattern` matches `input_line` once trailing whitespace
/// (the line ending among it) is removed from the line.
pub fn match_pattern(input_line: &str, pattern: &str) -> (r: bool)
    ensures
        r == engine_matches(trimmed_end(input_line@), pattern@),
{
    let trimmed = trim_line_end(input_line);
    match_trimmed(trimmed, pattern)
}

} // verus!
