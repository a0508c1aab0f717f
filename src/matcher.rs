//! The backtracking matcher: consumes tokens against input characters.

use vstd::prelude::*;
use crate::token::{AtomModel, PatternToken, TokenModel, accepts, matches_token, tokens_view};

verus! {

/// How many characters from `pos` on the atom accepts in a row.
pub open spec fn run_len(input: Seq<char>, a: AtomModel, pos: nat) -> nat
    decreases input.len() - pos,
{
    if pos < input.len() && accepts(a, input[pos as int]) {
        1 + run_len(input, a, pos + 1)
    } else {
        0
    }
}

/// Matches `toks[ti..]` against `input` from offset `pos`, and gives the offset
/// just past the last character consumed. A `+` tries its longest run first and
/// then one fewer each time, down to one; a `?` tries one, then zero.
pub open spec fn attempt(input: Seq<char>, toks: Seq<TokenModel>, ti: nat, pos: nat) -> Option<nat>
    decreases toks.len() - ti + 1, 0int,
{
    if ti >= toks.len() {
        Some(pos)
    } else {
        match toks[ti as int] {
            TokenModel::Single(a) => {
                if pos < input.len() && accepts(a, input[pos as int]) {
                    attempt(input, toks, ti + 1, pos + 1)
                } else {
                    None
                }
            },
            TokenModel::Plus(a) => {
                let k = run_len(input, a, pos);
                if k == 0 {
                    None
                } else {
                    try_counts(input, toks, ti + 1, pos, k)
                }
            },
            TokenModel::Question(a) => {
                if pos < input.len() && accepts(a, input[pos as int]) {
                    match attempt(input, toks, ti + 1, pos + 1) {
                        Some(e) => Some(e),
                        None => attempt(input, toks, ti + 1, pos),
                    }
                } else {
                    attempt(input, toks, ti + 1, pos)
                }
            },
        }
    }
}

/// Tries the tokens from `next` on at `pos + n`, `pos + n - 1`, ..., `pos + 1`,
/// and gives the first success.
pub open spec fn try_counts(
    input: Seq<char>,
    toks: Seq<TokenModel>,
    next: nat,
    pos: nat,
    n: nat,
) -> Option<nat>
    decreases toks.len() - next + 1, n + 1,
{
    if n == 0 {
        None
    } else {
        match attempt(input, toks, next, pos + n) {
            Some(e) => Some(e),
            None => try_counts(input, toks, next, pos, (n - 1) as nat),
        }
    }
}

/// `r` is the offset that the model `m` gives, or both are absent.
pub open spec fn same_end(r: Option<usize>, m: Option<nat>) -> bool {
    match r {
        Some(e) => m == Some(e as nat),
        None => m is None,
    }
}

fn backtrack_match(input_chars: &[char], tokens: &[PatternToken], pos: usize, token_idx: usize) -> (r:
    Option<usize>)
    ensures
        same_end(r, attempt(input_chars@, tokens_view(tokens@), token_idx as nat, pos as nat)),
    decreases tokens.len() - token_idx,
{
    let ghost toks = tokens_view(tokens@);
    if token_idx >= tokens.len() {
        return Some(pos);
    }
    assert(toks[token_idx as int] == tokens@[token_idx as int]@);
    match &tokens[token_idx] {
        PatternToken::Single(a) => {
            if pos >= input_chars.len() || !matches_token(input_chars[pos], a) {
                return None;
            }
            backtrack_match(input_chars, tokens, pos + 1, token_idx + 1)
        },
        PatternToken::Plus(a) => {
            if pos >= input_chars.len() || !matches_token(input_chars[pos], a) {
                return None;
            }
            let mut max_matches: usize = 1;
            while pos + max_matches < input_chars.len() && matches_token(
                input_chars[pos + max_matches],
                a,
            )
                invariant
                    1 <= max_matches,
                    pos + max_matches <= input_chars.len(),
                    run_len(input_chars@, a@, pos as nat) == max_matches + run_len(
                        input_chars@,
                        a@,
                        (pos + max_matches) as nat,
                    ),
                decreases input_chars.len() - pos - max_matches,
            {
                max_matches = max_matches + 1;
            }
            let ghost k = run_len(input_chars@, a@, pos as nat);
            assert(k == max_matches);
            assert(attempt(input_chars@, toks, token_idx as nat, pos as nat) == try_counts(
                input_chars@,
                toks,
                (token_idx + 1) as nat,
                pos as nat,
                k,
            ));
            let mut n: usize = max_matches;
            while n > 0
                invariant
                    n <= max_matches,
                    pos + max_matches <= input_chars.len(),
                    token_idx < tokens.len(),
                    toks == tokens_view(tokens@),
                    attempt(input_chars@, toks, token_idx as nat, pos as nat) == try_counts(
                        input_chars@,
                        toks,
                        (token_idx + 1) as nat,
                        pos as nat,
                        k,
                    ),
                    try_counts(input_chars@, toks, (token_idx + 1) as nat, pos as nat, k)
                        == try_counts(input_chars@, toks, (token_idx + 1) as nat, pos as nat, n as nat),
                decreases n,
            {
                let found = backtrack_match(input_chars, tokens, pos + n, token_idx + 1);
                if let Some(e) = found {
                    return Some(e);
                }
                n = n - 1;
            }
            None
        },
        PatternToken::Question(a) => {
            if pos < input_chars.len() && matches_token(input_chars[pos], a) {
                let found = backtrack_match(input_chars, tokens, pos + 1, token_idx + 1);
                if found.is_some() {
                    return found;
                }
            }
            backtrack_match(input_chars, tokens, pos, token_idx + 1)
        },
    }
}

/// Matches all of `tokens` against `input_chars` from `start_pos`; on success
/// gives the offset just past the last character consumed.
pub fn match_tokens_at_position(input_chars: &[char], tokens: &[PatternToken], start_pos: usize) -> (r:
    Option<usize>)
    ensures
        same_end(r, attempt(input_chars@, tokens_view(tokens@), 0, start_pos as nat)),
{
    backtrack_match(input_chars, tokens, start_pos, 0)
}

} // verus!
