//! Properties of the engine as a whole, stated over the models and proved.

use vstd::prelude::*;
use crate::engine::{accepted_at, end_anchored, engine_matches, pattern_body, start_anchored};
use crate::lexer::lex;
use crate::matcher::{attempt, run_len, try_counts};
use crate::token::{AtomModel, PatternToken, TokenModel, accepts, tokens_view};

verus! {

/// No token carries a quantifier.
pub open spec fn all_single(toks: Seq<TokenModel>) -> bool {
    forall|i: int| 0 <= i < toks.len() ==> #[trigger] toks[i] is Single
}

/// The characters of `input` from `start` on satisfy the tokens' atoms
/// pairwise, in order, and all lie inside the input.
pub open spec fn window_matches(input: Seq<char>, toks: Seq<TokenModel>, start: int) -> bool {
    &&& 0 <= start
    &&& start + toks.len() <= input.len()
    &&& forall|i: int| 0 <= i < toks.len() ==> accepts(#[trigger] toks[i].atom(), input[start + i])
}

/// From token `ti` on, each token's atom accepts the character that lies
/// `i - ti` places after `pos`, inside the input.
pub open spec fn fits_from(input: Seq<char>, toks: Seq<TokenModel>, ti: int, pos: int) -> bool {
    forall|i: int|
        ti <= i < toks.len() ==> pos + i - ti < input.len() && accepts(
            #[trigger] toks[i].atom(),
            input[pos + i - ti],
        )
}

proof fn lemma_fits_step(input: Seq<char>, toks: Seq<TokenModel>, ti: int, pos: int)
    requires
        0 <= ti < toks.len(),
        0 <= pos,
    ensures
        fits_from(input, toks, ti, pos) <==> (pos < input.len() && accepts(
            toks[ti].atom(),
            input[pos],
        ) && fits_from(input, toks, ti + 1, pos + 1)),
{
    if fits_from(input, toks, ti, pos) {
        assert(pos + ti - ti < input.len() && accepts(toks[ti].atom(), input[pos + ti - ti]));
        assert forall|i: int| ti + 1 <= i < toks.len() implies (pos + 1) + i - (ti + 1)
            < input.len() && accepts(#[trigger] toks[i].atom(), input[(pos + 1) + i - (ti + 1)]) by {
            assert(pos + i - ti < input.len() && accepts(toks[i].atom(), input[pos + i - ti]));
        }
    }
    if pos < input.len() && accepts(toks[ti].atom(), input[pos]) && fits_from(
        input,
        toks,
        ti + 1,
        pos + 1,
    ) {
        assert forall|i: int| ti <= i < toks.len() implies pos + i - ti < input.len() && accepts(
            #[trigger] toks[i].atom(),
            input[pos + i - ti],
        ) by {
            if i > ti {
                assert((pos + 1) + i - (ti + 1) < input.len() && accepts(
                    toks[i].atom(),
                    input[(pos + 1) + i - (ti + 1)],
                ));
            }
        }
    }
}

proof fn lemma_single_attempt(input: Seq<char>, toks: Seq<TokenModel>, ti: nat, pos: nat)
    requires
        all_single(toks),
        ti <= toks.len(),
    ensures
        attempt(input, toks, ti, pos) == if fits_from(input, toks, ti as int, pos as int) {
            Some((pos + toks.len() - ti) as nat)
        } else {
            None::<nat>
        },
    decreases toks.len() - ti,
{
    if ti < toks.len() {
        assert(toks[ti as int] is Single);
        lemma_single_attempt(input, toks, ti + 1, pos + 1);
        lemma_fits_step(input, toks, ti as int, pos as int);
    }
}

/// With no anchors and no quantifier, a pattern matches exactly when some run
/// of the input, as long as the token sequence, satisfies the tokens' atoms
/// one by one in order.
pub proof fn unanchored_literal_pattern_matches_window(input: Seq<char>, pattern: Seq<char>)
    requires
        !start_anchored(pattern),
        !end_anchored(pattern),
        all_single(lex(pattern_body(pattern))),
    ensures
        engine_matches(input, pattern) <==> exists|start: int|
            window_matches(input, lex(pattern_body(pattern)), start),
{
    let toks = lex(pattern_body(pattern));
    if engine_matches(input, pattern) {
        let s = choose|s: nat| s <= input.len() && #[trigger] accepted_at(input, toks, false, s);
        lemma_single_attempt(input, toks, 0, s);
        assert(fits_from(input, toks, 0, s as int));
        if toks.len() > 0 {
            let last = toks.len() - 1;
            assert(s + last - 0 < input.len() && accepts(toks[last].atom(), input[s + last - 0]));
        }
        assert forall|i: int| 0 <= i < toks.len() implies accepts(
            #[trigger] toks[i].atom(),
            input[s + i],
        ) by {
            assert(s + i - 0 < input.len() && accepts(toks[i].atom(), input[s + i - 0]));
        }
        assert(window_matches(input, toks, s as int));
    }
    if exists|start: int| window_matches(input, toks, start) {
        let start = choose|start: int| window_matches(input, toks, start);
        lemma_single_attempt(input, toks, 0, start as nat);
        assert(accepted_at(input, toks, false, start as nat));
    }
}

/// A pattern that is only anchors (`^`, `$` or `^$`) matches exactly the empty
/// input.
pub proof fn anchors_only_match_empty(input: Seq<char>, pattern: Seq<char>)
    requires
        start_anchored(pattern) || end_anchored(pattern),
        pattern_body(pattern).len() == 0,
    ensures
        engine_matches(input, pattern) == (input.len() == 0),
{
}

/// Tokenizing a pattern has no hidden state: two results for the same pattern
/// are the same token sequence.
pub proof fn tokenizing_is_deterministic(
    pattern: &str,
    first: Seq<PatternToken>,
    second: Seq<PatternToken>,
)
    requires
        tokens_view(first) == lex(pattern@),
        tokens_view(second) == lex(pattern@),
    ensures
        tokens_view(first) == tokens_view(second),
{
}

proof fn lemma_run_len_fits(input: Seq<char>, a: AtomModel, pos: nat)
    requires
        pos <= input.len(),
    ensures
        pos + run_len(input, a, pos) <= input.len(),
    decreases input.len() - pos,
{
    if pos < input.len() && accepts(a, input[pos as int]) {
        lemma_run_len_fits(input, a, pos + 1);
    }
}

proof fn lemma_try_counts_end(input: Seq<char>, toks: Seq<TokenModel>, next: nat, pos: nat, n: nat)
    ensures
        try_counts(input, toks, next, pos, n) matches Some(e) ==> pos < e && (pos + n
            <= input.len() ==> e <= input.len()),
    decreases toks.len() - next + 1, n + 1,
{
    if n > 0 {
        attempt_end_lies_in_input(input, toks, next, pos + n);
        lemma_try_counts_end(input, toks, next, pos, (n - 1) as nat);
    }
}

/// The offset that a successful match reports is never before its start, and
/// never past the end of the input when the start lies within it.
pub proof fn attempt_end_lies_in_input(input: Seq<char>, toks: Seq<TokenModel>, ti: nat, pos: nat)
    ensures
        attempt(input, toks, ti, pos) matches Some(e) ==> pos <= e && (pos <= input.len() ==> e
            <= input.len()),
    decreases toks.len() - ti + 1, 0int,
{
    if ti < toks.len() {
        match toks[ti as int] {
            TokenModel::Single(a) => {
                attempt_end_lies_in_input(input, toks, ti + 1, pos + 1);
            },
            TokenModel::Plus(a) => {
                let k = run_len(input, a, pos);
                if pos <= input.len() {
                    lemma_run_len_fits(input, a, pos);
                }
                lemma_try_counts_end(input, toks, ti + 1, pos, k);
            },
            TokenModel::Question(a) => {
                attempt_end_lies_in_input(input, toks, ti + 1, pos + 1);
                attempt_end_lies_in_input(input, toks, ti + 1, pos);
            },
        }
    }
}

} // verus!
