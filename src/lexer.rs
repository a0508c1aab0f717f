//! Turning a pattern body (anchors already removed) into tokens.

use vstd::prelude::*;
use crate::token::{Atom, AtomModel, PatternToken, TokenModel, tokens_view};

verus! {

/// Index of the first `]` in `p` at or after `i`, or `p.len()` when there is none.
pub open spec fn group_end(p: Seq<char>, i: int) -> int
    decreases p.len() - i,
{
    if i >= p.len() {
        p.len() as int
    } else if p[i] == ']' {
        i
    } else {
        group_end(p, i + 1)
    }
}

pub proof fn lemma_group_end_bounds(p: Seq<char>, i: int)
    requires
        0 <= i <= p.len(),
    ensures
        i <= group_end(p, i) <= p.len(),
        group_end(p, i) < p.len() ==> p[group_end(p, i)] == ']',
    decreases p.len() - i,
{
    if i < p.len() && p[i] != ']' {
        lemma_group_end_bounds(p, i + 1);
    }
}

/// The atom that starts at index `i` of `p` (with `i < p.len()`), and the index
/// just past it; `None` for a `\` that ends the pattern, which yields nothing.
pub open spec fn atom_at(p: Seq<char>, i: int) -> Option<(AtomModel, int)> {
    if p[i] == '\\' {
        if i + 1 >= p.len() {
            None
        } else if p[i + 1] == 'd' {
            Some((AtomModel::Digit, i + 2))
        } else if p[i + 1] == 'w' {
            Some((AtomModel::Word, i + 2))
        } else {
            Some((AtomModel::Char(p[i + 1]), i + 2))
        }
    } else if p[i] == '[' {
        let negated = i + 1 < p.len() && p[i + 1] == '^';
        let first = if negated { i + 2 } else { i + 1 };
        let end = group_end(p, first);
        let next = if end < p.len() { end + 1 } else { end };
        Some((AtomModel::CharGroup(p.subrange(first, end), negated), next))
    } else {
        Some((AtomModel::Char(p[i]), i + 1))
    }
}

/// The token for atom `a` given the quantifier suffix that may stand at index
/// `j` of `p`, and the index just past the token.
pub open spec fn quantified(p: Seq<char>, a: AtomModel, j: int) -> (TokenModel, int) {
    if j < p.len() && p[j] == '+' {
        (TokenModel::Plus(a), j + 1)
    } else if j < p.len() && p[j] == '?' {
        (TokenModel::Question(a), j + 1)
    } else {
        (TokenModel::Single(a), j)
    }
}

/// The tokens of `p` from index `i` on, scanned left to right.
pub open spec fn lex_from(p: Seq<char>, i: int) -> Seq<TokenModel>
    decreases p.len() - i,
{
    if i < 0 || i >= p.len() {
        Seq::empty()
    } else {
        match atom_at(p, i) {
            None => Seq::empty(),
            Some((a, j)) => {
                proof {
                    if p[i] == '[' {
                        let first = if i + 1 < p.len() && p[i + 1] == '^' { i + 2 } else { i + 1 };
                        lemma_group_end_bounds(p, first);
                    }
                }
                let (t, k) = quantified(p, a, j);
                seq![t] + lex_from(p, k)
            },
        }
    }
}

/// The token sequence of a whole pattern body.
pub open spec fn lex(p: Seq<char>) -> Seq<TokenModel> {
    lex_from(p, 0)
}

/// Collects the members of a bracket class whose first member would stand at
/// `first`, and returns them with the index of the closing `]` (or `p.len()`).
fn read_group(p: &Vec<char>, first: usize) -> (r: (Vec<char>, usize))
    requires
        first <= p.len(),
    ensures
        r.1 == group_end(p@, first as int),
        r.0@ == p@.subrange(first as int, r.1 as int),
{
    let mut members: Vec<char> = Vec::new();
    let mut j: usize = first;
    while j < p.len() && p[j] != ']'
        invariant
            first <= j <= p.len(),
            group_end(p@, j as int) == group_end(p@, first as int),
            members@ == p@.subrange(first as int, j as int),
        decreases p.len() - j,
    {
        members.push(p[j]);
        j = j + 1;
        assert(members@ =~= p@.subrange(first as int, j as int));
    }
    (members, j)
}

/// Reads the atom that starts at index `i`, returning it with the index just
/// past it; `None` for a `\` that ends the pattern.
fn next_atom(p: &Vec<char>, i: usize) -> (r: Option<(Atom, usize)>)
    requires
        i < p.len(),
    ensures
        match r {
            None => atom_at(p@, i as int) is None,
            Some((a, j)) => atom_at(p@, i as int) == Some((a@, j as int)),
        },
{
    let c = p[i];
    if c == '\\' {
        if i + 1 >= p.len() {
            None
        } else {
            let e = p[i + 1];
            if e == 'd' {
                Some((Atom::Digit, i + 2))
            } else if e == 'w' {
                Some((Atom::Word, i + 2))
            } else {
                Some((Atom::Char(e), i + 2))
            }
        }
    } else if c == '[' {
        let negated = i + 1 < p.len() && p[i + 1] == '^';
        let first = if negated { i + 2 } else { i + 1 };
        let (members, end) = read_group(p, first);
        let next = if end < p.len() { end + 1 } else { end };
        Some((Atom::CharGroup(members, negated), next))
    } else {
        Some((Atom::Char(c), i + 1))
    }
}

/// Splits a pattern body, given as characters, into tokens.
pub fn tokenize_chars(p: &Vec<char>) -> (r: Vec<PatternToken>)
    ensures
        tokens_view(r@) == lex(p@),
{
    let mut tokens: Vec<PatternToken> = Vec::new();
    let mut i: usize = 0;
    while i < p.len()
        invariant
            i <= p.len(),
            tokens_view(tokens@) + lex_from(p@, i as int) == lex(p@),
        decreases p.len() - i,
    {
        match next_atom(p, i) {
            None => {
                assert(tokens_view(tokens@) + lex_from(p@, p.len() as int) =~= lex(p@));
                i = p.len();
            },
            Some((atom, j)) => {
                proof {
                    if p@[i as int] == '[' {
                        let first = if i + 1 < p.len() && p@[i + 1] == '^' { i + 2 } else { i + 1 };
                        lemma_group_end_bounds(p@, first as int);
                    }
                }
                let ghost before = tokens_view(tokens@);
                let ghost model = quantified(p@, atom@, j as int);
                let k: usize;
                if j < p.len() && p[j] == '+' {
                    tokens.push(PatternToken::Plus(atom));
                    k = j + 1;
                } else if j < p.len() && p[j] == '?' {
                    tokens.push(PatternToken::Question(atom));
                    k = j + 1;
                } else {
                    tokens.push(PatternToken::Single(atom));
                    k = j;
                }
                assert(tokens_view(tokens@) =~= before.push(model.0));
                assert(tokens_view(tokens@) + lex_from(p@, k as int) =~= before + lex_from(p@, i as int));
                i = k;
            },
        }
    }
    assert(tokens_view(tokens@) =~= tokens_view(tokens@) + lex_from(p@, i as int));
    tokens
}

/// The characters of `s`, in order.
pub fn chars_of(s: &str) -> (r: Vec<char>)
    ensures
        r@ == s@,
{
    let mut out: Vec<char> = Vec::new();
    for c in it: s.chars()
        invariant
            out@ == it.seq().take(it.index() as int),
    {
        out.push(c);
        assert(out@ =~= it.seq().take(it.index() as int + 1));
    }
    assert(out@ =~= s@);
    out
}

/// Splits a pattern body (anchors already removed) into tokens, left to right.
pub fn tokenize_pattern(pattern: &str) -> (r: Vec<PatternToken>)
    ensures
        tokens_view(r@) == lex(pattern@),
{
    let p = chars_of(pattern);
    tokenize_chars(&p)
}

} // verus!
