//! Pattern tokens and the per-character predicates they stand for.

use vstd::prelude::*;

verus! {

/// A single-character matcher: one unit of a pattern with no quantifier.
#[derive(Debug, PartialEq, Eq)]
pub enum Atom {
    /// `\d`: an ASCII decimal digit.
    Digit,
    /// `\w`: an ASCII letter, an ASCII digit or `_`.
    Word,
    /// A character that must appear as it is.
    Char(char),
    /// `[...]` (members, `false`) or `[^...]` (members, `true`).
    CharGroup(Vec<char>, bool),
}

/// One unit of a compiled pattern: an atom, possibly with a quantifier.
#[derive(Debug, PartialEq, Eq)]
pub enum PatternToken {
    /// The atom, matched exactly once.
    Single(Atom),
    /// `atom+`: one or more times.
    Plus(Atom),
    /// `atom?`: zero or one time.
    Question(Atom),
}

/// The mathematical model of an [`Atom`].
pub ghost enum AtomModel {
    Digit,
    Word,
    Char(char),
    CharGroup(Seq<char>, bool),
}

/// The mathematical model of a [`PatternToken`].
pub ghost enum TokenModel {
    Single(AtomModel),
    Plus(AtomModel),
    Question(AtomModel),
}

impl View for Atom {
    type V = AtomModel;

    open spec fn view(&self) -> AtomModel {
        match self {
            Atom::Digit => AtomModel::Digit,
            Atom::Word => AtomModel::Word,
            Atom::Char(c) => AtomModel::Char(*c),
            Atom::CharGroup(members, negated) => AtomModel::CharGroup(members@, *negated),
        }
    }
}

impl View for PatternToken {
    type V = TokenModel;

    open spec fn view(&self) -> TokenModel {
        match self {
            PatternToken::Single(a) => TokenModel::Single(a@),
            PatternToken::Plus(a) => TokenModel::Plus(a@),
            PatternToken::Question(a) => TokenModel::Question(a@),
        }
    }
}

impl TokenModel {
    /// The atom under the quantifier, if any.
    pub open spec fn atom(self) -> AtomModel {
        match self {
            TokenModel::Single(a) => a,
            TokenModel::Plus(a) => a,
            TokenModel::Question(a) => a,
        }
    }
}

/// The models of a sequence of tokens, in order.
pub open spec fn tokens_view(tokens: Seq<PatternToken>) -> Seq<TokenModel> {
    tokens.map_values(|t: PatternToken| t@)
}

pub open spec fn is_digit(c: char) -> bool {
    '0' <= c && c <= '9'
}

pub open spec fn is_word(c: char) -> bool {
    ||| is_digit(c)
    ||| ('a' <= c && c <= 'z')
    ||| ('A' <= c && c <= 'Z')
    ||| c == '_'
}

/// Whether the atom accepts the character `c`.
pub open spec fn accepts(a: AtomModel, c: char) -> bool {
    match a {
        AtomModel::Digit => is_digit(c),
        AtomModel::Word => is_word(c),
        AtomModel::Char(p) => c == p,
        AtomModel::CharGroup(members, negated) => members.contains(c) != negated,
    }
}

fn group_contains(members: &Vec<char>, c: char) -> (r: bool)
    ensures
        r == members@.contains(c),
{
    let mut i: usize = 0;
    while i < members.len()
        invariant
            i <= members.len(),
            forall|j: int| 0 <= j < i ==> members@[j] != c,
        decreases members.len() - i,
    {
        if members[i] == c {
            return true;
        }
        i = i + 1;
    }
    false
}

/// Tests one character against one atom.
pub fn matches_token(c: char, token: &Atom) -> (r: bool)
    ensures
        r == accepts(token@, c),
{
    match token {
        Atom::Digit => '0' <= c && c <= '9',
        Atom::Word => ('0' <= c && c <= '9') || ('a' <= c && c <= 'z') || ('A' <= c && c <= 'Z')
            || c == '_',
        Atom::Char(p) => c == *p,
        Atom::CharGroup(members, negated) => {
            let contains = group_contains(members, c);
            if *negated {
                !contains
            } else {
                contains
            }
        },
    }
}

} // verus!
