use minigrep::engine::{match_pattern, match_trimmed, resolve_anchors, search_offsets};
use minigrep::lexer::{chars_of, tokenize_chars, tokenize_pattern};
use minigrep::matcher::match_tokens_at_position;
use minigrep::token::{matches_token, Atom, PatternToken};

fn chars(s: &str) -> Vec<char> {
    s.chars().collect()
}

#[test]
fn plus_consumes_whole_run() {
    assert!(match_pattern("aaa", "a+"));
}

#[test]
fn plus_with_end_anchor_rejects_trailing_char() {
    assert!(!match_pattern("aaab", "a+$"));
}

#[test]
fn plus_backtracks_to_leave_room() {
    assert!(match_pattern("aaab", "a+ab"));
    assert!(match_pattern("aaa", "^a+a$"));
    assert!(!match_pattern("a", "^a+a$"));
}

#[test]
fn optional_quantifier_colour() {
    assert!(match_pattern("color", "colou?r"));
    assert!(match_pattern("colour", "colou?r"));
    assert!(!match_pattern("colouur", "colou?r"));
}

#[test]
fn negated_class() {
    assert!(!match_pattern("xyz", "[^xyz]"));
    assert!(match_pattern("banana", "[^xyz]"));
}

#[test]
fn positive_class() {
    assert!(!match_pattern("xyz", "[abc]"));
    assert!(match_pattern("xbz", "[abc]"));
}

#[test]
fn digit_class() {
    assert!(match_pattern("apple123", "\\d"));
    assert!(!match_pattern("apple", "\\d"));
    assert!(match_pattern("12345", "^\\d+$"));
    assert!(!match_pattern("12a45", "^\\d+$"));
}

#[test]
fn word_class() {
    assert!(match_pattern("__", "^\\w\\w$"));
    assert!(match_pattern("a1", "^\\w\\w$"));
    assert!(!match_pattern("a-", "^\\w\\w$"));
    assert!(!match_pattern("%$#", "\\w"));
}

#[test]
fn literal_pattern_matches_some_window() {
    assert!(match_pattern("xxabcxx", "abc"));
    assert!(!match_pattern("xxabxcx", "abc"));
    assert!(match_pattern("sally has 3 apples", "\\d apple"));
    assert!(!match_pattern("sally has 1 orange", "\\d apple"));
    assert!(!match_pattern("ab", "abc"));
}

#[test]
fn empty_pattern_matches_anything() {
    assert!(match_pattern("", ""));
    assert!(match_pattern("abc", ""));
}

#[test]
fn anchors_only_match_empty_input() {
    for p in ["^", "$", "^$"] {
        assert!(match_pattern("", p));
        assert!(match_pattern("\n", p));
        assert!(!match_pattern("a", p));
        assert!(!match_pattern(" a\n", p));
    }
}

#[test]
fn start_anchor_only_tries_offset_zero() {
    assert!(match_pattern("log: x", "^log"));
    assert!(!match_pattern("slog", "^log"));
}

#[test]
fn end_anchor_needs_full_consumption() {
    assert!(match_pattern("catalog", "log$"));
    assert!(!match_pattern("logs", "log$"));
}

#[test]
fn trailing_whitespace_is_trimmed() {
    assert!(match_pattern("abc \n", "^abc$"));
    assert!(match_pattern("abc\r\n", "c$"));
    assert!(!match_trimmed("abc \n", "^abc$"));
    assert!(match_trimmed("abc", "^abc$"));
}

#[test]
fn lone_backslash_in_body_is_tokenized_to_nothing() {
    assert!(tokenize_pattern("\\").is_empty());
    assert_eq!(tokenize_pattern("a\\"), vec![PatternToken::Single(Atom::Char('a'))]);
    // The body is not empty, so the matcher runs with no tokens.
    assert!(match_pattern("abc", "^\\"));
    assert!(match_pattern("abc", "\\$"));
}

#[test]
fn escaped_characters_are_literals() {
    assert_eq!(
        tokenize_pattern("\\d\\w\\.\\\\"),
        vec![
            PatternToken::Single(Atom::Digit),
            PatternToken::Single(Atom::Word),
            PatternToken::Single(Atom::Char('.')),
            PatternToken::Single(Atom::Char('\\')),
        ]
    );
    assert!(match_pattern("a+b", "a\\+b"));
    assert!(!match_pattern("aab", "a\\+b"));
}

#[test]
fn tokenize_quantifiers_and_classes() {
    assert_eq!(
        tokenize_pattern("\\d+[^ab]?x"),
        vec![
            PatternToken::Plus(Atom::Digit),
            PatternToken::Question(Atom::CharGroup(vec!['a', 'b'], true)),
            PatternToken::Single(Atom::Char('x')),
        ]
    );
}

#[test]
fn unterminated_class_takes_the_rest() {
    assert_eq!(
        tokenize_pattern("[ab+"),
        vec![PatternToken::Single(Atom::CharGroup(vec!['a', 'b', '+'], false))]
    );
    assert_eq!(
        tokenize_pattern("[^"),
        vec![PatternToken::Single(Atom::CharGroup(vec![], true))]
    );
}

#[test]
fn empty_class_matches_nothing_and_negated_empty_matches_all() {
    assert_eq!(
        tokenize_pattern("[]+"),
        vec![PatternToken::Plus(Atom::CharGroup(vec![], false))]
    );
    assert!(!match_pattern("abc", "[]"));
    assert!(match_pattern("abc", "[^]"));
}

#[test]
fn duplicate_class_members_only_test_membership() {
    assert!(match_pattern("a", "^[aa]$"));
    assert!(!match_pattern("b", "^[aa]$"));
}

#[test]
fn tokenizing_twice_gives_the_same_tokens() {
    for p in ["a+b?", "\\d[^xyz]+\\w", "[abc", "x\\", ""] {
        assert_eq!(tokenize_pattern(p), tokenize_pattern(p));
    }
}

#[test]
fn tokenize_chars_agrees_with_tokenize_pattern() {
    assert_eq!(tokenize_chars(&chars("ab?[c]+")), tokenize_pattern("ab?[c]+"));
    assert_eq!(chars_of("héllo"), vec!['h', 'é', 'l', 'l', 'o']);
}

#[test]
fn matches_token_per_atom() {
    assert!(matches_token('7', &Atom::Digit));
    assert!(!matches_token('x', &Atom::Digit));
    assert!(matches_token('_', &Atom::Word));
    assert!(matches_token('Z', &Atom::Word));
    assert!(!matches_token(' ', &Atom::Word));
    assert!(matches_token('q', &Atom::Char('q')));
    assert!(!matches_token('Q', &Atom::Char('q')));
    assert!(matches_token('b', &Atom::CharGroup(vec!['a', 'b'], false)));
    assert!(!matches_token('b', &Atom::CharGroup(vec!['a', 'b'], true)));
    assert!(matches_token('c', &Atom::CharGroup(vec!['a', 'b'], true)));
}

#[test]
fn match_at_position_gives_end_offset() {
    let input = chars("xaaab");
    let toks = tokenize_pattern("a+");
    assert_eq!(match_tokens_at_position(&input, &toks, 1), Some(4));
    assert_eq!(match_tokens_at_position(&input, &toks, 0), None);
    assert_eq!(match_tokens_at_position(&input, &toks, 5), None);
    let toks = tokenize_pattern("a?");
    assert_eq!(match_tokens_at_position(&input, &toks, 0), Some(0));
    assert_eq!(match_tokens_at_position(&input, &toks, 3), Some(4));
    let toks = tokenize_pattern("a+ab");
    assert_eq!(match_tokens_at_position(&input, &toks, 1), Some(5));
    assert_eq!(match_tokens_at_position(&input, &[], 3), Some(3));
}

#[test]
fn resolve_anchors_strips_both_ends() {
    assert_eq!(resolve_anchors(&chars("^ab$")), (true, true, chars("ab")));
    assert_eq!(resolve_anchors(&chars("ab")), (false, false, chars("ab")));
    assert_eq!(resolve_anchors(&chars("^")), (true, false, vec![]));
    assert_eq!(resolve_anchors(&chars("$")), (false, true, vec![]));
    assert_eq!(resolve_anchors(&chars("^$")), (true, true, vec![]));
    assert_eq!(resolve_anchors(&chars("a^$$")), (false, true, chars("a^$")));
}

#[test]
fn search_offsets_respects_anchor_flags() {
    let input = chars("xab");
    let toks = tokenize_pattern("ab");
    assert!(search_offsets(&input, &toks, false, false));
    assert!(search_offsets(&input, &toks, false, true));
    assert!(!search_offsets(&input, &toks, true, false));
    let toks = tokenize_pattern("a");
    assert!(!search_offsets(&input, &toks, false, true));
}
