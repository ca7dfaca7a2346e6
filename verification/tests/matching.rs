use regex_engine::MatchError;
use regex_engine::do_matching;
use regex_engine::parser::ParseError;

#[test]
fn literal_sequence_matches_itself() {
    assert_eq!(do_matching("abc", "abc", true), Ok(true));
}

#[test]
fn input_exhausted_before_match_fails() {
    assert_eq!(do_matching("abc", "ab", true), Ok(false));
}

#[test]
fn second_alternative_taken_after_first_fails() {
    assert_eq!(do_matching("a|b", "b", true), Ok(true));
}

#[test]
fn repeated_alternation_matches_two_repetitions() {
    assert_eq!(do_matching("(de|cd)+", "decd", true), Ok(true));
}

#[test]
fn star_accepts_empty_input() {
    assert_eq!(do_matching("a*", "", true), Ok(true));
}

#[test]
fn plus_rejects_empty_input() {
    assert_eq!(do_matching("a+", "", true), Ok(false));
}

#[test]
fn matching_is_deterministic_across_calls() {
    let cases = [("abc|(de|cd)+", "decd"), ("a*", "aaa"), ("(ab)+c?", "ababc"), ("x", "y")];
    for (pattern, subject) in cases {
        let first = do_matching(pattern, subject, true);
        let second = do_matching(pattern, subject, true);
        assert_eq!(first, second);
    }
}

#[test]
fn nested_concatenation_accepts_same_language() {
    for subject in ["abc", "ab", "abcc", ""] {
        assert_eq!(
            do_matching("(ab)c", subject, true),
            do_matching("abc", subject, true),
        );
    }
}

#[test]
fn alternation_order_does_not_change_acceptance() {
    for subject in ["a", "b", "c", ""] {
        assert_eq!(
            do_matching("a|b", subject, true),
            do_matching("b|a", subject, true),
        );
    }
}

#[test]
fn star_accepts_finite_repetitions() {
    assert_eq!(do_matching("(ab)*", "", true), Ok(true));
    assert_eq!(do_matching("(ab)*", "ab", true), Ok(true));
    assert_eq!(do_matching("(ab)*", "ababab", true), Ok(true));
    // the star stops after one repetition; the trailing symbol is not checked
    assert_eq!(do_matching("(ab)*", "aba", true), Ok(true));
}

#[test]
fn plus_agrees_with_once_then_star() {
    for subject in ["", "a", "aa", "aaa", "b"] {
        assert_eq!(
            do_matching("a+", subject, true),
            do_matching("aa*", subject, true),
        );
    }
}

#[test]
fn question_agrees_with_alternation_with_empty() {
    for subject in ["", "a", "b"] {
        assert_eq!(
            do_matching("a?", subject, true),
            do_matching("a|", subject, true),
        );
    }
}

#[test]
fn trailing_input_after_match_is_not_checked() {
    assert_eq!(do_matching("abc", "abcd", true), Ok(true));
}

#[test]
fn escaped_operator_is_a_literal() {
    assert_eq!(do_matching("a\\*", "a*", true), Ok(true));
    assert_eq!(do_matching("a\\*", "aa", true), Ok(false));
}

#[test]
fn operator_without_operand_is_rejected() {
    assert_eq!(
        do_matching("*", "x", true),
        Err(MatchError::Parse(ParseError::NoOperand)),
    );
}

#[test]
fn unclosed_group_is_rejected() {
    assert_eq!(
        do_matching("(ab", "ab", true),
        Err(MatchError::Parse(ParseError::UnclosedParen)),
    );
}

#[test]
fn stray_closing_paren_is_rejected() {
    assert_eq!(
        do_matching("ab)", "ab", true),
        Err(MatchError::Parse(ParseError::UnmatchedParen)),
    );
}

#[test]
fn trailing_backslash_is_rejected() {
    assert_eq!(
        do_matching("ab\\", "ab", true),
        Err(MatchError::Parse(ParseError::InvalidEscape)),
    );
}

#[test]
fn empty_pattern_matches_any_subject() {
    // trailing unconsumed input after a successful match is not checked
    assert_eq!(do_matching("", "", true), Ok(true));
    assert_eq!(do_matching("", "a", true), Ok(true));
}

#[test]
fn greedy_star_backtracks_to_let_suffix_match() {
    assert_eq!(do_matching("a*a", "aaa", true), Ok(true));
    assert_eq!(do_matching("a*b", "aab", true), Ok(true));
    assert_eq!(do_matching("a*b", "aaa", true), Ok(false));
}

#[test]
fn alternation_of_sequence_and_repeated_group() {
    assert_eq!(do_matching("abc|(de|cd)+", "decd", true), Ok(true));
    assert_eq!(do_matching("abc|(de|cd)+", "abc", true), Ok(true));
    assert_eq!(do_matching("abc|(de|cd)+", "dd", true), Ok(false));
}

#[test]
fn question_in_the_middle_of_a_sequence() {
    assert_eq!(do_matching("ab?c", "ac", true), Ok(true));
    assert_eq!(do_matching("ab?c", "abc", true), Ok(true));
    assert_eq!(do_matching("ab?c", "abbc", true), Ok(false));
}

#[test]
fn nested_groups_repeat() {
    assert_eq!(do_matching("((a|b)c)+", "acbc", true), Ok(true));
    assert_eq!(do_matching("((a|b)c)+", "cc", true), Ok(false));
}

#[test]
fn doubled_repetition_operator_is_rejected() {
    assert_eq!(
        do_matching("a**", "a", true),
        Err(MatchError::Parse(ParseError::NoOperand)),
    );
}
