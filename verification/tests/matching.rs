use regex_matcher::match_pattern;
use regex_matcher::parse_pattern;
use regex_matcher::Pattern;
use regex_matcher::matcher::extract_captured;
use regex_matcher::matcher::match_class;
use regex_matcher::matcher::match_from_current_position;
use regex_matcher::matcher::match_literal;
use regex_matcher::matcher::new_caps;
use regex_matcher::parser::to_char_vec;

#[test]
fn digits_match_anywhere() {
    assert!(match_pattern("abc123", "\\d+"));
}

#[test]
fn anchored_digits_reject_trailing_text() {
    assert!(!match_pattern("123abc", "^\\d+$"));
    assert!(match_pattern("123", "^\\d+$"));
}

#[test]
fn negated_class_single_character() {
    assert!(!match_pattern("x", "[^xyz]"));
    assert!(match_pattern("a", "[^xyz]"));
    assert!(!match_pattern("", "[^xyz]"));
    assert!(!match_pattern("", "[xyz]"));
}

#[test]
fn alternation_matches_inside_text() {
    assert!(match_pattern("I have a dog", "(cat|dog)"));
    assert!(!match_pattern("I have a cow", "(cat|dog)"));
}

#[test]
fn alternation_records_winning_branch_as_group_one() {
    let patterns = parse_pattern("(cat|dog)");
    let input = to_char_vec("dog");
    let mut caps = new_caps(1);
    let end = match_from_current_position(&input, &patterns, 0, false, &mut caps);
    assert_eq!(end, Some(3));
    assert_eq!(caps[0], Some(vec!['d', 'o', 'g']));
}

#[test]
fn backreference_requires_repetition() {
    assert!(match_pattern("hello hello", "(\\w+) \\1"));
    assert!(!match_pattern("hello world", "(\\w+) \\1"));
}

#[test]
fn backreference_sees_captured_text() {
    let patterns = parse_pattern("(\\w+) \\1");
    let input = to_char_vec("hello hello");
    let mut caps = new_caps(1);
    let end = match_from_current_position(&input, &patterns, 0, false, &mut caps);
    assert_eq!(end, Some(11));
    assert_eq!(caps[0], Some(vec!['h', 'e', 'l', 'l', 'o']));
}

#[test]
fn backreference_to_unset_group_fails() {
    assert!(!match_pattern("aa", "(a)\\2"));
}

#[test]
fn optional_node_never_blocks() {
    assert!(match_pattern("b", "a?b"));
    assert!(match_pattern("ab", "a?b"));
    assert!(match_pattern("cb", "a?b"));
    assert!(!match_pattern("c", "a?b"));
}

#[test]
fn one_or_more_needs_at_least_one() {
    assert!(!match_pattern("d", "c+d"));
    assert!(match_pattern("cd", "c+d"));
    assert!(match_pattern("cccd", "c+d"));
}

#[test]
fn greedy_repetition_never_gives_back() {
    assert!(!match_pattern("aaa", "a+a"));
    assert!(match_pattern("aab", "a+b"));
}

#[test]
fn empty_input_never_matches() {
    assert!(!match_pattern("", ""));
    assert!(!match_pattern("", "a?"));
}

#[test]
fn empty_pattern_matches_any_nonempty_input() {
    assert!(match_pattern("abc", ""));
}

#[test]
fn word_class_follows_alphanumeric() {
    assert!(match_pattern("a", "^\\w$"));
    assert!(match_pattern("7", "^\\w$"));
    assert!(!match_pattern("!", "^\\w$"));
    assert!(!match_pattern("---", "\\w"));
}

#[test]
fn start_anchor_pins_offset_zero() {
    assert!(match_pattern("abc", "^ab"));
    assert!(!match_pattern("abc", "^bc"));
}

#[test]
fn end_anchor_requires_exhaustion() {
    assert!(match_pattern("abc", "c$"));
    assert!(!match_pattern("abc", "b$"));
}

#[test]
fn misplaced_start_anchor_fails_every_attempt() {
    assert!(!match_pattern("abc", "a^b"));
}

#[test]
fn any_char_consumes_exactly_one() {
    assert!(match_pattern("xyz", "x.z"));
    assert!(!match_pattern("xz", "x.z"));
}

#[test]
fn char_group_accepts_any_member() {
    assert!(match_pattern("crab", "[abc]"));
    assert!(!match_pattern("rust", "[abc]"));
}

#[test]
fn literal_pipe_outside_groups() {
    assert!(match_pattern("a|b", "a|b"));
    assert!(!match_pattern("ab", "a|b"));
}

#[test]
fn nested_groups_capture_under_their_own_indices() {
    let patterns = parse_pattern("(a(b))\\2");
    let input = to_char_vec("abb");
    let mut caps = new_caps(2);
    let end = match_from_current_position(&input, &patterns, 0, false, &mut caps);
    assert_eq!(end, Some(3));
    assert_eq!(caps[0], Some(vec!['a', 'b']));
    assert_eq!(caps[1], Some(vec!['b']));
}

#[test]
fn match_literal_at_offset() {
    let input = to_char_vec("xab");
    let lit = to_char_vec("ab");
    assert!(match_literal(&lit, &input, 1));
    assert!(!match_literal(&lit, &input, 0));
    assert!(!match_literal(&lit, &input, 2));
}

#[test]
fn match_class_tests_one_character() {
    let input = to_char_vec("a5");
    assert!(match_class(&Pattern::Digit, &input, 1));
    assert!(!match_class(&Pattern::Digit, &input, 0));
    assert!(!match_class(&Pattern::Digit, &input, 2));
    assert!(match_class(&Pattern::Alphanumeric, &input, 0));
    assert!(match_class(&Pattern::AnyChar, &input, 0));
}

#[test]
fn extract_captured_copies_the_window() {
    let input = to_char_vec("abcd");
    assert_eq!(extract_captured(&input, 1, 3), vec!['b', 'c']);
    assert_eq!(extract_captured(&input, 2, 2), Vec::<char>::new());
}
