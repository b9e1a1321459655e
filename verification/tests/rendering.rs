use regex_matcher::parse_pattern;
use regex_matcher::Pattern;
use regex_matcher::render::pattern_text;

#[test]
fn render_classes_and_anchors() {
    assert_eq!(pattern_text(&Pattern::Digit), vec!['\\', 'd']);
    assert_eq!(pattern_text(&Pattern::Alphanumeric), vec!['\\', 'w']);
    assert_eq!(pattern_text(&Pattern::AnyChar), vec!['.']);
    assert_eq!(pattern_text(&Pattern::Start), vec!['^']);
    assert_eq!(pattern_text(&Pattern::End), vec!['$']);
}

#[test]
fn render_literal_and_quantifiers() {
    assert_eq!(pattern_text(&Pattern::Literal(vec!['a', 'b'])), vec!['a', 'b']);
    assert_eq!(
        pattern_text(&Pattern::OneOrMore(Box::new(Pattern::Literal(vec!['a'])))),
        vec!['a', '+']
    );
    assert_eq!(
        pattern_text(&Pattern::ZeroOrOne(Box::new(Pattern::AnyChar))),
        vec!['.', '?']
    );
}

#[test]
fn render_char_groups() {
    assert_eq!(
        pattern_text(&Pattern::CharGroup(vec!['a', 'b'], false)),
        vec!['[', 'a', 'b', ']']
    );
    assert_eq!(
        pattern_text(&Pattern::CharGroup(vec!['a', 'b'], true)),
        vec!['[', '^', 'a', 'b', ']']
    );
}

#[test]
fn render_backreference_in_decimal() {
    assert_eq!(pattern_text(&Pattern::BackReference(3)), vec!['\\', '3']);
    assert_eq!(pattern_text(&Pattern::BackReference(12)), vec!['\\', '1', '2']);
    assert_eq!(pattern_text(&Pattern::BackReference(0)), vec!['\\', '0']);
}

#[test]
fn render_parsed_group_and_alternation() {
    let group = parse_pattern("(ab)");
    assert_eq!(
        pattern_text(&group[0]),
        "(ab)".chars().collect::<Vec<char>>()
    );
    let alt = parse_pattern("(cat|dog)");
    assert_eq!(
        pattern_text(&alt[0]),
        "((cat)|(dog))".chars().collect::<Vec<char>>()
    );
}
