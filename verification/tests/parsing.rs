use regex_matcher::parse_pattern;
use regex_matcher::Pattern;

#[test]
fn parse_literal_run() {
    assert_eq!(parse_pattern("abc"), vec![Pattern::Literal(vec!['a', 'b', 'c'])]);
}

#[test]
fn parse_empty_pattern() {
    assert_eq!(parse_pattern(""), Vec::<Pattern>::new());
}

#[test]
fn parse_classes() {
    assert_eq!(
        parse_pattern("\\d\\w."),
        vec![Pattern::Digit, Pattern::Alphanumeric, Pattern::AnyChar]
    );
}

#[test]
fn parse_anchors() {
    assert_eq!(
        parse_pattern("^a$"),
        vec![Pattern::Start, Pattern::Literal(vec!['a']), Pattern::End]
    );
}

#[test]
fn parse_char_group() {
    assert_eq!(
        parse_pattern("[abc]"),
        vec![Pattern::CharGroup(vec!['a', 'b', 'c'], false)]
    );
}

#[test]
fn parse_negated_char_group() {
    assert_eq!(
        parse_pattern("[^xy]"),
        vec![Pattern::CharGroup(vec!['x', 'y'], true)]
    );
}

#[test]
fn parse_unterminated_class_consumes_to_end() {
    assert_eq!(
        parse_pattern("[abc"),
        vec![Pattern::CharGroup(vec!['a', 'b', 'c'], false)]
    );
}

#[test]
fn parse_quantifier_binds_last_buffer_char() {
    assert_eq!(
        parse_pattern("ab+"),
        vec![
            Pattern::Literal(vec!['a']),
            Pattern::OneOrMore(Box::new(Pattern::Literal(vec!['b']))),
        ]
    );
}

#[test]
fn parse_dangling_quantifier_is_literal() {
    assert_eq!(parse_pattern("+"), vec![Pattern::Literal(vec!['+'])]);
    assert_eq!(parse_pattern("?"), vec![Pattern::Literal(vec!['?'])]);
}

#[test]
fn parse_backreference() {
    assert_eq!(parse_pattern("\\1"), vec![Pattern::BackReference(1)]);
    assert_eq!(parse_pattern("\\9"), vec![Pattern::BackReference(9)]);
}

#[test]
fn parse_escaped_backslash_and_other_escape() {
    assert_eq!(parse_pattern("\\\\"), vec![Pattern::Literal(vec!['\\'])]);
    assert_eq!(parse_pattern("\\+"), vec![Pattern::Literal(vec!['+'])]);
}

#[test]
fn parse_plain_group_gets_index_one() {
    assert_eq!(
        parse_pattern("(ab)"),
        vec![Pattern::Group(vec![Pattern::Literal(vec!['a', 'b'])], 1)]
    );
}

#[test]
fn parse_alternation_branches_share_group_index() {
    assert_eq!(
        parse_pattern("(cat|dog)"),
        vec![Pattern::Alternation(vec![
            Pattern::Group(vec![Pattern::Literal(vec!['c', 'a', 't'])], 1),
            Pattern::Group(vec![Pattern::Literal(vec!['d', 'o', 'g'])], 1),
        ])]
    );
}

#[test]
fn parse_nested_group_indices_follow_open_parens() {
    assert_eq!(
        parse_pattern("(a(b))"),
        vec![Pattern::Group(
            vec![
                Pattern::Literal(vec!['a']),
                Pattern::Group(vec![Pattern::Literal(vec!['b'])], 2),
            ],
            1,
        )]
    );
}

#[test]
fn parse_sibling_groups_number_left_to_right() {
    assert_eq!(
        parse_pattern("(a)(b)"),
        vec![
            Pattern::Group(vec![Pattern::Literal(vec!['a'])], 1),
            Pattern::Group(vec![Pattern::Literal(vec!['b'])], 2),
        ]
    );
}

#[test]
fn parse_top_level_pipe_is_literal() {
    assert_eq!(
        parse_pattern("a|b"),
        vec![
            Pattern::Literal(vec!['a']),
            Pattern::Literal(vec!['|']),
            Pattern::Literal(vec!['b']),
        ]
    );
}

#[test]
fn parse_quantified_group() {
    assert_eq!(
        parse_pattern("(ab)?"),
        vec![Pattern::ZeroOrOne(Box::new(Pattern::Group(
            vec![Pattern::Literal(vec!['a', 'b'])],
            1,
        )))]
    );
}

#[test]
fn parse_empty_final_branch_is_dropped() {
    assert_eq!(
        parse_pattern("(a|)"),
        vec![Pattern::Alternation(vec![Pattern::Group(
            vec![Pattern::Literal(vec!['a'])],
            1,
        )])]
    );
}
