//! The abstract syntax tree of a compiled pattern.

use vstd::prelude::*;

verus! {

/// One node of a compiled pattern. A whole pattern is an ordered sequence of
/// nodes, matched left to right.
///
/// Capture-group indices are assigned statically at compile time: the group
/// opened by the `k`-th `(` of the pattern carries index `k` (1-based), and a
/// backreference `\k` refers to it. The branches of an alternation all carry
/// the index of the parenthesis that encloses them.
#[derive(Debug, PartialEq, Eq)]
pub enum Pattern {
    /// A run of ordinary characters, matched verbatim.
    Literal(Vec<char>),
    /// `\d`: one ASCII decimal digit.
    Digit,
    /// `\w`: one alphanumeric character.
    Alphanumeric,
    /// `.`: any single character.
    AnyChar,
    /// `^`: zero-width anchor at the start of the input.
    Start,
    /// `$`: zero-width anchor at the end of the input.
    End,
    /// `[...]` or `[^...]`: one character inside (or, when the flag is true,
    /// outside) the listed set.
    CharGroup(Vec<char>, bool),
    /// `+`: the wrapped node, greedily repeated one or more times.
    OneOrMore(Box<Pattern>),
    /// `?`: the wrapped node, matched once if possible, else skipped.
    ZeroOrOne(Box<Pattern>),
    /// `(a|b|...)`: ordered alternatives, each a `Group`; the first branch
    /// that matches wins.
    Alternation(Vec<Pattern>),
    /// `(...)`: a sub-sequence; on success the consumed text is recorded
    /// under the carried capture index.
    Group(Vec<Pattern>, usize),
    /// `\k`: the text captured by group `k`, required to occur literally.
    BackReference(usize),
}

/// The mathematical form of a pattern node, with sequences in place of
/// vectors and naturals in place of machine integers. Contracts and the
/// matching semantics speak of these; a [`Pattern`] is taken to its
/// `PatternView` by [`pat_view`].
pub enum PatternView {
    Literal(Seq<char>),
    Digit,
    Alphanumeric,
    AnyChar,
    Start,
    End,
    CharGroup(Seq<char>, bool),
    OneOrMore(Box<PatternView>),
    ZeroOrOne(Box<PatternView>),
    Alternation(Seq<PatternView>),
    Group(Seq<PatternView>, nat),
    BackReference(nat),
}

/// The mathematical form of one pattern node.
pub open spec fn pat_view(p: Pattern) -> PatternView
    decreases p,
{
    match p {
        Pattern::Literal(text) => PatternView::Literal(text@),
        Pattern::Digit => PatternView::Digit,
        Pattern::Alphanumeric => PatternView::Alphanumeric,
        Pattern::AnyChar => PatternView::AnyChar,
        Pattern::Start => PatternView::Start,
        Pattern::End => PatternView::End,
        Pattern::CharGroup(members, negated) => PatternView::CharGroup(members@, negated),
        Pattern::OneOrMore(inner) => PatternView::OneOrMore(Box::new(pat_view(*inner))),
        Pattern::ZeroOrOne(inner) => PatternView::ZeroOrOne(Box::new(pat_view(*inner))),
        Pattern::Alternation(branches) => PatternView::Alternation(pats_view(branches@)),
        Pattern::Group(nodes, idx) => PatternView::Group(pats_view(nodes@), idx as nat),
        Pattern::BackReference(k) => PatternView::BackReference(k as nat),
    }
}

/// The mathematical form of a node sequence, element by element.
pub open spec fn pats_view(ps: Seq<Pattern>) -> Seq<PatternView>
    decreases ps,
{
    if ps.len() == 0 {
        Seq::empty()
    } else {
        seq![pat_view(ps[0])] + pats_view(ps.subrange(1, ps.len() as int))
    }
}

/// `pats_view` maps the sequence element by element.
pub proof fn lemma_pats_view(ps: Seq<Pattern>)
    ensures
        pats_view(ps).len() == ps.len(),
        forall|i: int| 0 <= i < ps.len() ==> pats_view(ps)[i] == pat_view(ps[i]),
    decreases ps,
{
    if ps.len() > 0 {
        lemma_pats_view(ps.subrange(1, ps.len() as int));
    }
}

/// Viewing commutes with appending one node.
pub proof fn lemma_pats_view_push(ps: Seq<Pattern>, p: Pattern)
    ensures
        pats_view(ps.push(p)) == pats_view(ps).push(pat_view(p)),
{
    lemma_pats_view(ps.push(p));
    lemma_pats_view(ps);
    assert(pats_view(ps.push(p)) =~= pats_view(ps).push(pat_view(p)));
}

/// Viewing commutes with dropping the last node.
pub proof fn lemma_pats_view_drop_last(ps: Seq<Pattern>)
    requires
        ps.len() > 0,
    ensures
        pats_view(ps.drop_last()) == pats_view(ps).drop_last(),
        pats_view(ps).last() == pat_view(ps.last()),
{
    lemma_pats_view(ps.drop_last());
    lemma_pats_view(ps);
    assert(pats_view(ps.drop_last()) =~= pats_view(ps).drop_last());
}

/// True for the ten ASCII decimal digits; the test behind `\d`.
pub open spec fn is_digit_char(c: char) -> bool {
    '0' <= c && c <= '9'
}

/// The numeric value of an ASCII decimal digit; 0 for any other character.
pub open spec fn digit_value(c: char) -> nat {
    if is_digit_char(c) {
        ((c as int) - ('0' as int)) as nat
    } else {
        0
    }
}

/// The test behind `\w`: what `char::is_alphanumeric` returns for `c`.
/// That predicate (Unicode `Alphabetic` plus `Number`) is a fixed function of
/// the character alone; it is left unspecified here and provided by
/// [`exec_is_alphanumeric`].
pub uninterp spec fn is_alnum_char(c: char) -> bool;

/// Relies on `char::is_alphanumeric`: a pure test of the character, constant
/// across calls, machines and processes.
#[verifier::external_body]
pub(crate) fn exec_is_alphanumeric(c: char) -> (r: bool)
    ensures
        r == is_alnum_char(c),
{
    c.is_alphanumeric()
}

/// One ASCII decimal digit test, executable form of [`is_digit_char`].
pub fn exec_is_digit(c: char) -> (r: bool)
    ensures
        r == is_digit_char(c),
{
    '0' <= c && c <= '9'
}

/// The largest capture index carried by any `Group` node in `p`;
/// 0 when `p` contains no group.
pub open spec fn max_group_index(p: PatternView) -> nat
    decreases p,
{
    match p {
        PatternView::OneOrMore(inner) => max_group_index(*inner),
        PatternView::ZeroOrOne(inner) => max_group_index(*inner),
        PatternView::Alternation(branches) => max_group_index_list(branches),
        PatternView::Group(nodes, idx) => max_nat(idx, max_group_index_list(nodes)),
        _ => 0,
    }
}

/// The largest capture index carried by any `Group` node in the sequence.
pub open spec fn max_group_index_list(ps: Seq<PatternView>) -> nat
    decreases ps,
{
    if ps.len() == 0 {
        0
    } else {
        max_nat(max_group_index(ps[0]), max_group_index_list(ps.subrange(1, ps.len() as int)))
    }
}

/// The larger of two naturals.
pub open spec fn max_nat(a: nat, b: nat) -> nat {
    if a >= b {
        a
    } else {
        b
    }
}

} // verus!
