//! The matcher: walks a compiled node sequence against an input line,
//! maintaining a capture table, and decides whether the pattern aligns with
//! some window of the input.
//!
//! Every function here is proved to return exactly what the semantics in
//! [`crate::semantics`] defines. The capture table is copied before any
//! speculative attempt (an alternation branch, a further repetition step),
//! so a failed attempt leaves no trace in it.

use vstd::prelude::*;
use crate::pattern::Pattern;
use crate::pattern::PatternView;
use crate::pattern::pat_view;
use crate::pattern::pats_view;
use crate::pattern::lemma_pats_view;
use crate::pattern::exec_is_digit;
use crate::pattern::exec_is_alphanumeric;
use crate::pattern::max_group_index;
use crate::pattern::max_group_index_list;
use crate::semantics::SpecCaps;
use crate::semantics::remaining;
use crate::semantics::cap_store;
use crate::semantics::class_accepts;
use crate::semantics::literal_matches_at;
use crate::semantics::seq_matches;
use crate::semantics::node_matches;
use crate::semantics::rep_matches;
use crate::semantics::alt_matches;
use crate::semantics::empty_caps;
use crate::semantics::has_start_anchor;
use crate::semantics::attempt_matches;
use crate::semantics::spec_match;
use crate::parser::spec_parse;
use crate::parser::parse_pattern;

verus! {

/// The capture table of one match attempt: slot `k - 1` holds the text
/// captured by group `k` so far.
pub type CapTable = Vec<Option<Vec<char>>>;

/// The mathematical form of a capture table.
pub open spec fn caps_view(c: Seq<Option<Vec<char>>>) -> SpecCaps {
    Seq::new(
        c.len(),
        |i: int| match c[i] {
            Some(v) => Some(v@),
            None => None,
        },
    )
}

/// A capture table of `n` empty slots.
pub fn new_caps(n: usize) -> (r: CapTable)
    ensures
        caps_view(r@) == empty_caps(n as nat),
{
    let mut r: CapTable = Vec::new();
    let mut i: usize = 0;
    while i < n
        invariant
            i <= n,
            r@.len() == i,
            forall|j: int| 0 <= j < i ==> r@[j] is None,
        decreases n - i,
    {
        r.push(None);
        i = i + 1;
    }
    proof {
        assert(caps_view(r@) =~= empty_caps(n as nat));
    }
    r
}

/// A fresh copy of a capture table, equal to it slot by slot.
pub fn clone_caps(caps: &CapTable) -> (r: CapTable)
    ensures
        caps_view(r@) == caps_view(caps@),
{
    let mut r: CapTable = Vec::new();
    let mut i: usize = 0;
    while i < caps.len()
        invariant
            i <= caps@.len(),
            r@.len() == i,
            forall|j: int| 0 <= j < i ==> caps_view(r@)[j] == caps_view(caps@)[j],
        decreases caps@.len() - i,
    {
        match &caps[i] {
            Some(text) => {
                let copy = copy_chars(text);
                r.push(Some(copy));
            },
            None => {
                r.push(None);
            },
        }
        i = i + 1;
    }
    proof {
        assert(caps_view(r@) =~= caps_view(caps@));
    }
    r
}

/// A fresh copy of a character vector.
fn copy_chars(s: &Vec<char>) -> (r: Vec<char>)
    ensures
        r@ == s@,
{
    let mut r: Vec<char> = Vec::new();
    let mut j: usize = 0;
    while j < s.len()
        invariant
            j <= s@.len(),
            r@ == s@.subrange(0, j as int),
        decreases s@.len() - j,
    {
        r.push(s[j]);
        j = j + 1;
        proof {
            assert(r@ =~= s@.subrange(0, j as int));
        }
    }
    proof {
        assert(r@ =~= s@);
    }
    r
}

/// The characters of `input` between `start` and `end`: the text a group
/// consumed, ready to be recorded in the capture table.
pub fn extract_captured(input: &Vec<char>, start: usize, end: usize) -> (r: Vec<char>)
    requires
        start <= end <= input@.len(),
    ensures
        r@ == input@.subrange(start as int, end as int),
{
    let mut r: Vec<char> = Vec::new();
    let mut j: usize = start;
    while j < end
        invariant
            start <= j <= end <= input@.len(),
            r@ == input@.subrange(start as int, j as int),
        decreases end - j,
    {
        r.push(input[j]);
        j = j + 1;
        proof {
            assert(r@ =~= input@.subrange(start as int, j as int));
        }
    }
    r
}

/// Whether `c` is one of the characters of `members`.
fn contains_char(members: &Vec<char>, c: char) -> (r: bool)
    ensures
        r == members@.contains(c),
{
    let mut j: usize = 0;
    while j < members.len()
        invariant
            j <= members@.len(),
            forall|k: int| 0 <= k < j ==> members@[k] != c,
        decreases members@.len() - j,
    {
        if members[j] == c {
            return true;
        }
        j = j + 1;
    }
    false
}

/// Whether `literal` occurs verbatim in `input` at position `pos`.
#[verifier::loop_isolation(false)]
pub fn match_literal(literal: &Vec<char>, input: &Vec<char>, pos: usize) -> (r: bool)
    ensures
        r == literal_matches_at(literal@, input@, pos as nat),
{
    proof {
        assert(input@.len() == input.len());
    }
    if pos > input.len() || input.len() - pos < literal.len() {
        return false;
    }
    let mut j: usize = 0;
    while j < literal.len()
        invariant
            j <= literal@.len(),
            pos + literal@.len() <= input@.len(),
            forall|k: int| 0 <= k < j ==> input@[pos + k] == literal@[k],
        decreases literal@.len() - j,
    {
        if input[pos + j] != literal[j] {
            proof {
                assert(input@.subrange(pos as int, pos as int + literal@.len())[j as int]
                    == input@[pos + j]);
            }
            return false;
        }
        j = j + 1;
    }
    proof {
        assert(input@.subrange(pos as int, pos as int + literal@.len()) =~= literal@);
    }
    true
}

/// Tests a single-character class node at `pos`: true when the node accepts
/// the character standing there. An anchor answers true (it constrains
/// positions, not characters); any other node answers false.
pub fn match_class(pattern: &Pattern, input: &Vec<char>, pos: usize) -> (r: bool)
    ensures
        r == (match pat_view(*pattern) {
            PatternView::Digit | PatternView::Alphanumeric | PatternView::AnyChar
                | PatternView::CharGroup(_, _) => pos < input@.len() && class_accepts(
                pat_view(*pattern),
                input@[pos as int],
            ),
            PatternView::Start | PatternView::End => true,
            _ => false,
        }),
{
    match pattern {
        Pattern::Digit => pos < input.len() && exec_is_digit(input[pos]),
        Pattern::Alphanumeric => pos < input.len() && exec_is_alphanumeric(input[pos]),
        Pattern::AnyChar => pos < input.len(),
        Pattern::CharGroup(members, negated) => pos < input.len() && (contains_char(
            members,
            input[pos],
        ) != *negated),
        Pattern::Start | Pattern::End => true,
        _ => false,
    }
}

/// Matches one node at `pos`, as [`node_matches`] defines: on success the
/// returned position stands after the consumed text and the capture table
/// holds what the attempt recorded; on failure the capture table is dead,
/// to be discarded or restored by the caller.
#[verifier::loop_isolation(false)]
pub fn match_subpattern(pattern: &Pattern, input: &Vec<char>, pos: usize, caps: &mut CapTable) -> (r:
    Option<usize>)
    requires
        pos <= input@.len(),
    ensures
        (match node_matches(pat_view(*pattern), input@, pos as nat, caps_view(old(caps)@)) {
            Some((p2, c2)) => r matches Some(q) && q as nat == p2 && caps_view(final(caps)@) == c2,
            None => r is None,
        }),
        r matches Some(q) ==> pos <= q <= input@.len(),
    decreases remaining(input@, pos as nat), *pattern,
{
    let ghost c0 = caps_view(caps@);
    proof {
        assert(input@.len() == input.len());
    }
    match pattern {
        Pattern::Literal(lit) => {
            if match_literal(lit, input, pos) {
                Some(pos + lit.len())
            } else {
                None
            }
        },
        Pattern::Digit | Pattern::Alphanumeric | Pattern::AnyChar | Pattern::CharGroup(_, _) => {
            if match_class(pattern, input, pos) {
                Some(pos + 1)
            } else {
                None
            }
        },
        Pattern::Start | Pattern::End => None,
        Pattern::OneOrMore(inner) => {
            let first = match_subpattern(inner, input, pos, caps);
            match first {
                None => None,
                Some(p1) => {
                    if p1 == pos {
                        Some(p1)
                    } else {
                        let mut cur = p1;
                        loop
                            invariant
                                pos < cur <= input@.len(),
                                pos < input@.len(),
                                rep_matches(pat_view(**inner), input@, pos as nat, c0) == (
                                match rep_matches(
                                    pat_view(**inner),
                                    input@,
                                    cur as nat,
                                    caps_view(caps@),
                                ) {
                                    None => Some((cur as nat, caps_view(caps@))),
                                    Some(other) => Some(other),
                                }),
                            decreases input@.len() - cur,
                        {
                            let saved = clone_caps(caps);
                            let nxt = match_subpattern(inner, input, cur, caps);
                            match nxt {
                                None => {
                                    *caps = saved;
                                    return Some(cur);
                                },
                                Some(p2) => {
                                    if p2 == cur {
                                        return Some(p2);
                                    }
                                    cur = p2;
                                },
                            }
                        }
                    }
                },
            }
        },
        Pattern::ZeroOrOne(inner) => {
            let mut tmp = clone_caps(caps);
            match match_subpattern(inner, input, pos, &mut tmp) {
                Some(p) => {
                    *caps = tmp;
                    Some(p)
                },
                None => Some(pos),
            }
        },
        Pattern::Group(nodes, idx) => {
            match match_from_current_position(input, nodes, pos, false, caps) {
                None => None,
                Some(p2) => {
                    let text = extract_captured(input, pos, p2);
                    let ghost mid = caps_view(caps@);
                    if 1 <= *idx && *idx <= caps.len() {
                        caps[*idx - 1] = Some(text);
                    }
                    proof {
                        assert(caps_view(caps@) =~= cap_store(
                            mid,
                            *idx as nat,
                            input@.subrange(pos as int, p2 as int),
                        ));
                    }
                    Some(p2)
                },
            }
        },
        Pattern::Alternation(branches) => {
            let ghost bv = pats_view(branches@);
            proof {
                lemma_pats_view(branches@);
            }
            let mut bi: usize = 0;
            proof {
                assert(bv.subrange(0, bv.len() as int) =~= bv);
            }
            loop
                invariant
                    bi <= branches@.len(),
                    bv == pats_view(branches@),
                    bv.len() == branches@.len(),
                    forall|k: int| 0 <= k < branches@.len() ==> bv[k] == pat_view(branches@[k]),
                    caps_view(caps@) == c0,
                    pos <= input@.len(),
                    alt_matches(bv, input@, pos as nat, c0) == alt_matches(
                        bv.subrange(bi as int, bv.len() as int),
                        input@,
                        pos as nat,
                        c0,
                    ),
                decreases branches@.len() - bi,
            {
                if bi >= branches.len() {
                    return None;
                }
                let mut tmp = clone_caps(caps);
                proof {
                    assert(decreases_to!(*pattern => *branches));
                    assert(decreases_to!(*branches => branches@[bi as int]));
                }
                let attempt = match_subpattern(&branches[bi], input, pos, &mut tmp);
                match attempt {
                    Some(p) => {
                        *caps = tmp;
                        return Some(p);
                    },
                    None => {
                        proof {
                            assert(bv.subrange(bi as int, bv.len() as int).subrange(
                                1,
                                bv.len() - bi,
                            ) =~= bv.subrange(bi as int + 1, bv.len() as int));
                        }
                        bi = bi + 1;
                    },
                }
            }
        },
        Pattern::BackReference(k) => {
            let k0 = *k;
            if 1 <= k0 && k0 <= caps.len() {
                match &caps[k0 - 1] {
                    Some(text) => {
                        if match_literal(text, input, pos) {
                            Some(pos + text.len())
                        } else {
                            None
                        }
                    },
                    None => None,
                }
            } else {
                None
            }
        },
    }
}

/// Walks the node sequence in order from `pos`, as [`seq_matches`] defines.
/// `is_start` tells whether this attempt begins at the true start of the
/// line, which is what a leading `^` requires. On failure the capture table
/// is dead, to be discarded or restored by the caller.
#[verifier::loop_isolation(false)]
pub fn match_from_current_position(
    input: &Vec<char>,
    patterns: &Vec<Pattern>,
    pos: usize,
    is_start: bool,
    caps: &mut CapTable,
) -> (r: Option<usize>)
    requires
        pos <= input@.len(),
    ensures
        (match seq_matches(
            pats_view(patterns@),
            input@,
            pos as nat,
            caps_view(old(caps)@),
            is_start,
        ) {
            Some((p2, c2)) => r matches Some(q) && q as nat == p2 && caps_view(final(caps)@) == c2,
            None => r is None,
        }),
        r matches Some(q) ==> pos <= q <= input@.len(),
    decreases remaining(input@, pos as nat), patterns@,
{
    let ghost pv = pats_view(patterns@);
    let ghost c0 = caps_view(caps@);
    proof {
        lemma_pats_view(patterns@);
    }
    proof {
        assert(input@.len() == input.len());
        assert(pv.subrange(0, pv.len() as int) =~= pv);
    }
    let mut i: usize = 0;
    let mut cur = pos;
    while i < patterns.len()
        invariant
            i <= patterns@.len(),
            pos <= cur <= input@.len(),
            pv == pats_view(patterns@),
            pv.len() == patterns@.len(),
            forall|k: int| 0 <= k < patterns@.len() ==> pv[k] == pat_view(patterns@[k]),
            seq_matches(pv, input@, pos as nat, c0, is_start) == seq_matches(
                pv.subrange(i as int, pv.len() as int),
                input@,
                cur as nat,
                caps_view(caps@),
                is_start && i == 0,
            ),
        decreases patterns@.len() - i,
    {
        let ghost tail = pv.subrange(i as int, pv.len() as int);
        proof {
            assert(tail.subrange(1, tail.len() as int) =~= pv.subrange(
                i as int + 1,
                pv.len() as int,
            ));
        }
        let p = &patterns[i];
        match p {
            Pattern::Start => {
                if !(i == 0 && is_start) {
                    return None;
                }
            },
            Pattern::End => {
                if !(i == patterns.len() - 1 && cur == input.len()) {
                    return None;
                }
            },
            _ => {
                let step = match_subpattern(p, input, cur, caps);
                match step {
                    None => {
                        return None;
                    },
                    Some(p2) => {
                        cur = p2;
                    },
                }
            },
        }
        i = i + 1;
    }
    Some(cur)
}

/// The largest capture index carried by any group of the node, executable
/// form of [`max_group_index`].
fn max_index_of(p: &Pattern) -> (r: usize)
    ensures
        r as nat == max_group_index(pat_view(*p)),
    decreases *p, 0nat,
{
    match p {
        Pattern::OneOrMore(inner) => max_index_of(inner),
        Pattern::ZeroOrOne(inner) => max_index_of(inner),
        Pattern::Alternation(branches) => {
            proof {
                lemma_pats_view(branches@);
                assert(pats_view(branches@).subrange(0, pats_view(branches@).len() as int)
                    =~= pats_view(branches@));
            }
            max_index_of_list(branches, 0)
        },
        Pattern::Group(nodes, idx) => {
            proof {
                lemma_pats_view(nodes@);
                assert(pats_view(nodes@).subrange(0, pats_view(nodes@).len() as int)
                    =~= pats_view(nodes@));
            }
            let rest = max_index_of_list(nodes, 0);
            if *idx >= rest {
                *idx
            } else {
                rest
            }
        },
        _ => 0,
    }
}

/// The largest capture index carried by any group of the nodes from `i` on.
#[verifier::loop_isolation(false)]
fn max_index_of_list(ps: &Vec<Pattern>, i: usize) -> (r: usize)
    requires
        i <= ps@.len(),
    ensures
        r as nat == max_group_index_list(pats_view(ps@).subrange(i as int, ps@.len() as int)),
    decreases ps@, 1nat, ps@.len() - i,
{
    proof {
        lemma_pats_view(ps@);
    }
    let ghost tail = pats_view(ps@).subrange(i as int, ps@.len() as int);
    if i >= ps.len() {
        proof {
            assert(tail =~= Seq::<PatternView>::empty());
        }
        0
    } else {
        proof {
            assert(tail.subrange(1, tail.len() as int) =~= pats_view(ps@).subrange(
                i as int + 1,
                ps@.len() as int,
            ));
        }
        let head = max_index_of(&ps[i]);
        let rest = max_index_of_list(ps, i + 1);
        if head >= rest {
            head
        } else {
            rest
        }
    }
}

/// Whether the node is the `^` anchor.
fn is_start_node(p: &Pattern) -> (r: bool)
    ensures
        r == (pat_view(*p) is Start),
{
    matches!(p, Pattern::Start)
}

/// Decides whether `input_line` satisfies `pattern_str`: compiles the
/// pattern, then tries one attempt anchored at offset 0 when the compiled
/// sequence opens with `^`, else every starting offset below the input
/// length, smallest first. Exactly [`spec_match`] of the compiled sequence.
#[verifier::loop_isolation(false)]
pub fn match_pattern(input_line: &str, pattern_str: &str) -> (r: bool)
    ensures
        r == spec_match(spec_parse(pattern_str@), input_line@),
{
    let patterns = parse_pattern(pattern_str);
    let input = crate::parser::to_char_vec(input_line);
    let ghost pv = pats_view(patterns@);
    proof {
        lemma_pats_view(patterns@);
    }
    let group_count = max_index_of_list(&patterns, 0);
    proof {
        assert(pats_view(patterns@).subrange(0, patterns@.len() as int) =~= pv);
    }
    let starts = patterns.len() > 0 && is_start_node(&patterns[0]);
    proof {
        assert(starts == has_start_anchor(pv));
    }
    if starts {
        let mut caps = new_caps(group_count);
        let r = match_from_current_position(&input, &patterns, 0, true, &mut caps);
        proof {
            assert(r is Some <==> attempt_matches(pv, input@, 0, true));
        }
        r.is_some()
    } else {
        let mut k: usize = 0;
        while k < input.len()
            invariant
                k <= input@.len(),
                input@ == input_line@,
                pv == pats_view(patterns@),
                group_count as nat == max_group_index_list(pv),
                !has_start_anchor(pv),
                forall|j: int| 0 <= j < k ==> !#[trigger] attempt_matches(pv, input@, j as nat, false),
            decreases input@.len() - k,
        {
            let mut caps = new_caps(group_count);
            let r = match_from_current_position(&input, &patterns, k, false, &mut caps);
            if r.is_some() {
                proof {
                    let witness: int = k as int;
                    assert(attempt_matches(pv, input@, witness as nat, false));
                    assert(spec_match(pv, input@)) by {
                        assert(0 <= witness && witness < input@.len() && attempt_matches(
                            pv,
                            input@,
                            witness as nat,
                            false,
                        ));
                    }
                }
                return true;
            }
            proof {
                assert(!attempt_matches(pv, input@, k as nat, false));
            }
            k = k + 1;
        }
        false
    }
}

} // verus!
