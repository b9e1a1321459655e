//! The mathematical semantics of matching: a deterministic, greedy,
//! ordered-choice evaluation of a compiled node sequence against an input.
//!
//! Quantifiers are greedy and never give characters back once a later node
//! fails; alternation commits to the leftmost branch that succeeds. A
//! repetition stops as soon as an attempt of its inner node succeeds without
//! consuming anything, since every further attempt would be identical.

use vstd::prelude::*;
use crate::pattern::PatternView;
use crate::pattern::is_digit_char;
use crate::pattern::is_alnum_char;
use crate::pattern::max_group_index_list;

verus! {

/// The capture table of one match attempt: slot `k - 1` holds the text
/// captured by group `k`, or `None` while group `k` has not yet matched.
pub type SpecCaps = Seq<Option<Seq<char>>>;

/// The outcome of matching a node or sequence at a position: `None` on
/// failure; on success, the position after the consumed text and the capture
/// table as the successful attempt leaves it.
pub type StepResult = Option<(nat, SpecCaps)>;

/// `input.len() - pos`, clamped at zero.
pub open spec fn remaining(input: Seq<char>, pos: nat) -> nat {
    if pos <= input.len() {
        (input.len() - pos) as nat
    } else {
        0
    }
}

/// Records `text` under capture index `idx` (1-based); an index outside the
/// table leaves it unchanged.
pub open spec fn cap_store(caps: SpecCaps, idx: nat, text: Seq<char>) -> SpecCaps {
    if 1 <= idx && idx <= caps.len() {
        caps.update(idx as int - 1, Some(text))
    } else {
        caps
    }
}

/// The text captured under index `k`, if that group has captured.
pub open spec fn cap_lookup(caps: SpecCaps, k: nat) -> Option<Seq<char>> {
    if 1 <= k && k <= caps.len() {
        caps[k as int - 1]
    } else {
        None
    }
}

/// Whether the single-character class node `p` accepts the character `c`.
pub open spec fn class_accepts(p: PatternView, c: char) -> bool {
    match p {
        PatternView::Digit => is_digit_char(c),
        PatternView::Alphanumeric => is_alnum_char(c),
        PatternView::AnyChar => true,
        PatternView::CharGroup(members, negated) => members.contains(c) != negated,
        _ => false,
    }
}

/// Whether `text` occurs verbatim in `input` at position `pos`.
pub open spec fn literal_matches_at(text: Seq<char>, input: Seq<char>, pos: nat) -> bool {
    pos + text.len() <= input.len() && input.subrange(pos as int, pos as int + text.len()) == text
}

/// Matches the node sequence `pats` against `input` from position `pos`.
///
/// `allow_start` is true exactly when a `^` standing at the head of `pats`
/// may succeed: the head of the top-level sequence of an attempt anchored at
/// the true line start. A `$` succeeds only as the last node of its sequence,
/// with the input exhausted.
pub open spec fn seq_matches(
    pats: Seq<PatternView>,
    input: Seq<char>,
    pos: nat,
    caps: SpecCaps,
    allow_start: bool,
) -> StepResult
    decreases remaining(input, pos), pats, 0nat,
{
    if pats.len() == 0 {
        Some((pos, caps))
    } else {
        match pats[0] {
            PatternView::Start => if allow_start {
                seq_matches(pats.subrange(1, pats.len() as int), input, pos, caps, false)
            } else {
                None
            },
            PatternView::End => if pats.len() == 1 && pos == input.len() {
                Some((pos, caps))
            } else {
                None
            },
            _ => match node_matches(pats[0], input, pos, caps) {
                None => None,
                Some((pos2, caps2)) => if pos2 == pos {
                    seq_matches(pats.subrange(1, pats.len() as int), input, pos, caps2, false)
                } else if pos < input.len() && pos2 > pos {
                    seq_matches(pats.subrange(1, pats.len() as int), input, pos2, caps2, false)
                } else {
                    None
                },
            },
        }
    }
}

/// Matches a single node against `input` at `pos`. Anchors fail here: inside
/// a quantifier or an alternation branch they have no meaning.
pub open spec fn node_matches(p: PatternView, input: Seq<char>, pos: nat, caps: SpecCaps) -> StepResult
    decreases remaining(input, pos), p, 1nat,
{
    match p {
        PatternView::Literal(lit) => if literal_matches_at(lit, input, pos) {
            Some(((pos + lit.len()) as nat, caps))
        } else {
            None
        },
        PatternView::Digit | PatternView::Alphanumeric | PatternView::AnyChar | PatternView::CharGroup(_, _) => {
            if pos < input.len() && class_accepts(p, input[pos as int]) {
                Some((pos + 1, caps))
            } else {
                None
            }
        },
        PatternView::Start | PatternView::End => None,
        PatternView::OneOrMore(inner) => rep_matches(*inner, input, pos, caps),
        PatternView::ZeroOrOne(inner) => match node_matches(*inner, input, pos, caps) {
            None => Some((pos, caps)),
            Some(r) => Some(r),
        },
        PatternView::Group(nodes, idx) => match seq_matches(nodes, input, pos, caps, false) {
            None => None,
            Some((pos2, caps2)) => if pos <= pos2 && pos2 <= input.len() {
                Some((pos2, cap_store(caps2, idx, input.subrange(pos as int, pos2 as int))))
            } else {
                None
            },
        },
        PatternView::Alternation(branches) => alt_matches(branches, input, pos, caps),
        PatternView::BackReference(k) => match cap_lookup(caps, k) {
            None => None,
            Some(text) => if literal_matches_at(text, input, pos) {
                Some(((pos + text.len()) as nat, caps))
            } else {
                None
            },
        },
    }
}

/// Matches `inner` greedily one or more times: the first attempt must
/// succeed; afterwards, attempts repeat at the advancing position until one
/// fails (keeping what was already consumed) or stops advancing.
pub open spec fn rep_matches(inner: PatternView, input: Seq<char>, pos: nat, caps: SpecCaps) -> StepResult
    decreases remaining(input, pos), inner, 2nat,
{
    match node_matches(inner, input, pos, caps) {
        None => None,
        Some((pos2, caps2)) => if pos2 == pos {
            Some((pos2, caps2))
        } else if pos < input.len() && pos2 > pos {
            match rep_matches(inner, input, pos2, caps2) {
                None => Some((pos2, caps2)),
                Some(r) => Some(r),
            }
        } else {
            None
        },
    }
}

/// Tries the alternation branches in order; the first success wins, and a
/// failed branch leaves no trace in the capture table.
pub open spec fn alt_matches(branches: Seq<PatternView>, input: Seq<char>, pos: nat, caps: SpecCaps) -> StepResult
    decreases remaining(input, pos), branches, 0nat,
{
    if branches.len() == 0 {
        None
    } else {
        match node_matches(branches[0], input, pos, caps) {
            Some(r) => Some(r),
            None => alt_matches(branches.subrange(1, branches.len() as int), input, pos, caps),
        }
    }
}

/// A capture table of `n` empty slots.
pub open spec fn empty_caps(n: nat) -> SpecCaps {
    Seq::new(n, |i: int| None)
}

/// Whether the compiled sequence opens with the `^` anchor.
pub open spec fn has_start_anchor(pats: Seq<PatternView>) -> bool {
    pats.len() > 0 && pats[0] is Start
}

/// Whether the compiled sequence closes with the `$` anchor.
pub open spec fn has_end_anchor(pats: Seq<PatternView>) -> bool {
    pats.len() > 0 && pats.last() is End
}

/// One aligned attempt: the whole sequence matches from offset `pos` with a
/// fresh capture table sized for every group of the pattern.
pub open spec fn attempt_matches(pats: Seq<PatternView>, input: Seq<char>, pos: nat, line_start: bool) -> bool {
    seq_matches(pats, input, pos, empty_caps(max_group_index_list(pats)), line_start) is Some
}

/// What matching decides for a compiled sequence: a single attempt anchored
/// at offset 0 when the sequence opens with `^`, otherwise a search trying
/// every starting offset below the input length, smallest first.
pub open spec fn spec_match(pats: Seq<PatternView>, input: Seq<char>) -> bool {
    if has_start_anchor(pats) {
        attempt_matches(pats, input, 0, true)
    } else {
        exists|k: int| 0 <= k < input.len() && #[trigger] attempt_matches(pats, input, k as nat, false)
    }
}

} // verus!
