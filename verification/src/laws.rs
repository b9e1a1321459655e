//! Laws of the matching semantics, each proved once and for all inputs:
//! the offset search behind an unanchored match, exact consumption under
//! both anchors, what the quantifiers can and cannot do, the recurrence a
//! backreference demands, and how a negated class decides.

use vstd::prelude::*;
use crate::pattern::PatternView;
use crate::pattern::max_group_index_list;
use crate::semantics::SpecCaps;
use crate::semantics::remaining;
use crate::semantics::cap_store;
use crate::semantics::cap_lookup;
use crate::semantics::literal_matches_at;
use crate::semantics::seq_matches;
use crate::semantics::node_matches;
use crate::semantics::rep_matches;
use crate::semantics::alt_matches;
use crate::semantics::empty_caps;
use crate::semantics::has_start_anchor;
use crate::semantics::has_end_anchor;
use crate::semantics::attempt_matches;
use crate::semantics::spec_match;

verus! {

/// A successful sequence match leaves the capture table with its length
/// unchanged: groups only overwrite slots, they never add or remove any.
pub proof fn lemma_seq_preserves_caps_len(
    pats: Seq<PatternView>,
    input: Seq<char>,
    pos: nat,
    caps: SpecCaps,
    allow_start: bool,
)
    ensures
        (match seq_matches(pats, input, pos, caps, allow_start) {
            Some((end, cf)) => cf.len() == caps.len(),
            None => true,
        }),
    decreases remaining(input, pos), pats, 0nat,
{
    if pats.len() > 0 {
        let tail = pats.subrange(1, pats.len() as int);
        match pats[0] {
            PatternView::Start => {
                if allow_start {
                    lemma_seq_preserves_caps_len(tail, input, pos, caps, false);
                }
            },
            PatternView::End => {},
            _ => {
                lemma_node_preserves_caps_len(pats[0], input, pos, caps);
                match node_matches(pats[0], input, pos, caps) {
                    None => {},
                    Some((pos2, caps2)) => {
                        if pos2 == pos {
                            lemma_seq_preserves_caps_len(tail, input, pos, caps2, false);
                        } else if pos < input.len() && pos2 > pos {
                            lemma_seq_preserves_caps_len(tail, input, pos2, caps2, false);
                        }
                    },
                }
            },
        }
    }
}

/// A successful node match leaves the capture table length unchanged.
pub proof fn lemma_node_preserves_caps_len(p: PatternView, input: Seq<char>, pos: nat, caps: SpecCaps)
    ensures
        (match node_matches(p, input, pos, caps) {
            Some((end, cf)) => cf.len() == caps.len(),
            None => true,
        }),
    decreases remaining(input, pos), p, 1nat,
{
    match p {
        PatternView::OneOrMore(inner) => {
            lemma_rep_preserves_caps_len(*inner, input, pos, caps);
        },
        PatternView::ZeroOrOne(inner) => {
            lemma_node_preserves_caps_len(*inner, input, pos, caps);
        },
        PatternView::Group(nodes, idx) => {
            lemma_seq_preserves_caps_len(nodes, input, pos, caps, false);
        },
        PatternView::Alternation(branches) => {
            lemma_alt_preserves_caps_len(branches, input, pos, caps);
        },
        _ => {},
    }
}

/// A successful repetition leaves the capture table length unchanged.
pub proof fn lemma_rep_preserves_caps_len(
    inner: PatternView,
    input: Seq<char>,
    pos: nat,
    caps: SpecCaps,
)
    ensures
        (match rep_matches(inner, input, pos, caps) {
            Some((end, cf)) => cf.len() == caps.len(),
            None => true,
        }),
    decreases remaining(input, pos), inner, 2nat,
{
    lemma_node_preserves_caps_len(inner, input, pos, caps);
    match node_matches(inner, input, pos, caps) {
        None => {},
        Some((pos2, caps2)) => {
            if pos2 == pos {
            } else if pos < input.len() && pos2 > pos {
                lemma_rep_preserves_caps_len(inner, input, pos2, caps2);
            }
        },
    }
}

/// A successful alternation leaves the capture table length unchanged.
pub proof fn lemma_alt_preserves_caps_len(
    branches: Seq<PatternView>,
    input: Seq<char>,
    pos: nat,
    caps: SpecCaps,
)
    ensures
        (match alt_matches(branches, input, pos, caps) {
            Some((end, cf)) => cf.len() == caps.len(),
            None => true,
        }),
    decreases remaining(input, pos), branches, 0nat,
{
    if branches.len() > 0 {
        lemma_node_preserves_caps_len(branches[0], input, pos, caps);
        if node_matches(branches[0], input, pos, caps) is None {
            lemma_alt_preserves_caps_len(
                branches.subrange(1, branches.len() as int),
                input,
                pos,
                caps,
            );
        }
    }
}

/// The offset-search law: for a compiled sequence that does not open with
/// `^`, the input satisfies the pattern exactly when some starting offset
/// below the input length begins a successful alignment — matching is a
/// substring search over every offset, smallest first.
pub proof fn lemma_unanchored_offset_search(pats: Seq<PatternView>, input: Seq<char>)
    requires
        !has_start_anchor(pats),
    ensures
        spec_match(pats, input) <==> exists|k: int|
            0 <= k < input.len() && #[trigger] attempt_matches(pats, input, k as nat, false),
{
}

/// A sequence that closes with `$` can only succeed by consuming the input
/// to its very end.
pub proof fn lemma_end_anchor_consumes_all(
    pats: Seq<PatternView>,
    input: Seq<char>,
    pos: nat,
    caps: SpecCaps,
    allow_start: bool,
)
    requires
        pats.len() > 0,
        pats.last() is End,
    ensures
        (match seq_matches(pats, input, pos, caps, allow_start) {
            Some((end, cf)) => end == input.len(),
            None => true,
        }),
    decreases remaining(input, pos), pats, 0nat,
{
    let tail = pats.subrange(1, pats.len() as int);
    match pats[0] {
        PatternView::Start => {
            if allow_start && pats.len() > 1 {
                assert(tail.last() == pats.last());
                lemma_end_anchor_consumes_all(tail, input, pos, caps, false);
            }
        },
        PatternView::End => {},
        _ => {
            match node_matches(pats[0], input, pos, caps) {
                None => {},
                Some((pos2, caps2)) => {
                    assert(pats.len() > 1);
                    assert(tail.last() == pats.last());
                    if pos2 == pos {
                        lemma_end_anchor_consumes_all(tail, input, pos, caps2, false);
                    } else if pos < input.len() && pos2 > pos {
                        lemma_end_anchor_consumes_all(tail, input, pos2, caps2, false);
                    }
                },
            }
        },
    }
}

/// The anchoring law: a sequence that opens with `^` and closes with `$`
/// matches exactly when it consumes the whole input, end to end, in the
/// single attempt anchored at offset 0.
pub proof fn lemma_anchored_exact(pats: Seq<PatternView>, input: Seq<char>)
    requires
        has_start_anchor(pats),
        has_end_anchor(pats),
    ensures
        spec_match(pats, input) <==> (match seq_matches(
            pats,
            input,
            0,
            empty_caps(max_group_index_list(pats)),
            true,
        ) {
            Some((end, cf)) => end == input.len(),
            None => false,
        }),
{
    lemma_end_anchor_consumes_all(pats, input, 0, empty_caps(max_group_index_list(pats)), true);
}

/// The `+` law, first half: a repetition never matches zero occurrences —
/// when the inner node fails at a position, so does the repetition.
pub proof fn lemma_one_or_more_needs_one(
    inner: PatternView,
    input: Seq<char>,
    pos: nat,
    caps: SpecCaps,
)
    ensures
        node_matches(PatternView::OneOrMore(Box::new(inner)), input, pos, caps) is Some
            ==> node_matches(inner, input, pos, caps) is Some,
{
    assert(node_matches(PatternView::OneOrMore(Box::new(inner)), input, pos, caps)
        == rep_matches(inner, input, pos, caps));
}

/// The `?` law, second half: an optional node never fails — at worst it
/// consumes nothing and leaves the capture table alone.
pub proof fn lemma_zero_or_one_never_fails(
    inner: PatternView,
    input: Seq<char>,
    pos: nat,
    caps: SpecCaps,
)
    ensures
        node_matches(PatternView::ZeroOrOne(Box::new(inner)), input, pos, caps) is Some,
        node_matches(inner, input, pos, caps) is None
            ==> node_matches(PatternView::ZeroOrOne(Box::new(inner)), input, pos, caps) == Some(
            (pos, caps),
        ),
{
}

/// The backreference law: for a sequence `(X)\1`, success demands that the
/// text the group consumed reoccurs literally, immediately after it — the
/// match splits at a midpoint with two equal halves, and that text is what
/// group 1 captured.
pub proof fn lemma_backreference_repeats(
    pats: Seq<PatternView>,
    xs: Seq<PatternView>,
    input: Seq<char>,
    pos: nat,
    caps: SpecCaps,
    end: nat,
    cf: SpecCaps,
)
    requires
        pats == seq![PatternView::Group(xs, 1), PatternView::BackReference(1)],
        caps.len() >= 1,
        seq_matches(pats, input, pos, caps, false) == Some((end, cf)),
    ensures
        exists|mid: int|
            pos <= mid <= end && end <= input.len() && (end - mid == mid - pos) && (#[trigger] input.subrange(
                pos as int,
                mid,
            )) == input.subrange(mid, end as int) && cf[0] == Some(
                input.subrange(pos as int, mid),
            ),
{
    let tail = pats.subrange(1, pats.len() as int);
    assert(tail =~= seq![PatternView::BackReference(1)]);
    assert(pats[0] == PatternView::Group(xs, 1));
    let first = node_matches(pats[0], input, pos, caps);
    assert(first is Some);
    let (mid, c3) = first->0;
    let inner = seq_matches(xs, input, pos, caps, false);
    assert(inner is Some);
    let (mid0, c2) = inner->0;
    assert(mid0 == mid);
    assert(pos <= mid <= input.len());
    let captured = input.subrange(pos as int, mid as int);
    lemma_seq_preserves_caps_len(xs, input, pos, caps, false);
    assert(c2.len() == caps.len() >= 1);
    assert(c3 == cap_store(c2, 1, captured));
    assert(c3[0] == Some(captured));
    assert(c3.len() == c2.len());
    let second = seq_matches(tail, input, mid, c3, false);
    assert(second == Some((end, cf)));
    let back = node_matches(PatternView::BackReference(1), input, mid, c3);
    assert(cap_lookup(c3, 1) == Some(captured));
    assert(back is Some);
    assert(literal_matches_at(captured, input, mid));
    let pos2 = (mid + captured.len()) as nat;
    assert(back == Some((pos2, c3)));
    assert(tail.subrange(1, tail.len() as int) =~= Seq::<PatternView>::empty());
    assert(seq_matches(tail.subrange(1, tail.len() as int), input, pos2, c3, false) == Some(
        (pos2, c3),
    ));
    assert(seq_matches(tail.subrange(1, tail.len() as int), input, mid, c3, false) == Some(
        (mid, c3),
    ));
    assert(end == mid + captured.len());
    assert(input.subrange(mid as int, end as int) == captured);
    assert(cf == c3);
    assert(pos <= mid as int <= end && end <= input.len() && (end - mid as int == mid as int - pos)
        && input.subrange(pos as int, mid as int) == input.subrange(mid as int, end as int)
        && cf[0] == Some(input.subrange(pos as int, mid as int)));
}

/// The negated-class law: `[^...]` matches exactly one character, any
/// character not among its members, and at the end of the input it fails
/// exactly like its non-negated counterpart.
pub proof fn lemma_negated_class(members: Seq<char>, input: Seq<char>, pos: nat, caps: SpecCaps)
    ensures
        pos < input.len() && !members.contains(input[pos as int]) ==> node_matches(
            PatternView::CharGroup(members, true),
            input,
            pos,
            caps,
        ) == Some(((pos + 1) as nat, caps)),
        pos < input.len() && members.contains(input[pos as int]) ==> node_matches(
            PatternView::CharGroup(members, true),
            input,
            pos,
            caps,
        ) is None,
        pos >= input.len() ==> node_matches(PatternView::CharGroup(members, true), input, pos, caps)
            is None && node_matches(PatternView::CharGroup(members, false), input, pos, caps)
            is None,
{
}

} // verus!
