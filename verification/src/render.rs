//! Rendering a compiled pattern back to text, node by node: literals as
//! they stand, classes and anchors as their symbols, quantifiers as a
//! postfix sign, groups parenthesized, alternation branches joined by
//! pipes, and a backreference as a backslash before its decimal index.

use vstd::prelude::*;
use crate::pattern::Pattern;
use crate::pattern::PatternView;
use crate::pattern::pat_view;
use crate::pattern::pats_view;
use crate::pattern::lemma_pats_view;

verus! {

/// The decimal digit `d` as a character; `'0'` for anything above nine.
pub open spec fn digit_char(d: nat) -> char {
    if d == 0 {
        '0'
    } else if d == 1 {
        '1'
    } else if d == 2 {
        '2'
    } else if d == 3 {
        '3'
    } else if d == 4 {
        '4'
    } else if d == 5 {
        '5'
    } else if d == 6 {
        '6'
    } else if d == 7 {
        '7'
    } else if d == 8 {
        '8'
    } else {
        '9'
    }
}

/// The decimal digits of `n`, most significant first.
pub open spec fn spec_decimal(n: nat) -> Seq<char>
    decreases n,
{
    if n < 10 {
        seq![digit_char(n)]
    } else {
        spec_decimal(n / 10).push(digit_char(n % 10))
    }
}

/// The text of one node.
pub open spec fn spec_render(p: PatternView) -> Seq<char>
    decreases p, 1nat,
{
    match p {
        PatternView::Literal(text) => text,
        PatternView::Digit => seq!['\\', 'd'],
        PatternView::Alphanumeric => seq!['\\', 'w'],
        PatternView::AnyChar => seq!['.'],
        PatternView::Start => seq!['^'],
        PatternView::End => seq!['$'],
        PatternView::CharGroup(members, negated) => (
        if negated {
            seq!['[', '^']
        } else {
            seq!['[']
        }) + members + seq![']'],
        PatternView::OneOrMore(inner) => spec_render(*inner).push('+'),
        PatternView::ZeroOrOne(inner) => spec_render(*inner).push('?'),
        PatternView::Alternation(branches) => seq!['('] + spec_render_branches(branches) + seq![
            ')',
        ],
        PatternView::Group(nodes, idx) => seq!['('] + spec_render_list(nodes) + seq![')'],
        PatternView::BackReference(k) => seq!['\\'] + spec_decimal(k),
    }
}

/// The texts of the nodes of a sequence, one after the other.
pub open spec fn spec_render_list(ps: Seq<PatternView>) -> Seq<char>
    decreases ps, 0nat,
{
    if ps.len() == 0 {
        Seq::empty()
    } else {
        spec_render(ps[0]) + spec_render_list(ps.subrange(1, ps.len() as int))
    }
}

/// The texts of alternation branches, joined by pipes.
pub open spec fn spec_render_branches(ps: Seq<PatternView>) -> Seq<char>
    decreases ps, 0nat,
{
    if ps.len() == 0 {
        Seq::empty()
    } else if ps.len() == 1 {
        spec_render(ps[0])
    } else {
        spec_render(ps[0]).push('|') + spec_render_branches(ps.subrange(1, ps.len() as int))
    }
}

/// The decimal digit `d` as a character.
fn exec_digit_char(d: usize) -> (r: char)
    requires
        d < 10,
    ensures
        r == digit_char(d as nat),
{
    if d == 0 {
        '0'
    } else if d == 1 {
        '1'
    } else if d == 2 {
        '2'
    } else if d == 3 {
        '3'
    } else if d == 4 {
        '4'
    } else if d == 5 {
        '5'
    } else if d == 6 {
        '6'
    } else if d == 7 {
        '7'
    } else if d == 8 {
        '8'
    } else {
        '9'
    }
}

/// Appends the decimal digits of `n`.
fn push_decimal(n: usize, out: &mut Vec<char>)
    ensures
        final(out)@ == old(out)@ + spec_decimal(n as nat),
    decreases n,
{
    let ghost before = out@;
    if n < 10 {
        out.push(exec_digit_char(n));
        proof {
            assert(out@ =~= before + spec_decimal(n as nat));
        }
    } else {
        push_decimal(n / 10, out);
        out.push(exec_digit_char(n % 10));
        proof {
            assert(out@ =~= before + spec_decimal(n as nat));
        }
    }
}

/// Appends the text of one node.
fn push_render(p: &Pattern, out: &mut Vec<char>)
    ensures
        final(out)@ == old(out)@ + spec_render(pat_view(*p)),
    decreases *p, 1nat,
{
    let ghost before = out@;
    let ghost target = spec_render(pat_view(*p));
    match p {
        Pattern::Literal(text) => {
            let mut j: usize = 0;
            while j < text.len()
                invariant
                    j <= text@.len(),
                    out@ == before + text@.subrange(0, j as int),
                decreases text@.len() - j,
            {
                out.push(text[j]);
                j = j + 1;
                proof {
                    assert(out@ =~= before + text@.subrange(0, j as int));
                }
            }
            proof {
                assert(out@ =~= before + target);
            }
        },
        Pattern::Digit => {
            out.push('\\');
            out.push('d');
            proof {
                assert(out@ =~= before + target);
            }
        },
        Pattern::Alphanumeric => {
            out.push('\\');
            out.push('w');
            proof {
                assert(out@ =~= before + target);
            }
        },
        Pattern::AnyChar => {
            out.push('.');
            proof {
                assert(out@ =~= before + target);
            }
        },
        Pattern::Start => {
            out.push('^');
            proof {
                assert(out@ =~= before + target);
            }
        },
        Pattern::End => {
            out.push('$');
            proof {
                assert(out@ =~= before + target);
            }
        },
        Pattern::CharGroup(members, negated) => {
            out.push('[');
            if *negated {
                out.push('^');
            }
            let ghost opened = out@;
            let mut j: usize = 0;
            while j < members.len()
                invariant
                    j <= members@.len(),
                    out@ == opened + members@.subrange(0, j as int),
                decreases members@.len() - j,
            {
                out.push(members[j]);
                j = j + 1;
                proof {
                    assert(out@ =~= opened + members@.subrange(0, j as int));
                }
            }
            out.push(']');
            proof {
                assert(out@ =~= before + target);
            }
        },
        Pattern::OneOrMore(inner) => {
            push_render(inner, out);
            out.push('+');
            proof {
                assert(out@ =~= before + target);
            }
        },
        Pattern::ZeroOrOne(inner) => {
            push_render(inner, out);
            out.push('?');
            proof {
                assert(out@ =~= before + target);
            }
        },
        Pattern::Alternation(branches) => {
            out.push('(');
            push_render_branches(branches, 0, out);
            out.push(')');
            proof {
                lemma_pats_view(branches@);
                assert(pats_view(branches@).subrange(0, pats_view(branches@).len() as int)
                    =~= pats_view(branches@));
                assert(out@ =~= before + target);
            }
        },
        Pattern::Group(nodes, idx) => {
            out.push('(');
            push_render_list(nodes, 0, out);
            out.push(')');
            proof {
                lemma_pats_view(nodes@);
                assert(pats_view(nodes@).subrange(0, pats_view(nodes@).len() as int) =~= pats_view(
                    nodes@,
                ));
                assert(out@ =~= before + target);
            }
        },
        Pattern::BackReference(k) => {
            out.push('\\');
            push_decimal(*k, out);
            proof {
                assert(out@ =~= before + target);
            }
        },
    }
}

/// Appends the texts of the nodes from `i` on.
fn push_render_list(ps: &Vec<Pattern>, i: usize, out: &mut Vec<char>)
    requires
        i <= ps@.len(),
    ensures
        final(out)@ == old(out)@ + spec_render_list(
            pats_view(ps@).subrange(i as int, ps@.len() as int),
        ),
    decreases ps@, 0nat, ps@.len() - i,
{
    let ghost before = out@;
    let ghost pv = pats_view(ps@);
    proof {
        lemma_pats_view(ps@);
    }
    let ghost tail = pv.subrange(i as int, pv.len() as int);
    if i >= ps.len() {
        proof {
            assert(tail =~= Seq::<PatternView>::empty());
            assert(out@ =~= before + spec_render_list(tail));
        }
    } else {
        proof {
            assert(tail.subrange(1, tail.len() as int) =~= pv.subrange(
                i as int + 1,
                pv.len() as int,
            ));
        }
        push_render(&ps[i], out);
        push_render_list(ps, i + 1, out);
        proof {
            assert(out@ =~= before + spec_render_list(tail));
        }
    }
}

/// Appends the texts of the alternation branches from `i` on, joined by
/// pipes.
fn push_render_branches(ps: &Vec<Pattern>, i: usize, out: &mut Vec<char>)
    requires
        i <= ps@.len(),
    ensures
        final(out)@ == old(out)@ + spec_render_branches(
            pats_view(ps@).subrange(i as int, ps@.len() as int),
        ),
    decreases ps@, 0nat, ps@.len() - i,
{
    let ghost before = out@;
    let ghost pv = pats_view(ps@);
    proof {
        lemma_pats_view(ps@);
    }
    let ghost tail = pv.subrange(i as int, pv.len() as int);
    if i >= ps.len() {
        proof {
            assert(tail =~= Seq::<PatternView>::empty());
            assert(out@ =~= before + spec_render_branches(tail));
        }
    } else {
        proof {
            assert(tail.subrange(1, tail.len() as int) =~= pv.subrange(
                i as int + 1,
                pv.len() as int,
            ));
        }
        push_render(&ps[i], out);
        if i + 1 < ps.len() {
            out.push('|');
            push_render_branches(ps, i + 1, out);
        }
        proof {
            assert(out@ =~= before + spec_render_branches(tail));
        }
    }
}

/// The whole text of one node: the original pattern syntax that the node
/// stands for, capture indices left implicit as in the source.
pub fn pattern_text(p: &Pattern) -> (r: Vec<char>)
    ensures
        r@ == spec_render(pat_view(*p)),
{
    let mut out: Vec<char> = Vec::new();
    push_render(p, &mut out);
    out
}

} // verus!
