//! The compiler: from a pattern string to a sequence of pattern nodes.
//!
//! The pattern is scanned left to right with one character of lookahead.
//! Ordinary characters gather in a pending literal buffer that is flushed
//! into a `Literal` node whenever a special construct begins. Malformed
//! input never fails: an unterminated class or group consumes to the end of
//! the pattern, and a quantifier with nothing to bind becomes a literal of
//! its own symbol.
//!
//! Capture indices are assigned here, statically: the group opened by the
//! `k`-th `(` of the pattern carries index `k`.

use vstd::prelude::*;
use crate::pattern::Pattern;
use crate::pattern::PatternView;
use crate::pattern::pat_view;
use crate::pattern::pats_view;
use crate::pattern::lemma_pats_view_push;
use crate::pattern::lemma_pats_view_drop_last;
use crate::pattern::is_digit_char;
use crate::pattern::digit_value;
use crate::pattern::exec_is_digit;
use vstd::string::StrSliceExecFns;

verus! {

/// The position of the first `]` at or after `from`, or the length of `s`
/// when there is none.
pub open spec fn scan_close_bracket(s: Seq<char>, from: nat) -> nat
    decreases s.len() - from,
{
    if from >= s.len() {
        s.len()
    } else if s[from as int] == ']' {
        from
    } else {
        scan_close_bracket(s, from + 1)
    }
}

/// The position of the `)` that closes a group whose scan stands at `from`
/// with `depth` parentheses still open, or the length of `s` when the group
/// is unterminated.
pub open spec fn scan_group_close(s: Seq<char>, from: nat, depth: nat) -> nat
    decreases s.len() - from,
{
    if from >= s.len() {
        s.len()
    } else if s[from as int] == '(' {
        scan_group_close(s, from + 1, depth + 1)
    } else if s[from as int] == ')' {
        if depth <= 1 {
            from
        } else {
            scan_group_close(s, from + 1, (depth - 1) as nat)
        }
    } else {
        scan_group_close(s, from + 1, depth)
    }
}

/// The position of the first `|` at parenthesis depth zero at or after
/// `from`, or the length of `s` when there is none. `depth` counts the
/// parentheses open at `from` and may go negative on unbalanced input.
pub open spec fn scan_top_pipe(s: Seq<char>, from: nat, depth: int) -> nat
    decreases s.len() - from,
{
    if from >= s.len() {
        s.len()
    } else if s[from as int] == '(' {
        scan_top_pipe(s, from + 1, depth + 1)
    } else if s[from as int] == ')' {
        scan_top_pipe(s, from + 1, depth - 1)
    } else if s[from as int] == '|' && depth == 0 {
        from
    } else {
        scan_top_pipe(s, from + 1, depth)
    }
}

/// A scan result never passes the end of the string and never moves
/// backwards.
pub proof fn lemma_scan_close_bracket_bounds(s: Seq<char>, from: nat)
    ensures
        scan_close_bracket(s, from) <= s.len(),
        from <= s.len() ==> from <= scan_close_bracket(s, from),
    decreases s.len() - from,
{
    if from < s.len() && s[from as int] != ']' {
        lemma_scan_close_bracket_bounds(s, from + 1);
    }
}

/// A scan result never passes the end of the string and never moves
/// backwards.
pub proof fn lemma_scan_group_close_bounds(s: Seq<char>, from: nat, depth: nat)
    ensures
        scan_group_close(s, from, depth) <= s.len(),
        from <= s.len() ==> from <= scan_group_close(s, from, depth),
    decreases s.len() - from,
{
    if from < s.len() {
        if s[from as int] == '(' {
            lemma_scan_group_close_bounds(s, from + 1, depth + 1);
        } else if s[from as int] == ')' {
            if depth > 1 {
                lemma_scan_group_close_bounds(s, from + 1, (depth - 1) as nat);
            }
        } else {
            lemma_scan_group_close_bounds(s, from + 1, depth);
        }
    }
}

/// A scan result never passes the end of the string and never moves
/// backwards.
pub proof fn lemma_scan_top_pipe_bounds(s: Seq<char>, from: nat, depth: int)
    ensures
        scan_top_pipe(s, from, depth) <= s.len(),
        from <= s.len() ==> from <= scan_top_pipe(s, from, depth),
    decreases s.len() - from,
{
    if from < s.len() {
        if s[from as int] == '(' {
            lemma_scan_top_pipe_bounds(s, from + 1, depth + 1);
        } else if s[from as int] == ')' {
            lemma_scan_top_pipe_bounds(s, from + 1, depth - 1);
        } else if s[from as int] == '|' && depth == 0 {
        } else {
            lemma_scan_top_pipe_bounds(s, from + 1, depth);
        }
    }
}

/// The capture index following `idx`. Indices live in `usize` fields of the
/// tree, so the counter stops at the largest machine integer; a pattern with
/// that many groups cannot exist in an addressable string.
pub open spec fn bump_index(idx: nat) -> nat {
    if idx < usize::MAX as nat {
        idx + 1
    } else {
        idx
    }
}

/// Empties the pending literal buffer into the node list.
pub open spec fn flush_buf(buf: Seq<char>, acc: Seq<PatternView>) -> Seq<PatternView> {
    if buf.len() == 0 {
        acc
    } else {
        acc.push(PatternView::Literal(buf))
    }
}

/// Wraps a node in `+` or `?`.
pub open spec fn wrap_quant(one_or_more: bool, p: PatternView) -> PatternView {
    if one_or_more {
        PatternView::OneOrMore(Box::new(p))
    } else {
        PatternView::ZeroOrOne(Box::new(p))
    }
}

/// What a postfix quantifier does to the parser state: it binds the last
/// pending literal character when there is one (flushing the rest of the
/// buffer first), else the most recently emitted node, and degrades to a
/// literal of its own symbol when nothing precedes it.
pub open spec fn apply_quant(one_or_more: bool, buf: Seq<char>, acc: Seq<PatternView>) -> Seq<PatternView> {
    if buf.len() > 1 {
        acc.push(PatternView::Literal(buf.drop_last())).push(
            wrap_quant(one_or_more, PatternView::Literal(seq![buf.last()])),
        )
    } else if buf.len() == 1 {
        acc.push(wrap_quant(one_or_more, PatternView::Literal(buf)))
    } else if acc.len() > 0 {
        acc.drop_last().push(wrap_quant(one_or_more, acc.last()))
    } else {
        acc.push(PatternView::Literal(seq![if one_or_more { '+' } else { '?' }]))
    }
}

/// The node a non-digit escape sequence stands for.
pub open spec fn escaped_node(c: char) -> PatternView {
    if c == 'd' {
        PatternView::Digit
    } else if c == 'w' {
        PatternView::Alphanumeric
    } else {
        PatternView::Literal(seq![c])
    }
}

/// One step of compilation: the nodes produced from `s` when the scan
/// stands at `i` with pending literal buffer `buf`, emitted nodes `acc`,
/// and `next_idx` the capture index of the next `(` to come; paired with
/// the capture index counter as the scan leaves it.
pub open spec fn spec_parse_rec(
    s: Seq<char>,
    i: nat,
    buf: Seq<char>,
    acc: Seq<PatternView>,
    next_idx: nat,
) -> (Seq<PatternView>, nat)
    decreases s.len(), s.len() - i,
        via spec_parse_rec_decreases
{
    if i >= s.len() {
        (flush_buf(buf, acc), next_idx)
    } else {
        let c = s[i as int];
        if c == '\\' {
            if i + 1 < s.len() && is_digit_char(s[i as int + 1]) {
                let node = PatternView::BackReference(digit_value(s[i as int + 1]));
                spec_parse_rec(s, i + 2, Seq::empty(), flush_buf(buf, acc).push(node), next_idx)
            } else if i + 1 < s.len() {
                let node = escaped_node(s[i as int + 1]);
                spec_parse_rec(s, i + 2, Seq::empty(), flush_buf(buf, acc).push(node), next_idx)
            } else {
                (flush_buf(buf, acc), next_idx)
            }
        } else if c == '.' {
            spec_parse_rec(s, i + 1, Seq::empty(), flush_buf(buf, acc).push(PatternView::AnyChar), next_idx)
        } else if c == '^' {
            spec_parse_rec(s, i + 1, Seq::empty(), flush_buf(buf, acc).push(PatternView::Start), next_idx)
        } else if c == '$' {
            spec_parse_rec(s, i + 1, Seq::empty(), flush_buf(buf, acc).push(PatternView::End), next_idx)
        } else if c == '[' {
            let negated = i + 1 < s.len() && s[i as int + 1] == '^';
            let mstart = if negated { i + 2 } else { i + 1 };
            let close = scan_close_bracket(s, mstart);
            let members = s.subrange(mstart as int, close as int);
            let node = PatternView::CharGroup(members, negated);
            let next_i = if close < s.len() { close + 1 } else { s.len() };
            spec_parse_rec(s, next_i, Seq::empty(), flush_buf(buf, acc).push(node), next_idx)
        } else if c == '(' {
            let close = scan_group_close(s, i + 1, 1);
            let body = s.subrange(i as int + 1, close as int);
            let next_i = if close < s.len() { close + 1 } else { s.len() };
            let my_idx = next_idx;
            let after_idx = bump_index(next_idx);
            if scan_top_pipe(body, 0, 0) < body.len() {
                let (branches, idx2) = spec_split_branches(body, 0, my_idx, after_idx);
                let node = PatternView::Alternation(branches);
                spec_parse_rec(s, next_i, Seq::empty(), flush_buf(buf, acc).push(node), idx2)
            } else {
                let (nodes, idx2) = spec_parse_rec(body, 0, Seq::empty(), Seq::empty(), after_idx);
                let node = PatternView::Group(nodes, my_idx);
                spec_parse_rec(s, next_i, Seq::empty(), flush_buf(buf, acc).push(node), idx2)
            }
        } else if c == '|' {
            let node = PatternView::Literal(seq!['|']);
            spec_parse_rec(s, i + 1, Seq::empty(), flush_buf(buf, acc).push(node), next_idx)
        } else if c == '+' {
            spec_parse_rec(s, i + 1, Seq::empty(), apply_quant(true, buf, acc), next_idx)
        } else if c == '?' {
            spec_parse_rec(s, i + 1, Seq::empty(), apply_quant(false, buf, acc), next_idx)
        } else {
            spec_parse_rec(s, i + 1, buf.push(c), acc, next_idx)
        }
    }
}

#[via_fn]
proof fn spec_parse_rec_decreases(
    s: Seq<char>,
    i: nat,
    buf: Seq<char>,
    acc: Seq<PatternView>,
    next_idx: nat,
) {
    if i < s.len() {
        if s[i as int] == '[' {
            let negated = i + 1 < s.len() && s[i as int + 1] == '^';
            let mstart = if negated { i + 2 } else { i + 1 };
            lemma_scan_close_bracket_bounds(s, mstart);
        }
        if s[i as int] == '(' {
            lemma_scan_group_close_bounds(s, i + 1, 1);
        }
    }
}

/// The branches of an alternation: the pieces of `body` between its
/// depth-zero pipes, from position `from` on, each compiled and wrapped as a
/// `Group` carrying the index of the enclosing parenthesis. An empty piece
/// before a pipe yields an empty group; an empty piece at the very end
/// yields nothing.
pub open spec fn spec_split_branches(
    body: Seq<char>,
    from: nat,
    group_idx: nat,
    next_idx: nat,
) -> (Seq<PatternView>, nat)
    decreases body.len(), body.len() - from,
        via spec_split_branches_decreases
{
    let p = scan_top_pipe(body, from, 0);
    if p < body.len() {
        let (nodes, idx1) = spec_parse_rec(
            body.subrange(from as int, p as int),
            0,
            Seq::empty(),
            Seq::empty(),
            next_idx,
        );
        let (rest, idx2) = spec_split_branches(body, p + 1, group_idx, idx1);
        (seq![PatternView::Group(nodes, group_idx)] + rest, idx2)
    } else if 0 < from && from < body.len() {
        let (nodes, idx1) = spec_parse_rec(
            body.subrange(from as int, body.len() as int),
            0,
            Seq::empty(),
            Seq::empty(),
            next_idx,
        );
        (seq![PatternView::Group(nodes, group_idx)], idx1)
    } else {
        (Seq::empty(), next_idx)
    }
}

#[via_fn]
proof fn spec_split_branches_decreases(body: Seq<char>, from: nat, group_idx: nat, next_idx: nat) {
    lemma_scan_top_pipe_bounds(body, from, 0);
}

/// The node sequence compiled from the pattern text `s`.
pub open spec fn spec_parse(s: Seq<char>) -> Seq<PatternView> {
    spec_parse_rec(s, 0, Seq::empty(), Seq::empty(), 1).0
}

/// The characters of a string, in order, as a vector.
pub fn to_char_vec(s: &str) -> (r: Vec<char>)
    ensures
        r@ == s@,
{
    let n = s.unicode_len();
    let mut r: Vec<char> = Vec::new();
    let mut i: usize = 0;
    while i < n
        invariant
            i <= n,
            n == s@.len(),
            r@ == s@.subrange(0, i as int),
        decreases n - i,
    {
        r.push(s.get_char(i));
        i = i + 1;
        proof {
            assert(r@ =~= s@.subrange(0, i as int));
        }
    }
    proof {
        assert(r@ =~= s@);
    }
    r
}

/// The position of the first `]` at or after `from`, executable form of
/// [`scan_close_bracket`].
fn find_close_bracket(s: &Vec<char>, from: usize) -> (r: usize)
    requires
        from <= s@.len(),
    ensures
        r as nat == scan_close_bracket(s@, from as nat),
        from <= r <= s@.len(),
{
    let mut j = from;
    while j < s.len()
        invariant
            from <= j <= s@.len(),
            scan_close_bracket(s@, from as nat) == scan_close_bracket(s@, j as nat),
        decreases s@.len() - j,
    {
        if s[j] == ']' {
            return j;
        }
        j = j + 1;
    }
    j
}

/// The position of the `)` closing the group whose body starts at `from`,
/// executable form of [`scan_group_close`] with one parenthesis open.
fn find_group_close(s: &Vec<char>, from: usize) -> (r: usize)
    requires
        from <= s@.len(),
    ensures
        r as nat == scan_group_close(s@, from as nat, 1),
        from <= r <= s@.len(),
{
    let mut j = from;
    let mut depth: u128 = 1;
    while j < s.len()
        invariant
            from <= j <= s@.len(),
            1 <= depth <= 1 + (j - from),
            scan_group_close(s@, from as nat, 1) == scan_group_close(s@, j as nat, depth as nat),
        decreases s@.len() - j,
    {
        let c = s[j];
        if c == '(' {
            depth = depth + 1;
        } else if c == ')' {
            if depth <= 1 {
                return j;
            }
            depth = depth - 1;
        }
        j = j + 1;
    }
    j
}

/// The position of the first `|` at parenthesis depth zero at or after
/// `from`, executable form of [`scan_top_pipe`].
fn find_top_pipe(s: &Vec<char>, from: usize) -> (r: usize)
    requires
        from <= s@.len(),
    ensures
        r as nat == scan_top_pipe(s@, from as nat, 0),
        from <= r <= s@.len(),
{
    let mut j = from;
    let mut depth: i128 = 0;
    while j < s.len()
        invariant
            from <= j <= s@.len(),
            -(j as int) <= depth <= j as int,
            scan_top_pipe(s@, from as nat, 0) == scan_top_pipe(s@, j as nat, depth as int),
        decreases s@.len() - j,
    {
        let c = s[j];
        if c == '(' {
            depth = depth + 1;
        } else if c == ')' {
            depth = depth - 1;
        } else if c == '|' && depth == 0 {
            return j;
        }
        j = j + 1;
    }
    j
}

/// The characters of `s` between `start` and `end`, as a fresh vector.
fn copy_range(s: &Vec<char>, start: usize, end: usize) -> (r: Vec<char>)
    requires
        start <= end <= s@.len(),
    ensures
        r@ == s@.subrange(start as int, end as int),
{
    let mut r: Vec<char> = Vec::new();
    let mut j = start;
    while j < end
        invariant
            start <= j <= end <= s@.len(),
            r@ == s@.subrange(start as int, j as int),
        decreases end - j,
    {
        r.push(s[j]);
        j = j + 1;
        proof {
            assert(r@ =~= s@.subrange(start as int, j as int));
        }
    }
    r
}

/// Flushes the pending literal buffer into the node list, then appends one
/// node.
fn flush_push(acc: Vec<Pattern>, buf: Vec<char>, node: Pattern) -> (r: Vec<Pattern>)
    ensures
        pats_view(r@) == flush_buf(buf@, pats_view(acc@)).push(pat_view(node)),
{
    let ghost old_acc = acc@;
    let ghost old_buf = buf@;
    let mut acc = acc;
    if buf.len() > 0 {
        acc.push(Pattern::Literal(buf));
        proof {
            lemma_pats_view_push(old_acc, Pattern::Literal(buf));
        }
    }
    let ghost mid = acc@;
    acc.push(node);
    proof {
        lemma_pats_view_push(mid, node);
    }
    acc
}

/// Compiles a whole piece of pattern text: the scan of [`spec_parse_rec`]
/// started at its beginning with an empty state, threading the capture
/// index counter.
fn parse_sub(s: &Vec<char>, next_idx: usize) -> (r: (Vec<Pattern>, usize))
    ensures
        pats_view(r.0@) == spec_parse_rec(s@, 0, Seq::empty(), Seq::empty(), next_idx as nat).0,
        r.1 as nat == spec_parse_rec(s@, 0, Seq::empty(), Seq::empty(), next_idx as nat).1,
    decreases s@.len(), 1nat,
{
    let ghost goal = spec_parse_rec(s@, 0, Seq::empty(), Seq::empty(), next_idx as nat);
    let mut acc: Vec<Pattern> = Vec::new();
    let mut buf: Vec<char> = Vec::new();
    let mut nidx: usize = next_idx;
    let mut i: usize = 0;
    while i < s.len()
        invariant
            i <= s@.len(),
            goal == spec_parse_rec(s@, 0, Seq::empty(), Seq::empty(), next_idx as nat),
            goal == spec_parse_rec(s@, i as nat, buf@, pats_view(acc@), nidx as nat),
        decreases s@.len() - i,
    {
        let c = s[i];
        if c == '\\' {
            if i + 1 < s.len() {
                let e = s[i + 1];
                if exec_is_digit(e) {
                    let value = (e as u32 - 48) as usize;
                    assert(value as nat == digit_value(e));
                    acc = flush_push(acc, buf, Pattern::BackReference(value));
                    buf = Vec::new();
                } else if e == 'd' {
                    acc = flush_push(acc, buf, Pattern::Digit);
                    buf = Vec::new();
                } else if e == 'w' {
                    acc = flush_push(acc, buf, Pattern::Alphanumeric);
                    buf = Vec::new();
                } else {
                    let mut single: Vec<char> = Vec::new();
                    single.push(e);
                    proof {
                        assert(single@ =~= seq![e]);
                    }
                    acc = flush_push(acc, buf, Pattern::Literal(single));
                    buf = Vec::new();
                }
                i = i + 2;
            } else {
                // a trailing backslash escapes nothing: flush and stop
                if buf.len() > 0 {
                    proof {
                        lemma_pats_view_push(acc@, Pattern::Literal(buf));
                    }
                    acc.push(Pattern::Literal(buf));
                }
                return (acc, nidx);
            }
        } else if c == '.' {
            acc = flush_push(acc, buf, Pattern::AnyChar);
            buf = Vec::new();
            i = i + 1;
        } else if c == '^' {
            acc = flush_push(acc, buf, Pattern::Start);
            buf = Vec::new();
            i = i + 1;
        } else if c == '$' {
            acc = flush_push(acc, buf, Pattern::End);
            buf = Vec::new();
            i = i + 1;
        } else if c == '[' {
            let negated = i + 1 < s.len() && s[i + 1] == '^';
            let mstart = if negated { i + 2 } else { i + 1 };
            let close = find_close_bracket(s, mstart);
            let members = copy_range(s, mstart, close);
            acc = flush_push(acc, buf, Pattern::CharGroup(members, negated));
            buf = Vec::new();
            i = if close < s.len() { close + 1 } else { s.len() };
        } else if c == '(' {
            let close = find_group_close(s, i + 1);
            let body = copy_range(s, i + 1, close);
            let my_idx = nidx;
            let after_idx = if nidx < usize::MAX { nidx + 1 } else { nidx };
            let pipe = find_top_pipe(&body, 0);
            if pipe < body.len() {
                let (branches, idx2) = parse_group_pattern(&body, my_idx, after_idx);
                acc = flush_push(acc, buf, Pattern::Alternation(branches));
                nidx = idx2;
            } else {
                let (nodes, idx2) = parse_sub(&body, after_idx);
                acc = flush_push(acc, buf, Pattern::Group(nodes, my_idx));
                nidx = idx2;
            }
            buf = Vec::new();
            i = if close < s.len() { close + 1 } else { s.len() };
        } else if c == '|' {
            let mut single: Vec<char> = Vec::new();
            single.push('|');
            proof {
                assert(single@ =~= seq!['|']);
            }
            acc = flush_push(acc, buf, Pattern::Literal(single));
            buf = Vec::new();
            i = i + 1;
        } else if c == '+' || c == '?' {
            let one_or_more = c == '+';
            let ghost old_buf = buf@;
            let ghost old_accv = pats_view(acc@);
            if buf.len() > 1 {
                let last = buf.pop().unwrap();
                proof {
                    lemma_pats_view_push(acc@, Pattern::Literal(buf));
                }
                acc.push(Pattern::Literal(buf));
                let mut single: Vec<char> = Vec::new();
                single.push(last);
                let node = if one_or_more {
                    Pattern::OneOrMore(Box::new(Pattern::Literal(single)))
                } else {
                    Pattern::ZeroOrOne(Box::new(Pattern::Literal(single)))
                };
                proof {
                    assert(single@ =~= seq![old_buf.last()]);
                    assert(pat_view(Pattern::Literal(single)) == PatternView::Literal(single@));
                    assert(pat_view(node) == wrap_quant(
                        one_or_more,
                        PatternView::Literal(seq![old_buf.last()]),
                    ));
                    lemma_pats_view_push(acc@, node);
                }
                acc.push(node);
                buf = Vec::new();
            } else if buf.len() == 1 {
                proof {
                    assert(pat_view(Pattern::Literal(buf)) == PatternView::Literal(buf@));
                }
                let node = if one_or_more {
                    Pattern::OneOrMore(Box::new(Pattern::Literal(buf)))
                } else {
                    Pattern::ZeroOrOne(Box::new(Pattern::Literal(buf)))
                };
                proof {
                    assert(pat_view(node) == wrap_quant(
                        one_or_more,
                        PatternView::Literal(old_buf),
                    ));
                    lemma_pats_view_push(acc@, node);
                }
                acc.push(node);
                buf = Vec::new();
            } else if acc.len() > 0 {
                proof {
                    lemma_pats_view_drop_last(acc@);
                }
                let last = acc.pop().unwrap();
                let node = if one_or_more {
                    Pattern::OneOrMore(Box::new(last))
                } else {
                    Pattern::ZeroOrOne(Box::new(last))
                };
                proof {
                    assert(pat_view(node) == wrap_quant(one_or_more, pat_view(last)));
                    lemma_pats_view_push(acc@, node);
                }
                acc.push(node);
            } else {
                let mut single: Vec<char> = Vec::new();
                single.push(c);
                proof {
                    assert(single@ =~= seq![c]);
                    assert(pat_view(Pattern::Literal(single)) == PatternView::Literal(single@));
                    lemma_pats_view_push(acc@, Pattern::Literal(single));
                }
                acc.push(Pattern::Literal(single));
            }
            proof {
                assert(pats_view(acc@) == apply_quant(one_or_more, old_buf, old_accv));
                assert(buf@ =~= Seq::<char>::empty());
            }
            i = i + 1;
        } else {
            buf.push(c);
            i = i + 1;
        }
    }
    if buf.len() > 0 {
        proof {
            lemma_pats_view_push(acc@, Pattern::Literal(buf));
        }
        acc.push(Pattern::Literal(buf));
    }
    (acc, nidx)
}

/// Splits a group body on its depth-zero pipes and compiles each piece as
/// one branch of an alternation, every branch a `Group` carrying the index
/// of the enclosing parenthesis. Executable form of
/// [`spec_split_branches`].
pub fn parse_group_pattern(body: &Vec<char>, group_idx: usize, next_idx: usize) -> (r: (
    Vec<Pattern>,
    usize,
))
    ensures
        pats_view(r.0@) == spec_split_branches(body@, 0, group_idx as nat, next_idx as nat).0,
        r.1 as nat == spec_split_branches(body@, 0, group_idx as nat, next_idx as nat).1,
    decreases body@.len(), 0nat,
{
    let ghost goal = spec_split_branches(body@, 0, group_idx as nat, next_idx as nat);
    let mut branches: Vec<Pattern> = Vec::new();
    let mut from: usize = 0;
    let mut nidx: usize = next_idx;
    loop
        invariant
            from <= body@.len(),
            goal == spec_split_branches(body@, 0, group_idx as nat, next_idx as nat),
            goal.0 == pats_view(branches@) + spec_split_branches(
                body@,
                from as nat,
                group_idx as nat,
                nidx as nat,
            ).0,
            goal.1 == spec_split_branches(body@, from as nat, group_idx as nat, nidx as nat).1,
        decreases body@.len() - from,
    {
        let p = find_top_pipe(body, from);
        if p < body.len() {
            let branch = copy_range(body, from, p);
            let (nodes, n1) = parse_sub(&branch, nidx);
            let node = Pattern::Group(nodes, group_idx);
            proof {
                lemma_pats_view_push(branches@, node);
                assert(pats_view(branches@.push(node)) + spec_split_branches(
                    body@,
                    (p + 1) as nat,
                    group_idx as nat,
                    n1 as nat,
                ).0 =~= pats_view(branches@) + spec_split_branches(
                    body@,
                    from as nat,
                    group_idx as nat,
                    nidx as nat,
                ).0);
            }
            branches.push(node);
            nidx = n1;
            from = p + 1;
        } else {
            if 0 < from && from < body.len() {
                let branch = copy_range(body, from, body.len());
                let (nodes, n1) = parse_sub(&branch, nidx);
                let node = Pattern::Group(nodes, group_idx);
                proof {
                    lemma_pats_view_push(branches@, node);
                    assert(pats_view(branches@.push(node)) =~= pats_view(branches@) + seq![
                        pat_view(node),
                    ]);
                }
                branches.push(node);
                nidx = n1;
            }
            proof {
                assert(goal.0 =~= pats_view(branches@));
            }
            return (branches, nidx);
        }
    }
}

/// Compiles a pattern string into its node sequence. Malformed input never
/// fails: otherwise-special characters degrade into literals as described
/// in the module documentation.
pub fn parse_pattern(pattern: &str) -> (r: Vec<Pattern>)
    ensures
        pats_view(r@) == spec_parse(pattern@),
{
    let chars = to_char_vec(pattern);
    let (pats, _counter) = parse_sub(&chars, 1);
    pats
}

} // verus!
