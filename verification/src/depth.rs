//! Bracket nesting depth: on input made of the eight symbols with balanced
//! brackets, the parse tree's maximum `Loop` nesting depth equals the
//! input's maximum bracket nesting depth.
use vstd::prelude::*;
use crate::ast::{parse_from, parse_text, simple_op, Op};

verus! {

/// What a character contributes to the bracket excess.
pub open spec fn delta(c: char) -> int {
    if c == '[' {
        1
    } else if c == ']' {
        -1
    } else {
        0
    }
}

/// Opening brackets minus closing brackets.
pub open spec fn excess(u: Seq<char>) -> int
    decreases u,
{
    if u.len() == 0 {
        0
    } else {
        delta(u[0]) + excess(u.drop_first())
    }
}

/// The maximum bracket excess over all prefixes: the input's bracket
/// nesting depth (`lemma_nesting_is_max_prefix` makes that reading exact).
pub open spec fn nesting(u: Seq<char>) -> int
    decreases u,
{
    if u.len() == 0 {
        0
    } else {
        vstd::math::max(0, delta(u[0]) + nesting(u.drop_first()))
    }
}

/// One of the eight operation symbols.
pub open spec fn is_symbol(c: char) -> bool {
    simple_op(c) is Some || c == '[' || c == ']'
}

pub open spec fn all_symbols(s: Seq<char>) -> bool {
    forall|i: int| 0 <= i < s.len() ==> is_symbol(#[trigger] s[i])
}

/// Every prefix has at least as many `[` as `]`, and the whole has equally
/// many.
pub open spec fn balanced(s: Seq<char>) -> bool {
    excess(s) == 0 && (forall|j: int| 0 <= j <= s.len() ==> excess(#[trigger] s.take(j)) >= 0)
}

/// The maximum `Loop` nesting depth below `op`.
pub open spec fn op_depth(op: Op) -> int
    decreases op,
{
    match op {
        Op::Loop(body) => 1 + tree_depth(body),
        _ => 0,
    }
}

/// The maximum `Loop` nesting depth of a tree.
pub open spec fn tree_depth(ops: Seq<Op>) -> int
    decreases ops,
{
    if ops.len() == 0 {
        0
    } else {
        vstd::math::max(op_depth(ops[0]), tree_depth(ops.drop_first()))
    }
}

pub proof fn lemma_tree_depth_nonneg(ops: Seq<Op>)
    ensures
        tree_depth(ops) >= 0,
    decreases ops,
{
    if ops.len() > 0 {
        lemma_tree_depth_nonneg(ops.drop_first());
    }
}

pub proof fn lemma_nesting_nonneg(u: Seq<char>)
    ensures
        nesting(u) >= 0,
    decreases u,
{
    if u.len() > 0 {
        lemma_nesting_nonneg(u.drop_first());
    }
}

/// Excess splits over concatenation.
pub proof fn lemma_excess_add(u: Seq<char>, v: Seq<char>)
    ensures
        excess(u + v) == excess(u) + excess(v),
    decreases u,
{
    if u.len() == 0 {
        assert(u + v =~= v);
    } else {
        assert((u + v)[0] == u[0]);
        assert((u + v).drop_first() =~= u.drop_first() + v);
        lemma_excess_add(u.drop_first(), v);
    }
}

/// Excess of a subrange splits at any midpoint.
pub proof fn lemma_excess_split(s: Seq<char>, a: int, m: int, b: int)
    requires
        0 <= a <= m <= b <= s.len(),
    ensures
        excess(s.subrange(a, b)) == excess(s.subrange(a, m)) + excess(s.subrange(m, b)),
{
    assert(s.subrange(a, b) =~= s.subrange(a, m) + s.subrange(m, b));
    lemma_excess_add(s.subrange(a, m), s.subrange(m, b));
}

/// The excess of a single character is its delta.
pub proof fn lemma_excess_one(s: Seq<char>, a: int)
    requires
        0 <= a < s.len(),
    ensures
        excess(s.subrange(a, a + 1)) == delta(s[a]),
{
    let u = s.subrange(a, a + 1);
    assert(u.len() == 1);
    assert(u[0] == s[a]);
    assert(u.drop_first() =~= Seq::<char>::empty());
    assert(excess(u.drop_first()) == 0);
}

/// Tree depth splits over concatenation as a maximum.
pub proof fn lemma_tree_depth_add(a: Seq<Op>, b: Seq<Op>)
    ensures
        tree_depth(a + b) == vstd::math::max(tree_depth(a), tree_depth(b)),
    decreases a,
{
    if a.len() == 0 {
        assert(a + b =~= b);
        lemma_tree_depth_nonneg(b);
    } else {
        assert((a + b)[0] == a[0]);
        assert((a + b).drop_first() =~= a.drop_first() + b);
        lemma_tree_depth_add(a.drop_first(), b);
    }
}

/// The depth of a one-element tree.
pub proof fn lemma_tree_depth_single(op: Op)
    ensures
        tree_depth(seq![op]) == vstd::math::max(op_depth(op), 0),
{
    assert(seq![op].len() == 1);
    assert(seq![op][0] == op);
    assert(seq![op].drop_first() =~= Seq::<Op>::empty());
    assert(tree_depth(seq![op].drop_first()) == 0);
}

/// `nesting` is the maximum excess over all prefixes: no prefix exceeds it,
/// and some prefix reaches it.
pub proof fn lemma_nesting_is_max_prefix(u: Seq<char>)
    ensures
        forall|j: int| 0 <= j <= u.len() ==> excess(#[trigger] u.take(j)) <= nesting(u),
        exists|j: int| 0 <= j <= u.len() && excess(#[trigger] u.take(j)) == nesting(u),
    decreases u,
{
    assert(u.take(0) =~= Seq::<char>::empty());
    if u.len() == 0 {
        assert(0 <= 0 <= u.len() && excess(u.take(0)) == nesting(u));
    } else {
        let v = u.drop_first();
        lemma_nesting_is_max_prefix(v);
        assert forall|j: int| 0 <= j <= u.len() implies excess(#[trigger] u.take(j)) <= nesting(
            u,
        ) by {
            if j >= 1 {
                assert(u.take(j)[0] == u[0]);
                assert(u.take(j).drop_first() =~= v.take(j - 1));
                assert(excess(u.take(j)) == delta(u[0]) + excess(v.take(j - 1)));
            }
        }
        let jw = choose|j: int| 0 <= j <= v.len() && excess(#[trigger] v.take(j)) == nesting(v);
        if nesting(u) == delta(u[0]) + nesting(v) {
            assert(u.take(jw + 1)[0] == u[0]);
            assert(u.take(jw + 1).drop_first() =~= v.take(jw));
            assert(excess(u.take(jw + 1)) == nesting(u));
        } else {
            assert(excess(u.take(0)) == nesting(u));
        }
    }
}

/// Where a stretch of input whose excess goes negative first closes the
/// level it starts in: the first `]` at which the running excess would drop
/// below zero.
pub proof fn lemma_first_closer(s: Seq<char>, a: int, b: int) -> (c: int)
    requires
        0 <= a <= b <= s.len(),
        excess(s.subrange(a, b)) < 0,
    ensures
        a <= c < b,
        s[c] == ']',
        excess(s.subrange(a, c)) == 0,
        forall|j: int| a <= j <= c ==> excess(#[trigger] s.subrange(a, j)) >= 0,
    decreases b - a,
{
    assert(s.subrange(a, a) =~= Seq::<char>::empty());
    if s[a] == ']' {
        a
    } else if s[a] != '[' {
        lemma_excess_one(s, a);
        lemma_excess_split(s, a, a + 1, b);
        let c1 = lemma_first_closer(s, a + 1, b);
        assert forall|j: int| a <= j <= c1 implies excess(#[trigger] s.subrange(a, j)) >= 0 by {
            if j > a {
                lemma_excess_split(s, a, a + 1, j);
                lemma_excess_one(s, a);
            }
        }
        lemma_excess_split(s, a, a + 1, c1);
        c1
    } else {
        lemma_excess_one(s, a);
        lemma_excess_split(s, a, a + 1, b);
        let c1 = lemma_first_closer(s, a + 1, b);
        lemma_excess_one(s, c1);
        lemma_excess_split(s, a, a + 1, c1 + 1);
        lemma_excess_split(s, a + 1, c1, c1 + 1);
        assert(excess(s.subrange(a, c1 + 1)) == 0);
        lemma_excess_split(s, a, c1 + 1, b);
        let c2 = lemma_first_closer(s, c1 + 1, b);
        assert forall|j: int| a <= j <= c2 implies excess(#[trigger] s.subrange(a, j)) >= 0 by {
            if j <= c1 {
                if j > a {
                    lemma_excess_split(s, a, a + 1, j);
                    lemma_excess_one(s, a);
                }
            } else if j == c1 + 1 {
            } else {
                lemma_excess_split(s, a, c1 + 1, j);
            }
        }
        lemma_excess_split(s, a, c1 + 1, c2);
        c2
    }
}

/// The nesting of `[ body ] rest` is the larger of one more than the
/// body's nesting and the rest's nesting, when the body is itself balanced.
pub proof fn lemma_nesting_compose(s: Seq<char>, i: int, cb: int, c: int)
    requires
        0 <= i < cb < c <= s.len(),
        s[i] == '[',
        s[cb] == ']',
        excess(s.subrange(i + 1, cb)) == 0,
    ensures
        nesting(s.subrange(i, c)) == vstd::math::max(
            1 + nesting(s.subrange(i + 1, cb)),
            nesting(s.subrange(cb + 1, c)),
        ),
{
    let w = s.subrange(i, c);
    let body = s.subrange(i + 1, cb);
    let rest = s.subrange(cb + 1, c);
    lemma_nesting_is_max_prefix(w);
    lemma_nesting_is_max_prefix(body);
    lemma_nesting_is_max_prefix(rest);
    lemma_nesting_nonneg(body);
    lemma_nesting_nonneg(rest);
    lemma_excess_one(s, i);
    lemma_excess_one(s, cb);
    lemma_excess_split(s, i, i + 1, cb + 1);
    lemma_excess_split(s, i + 1, cb, cb + 1);
    assert(excess(s.subrange(i, cb + 1)) == 0);
    // Every prefix of the whole stays at or below the claimed maximum.
    assert forall|j: int| 0 <= j <= w.len() implies excess(#[trigger] w.take(j))
        <= vstd::math::max(1 + nesting(body), nesting(rest)) by {
        let p = i + j;
        assert(w.take(j) =~= s.subrange(i, p));
        if p == i {
            assert(s.subrange(i, i) =~= Seq::<char>::empty());
        } else if p <= cb {
            lemma_excess_split(s, i, i + 1, p);
            lemma_excess_one(s, i);
            assert(body.take(p - i - 1) =~= s.subrange(i + 1, p));
        } else if p == cb + 1 {
        } else {
            lemma_excess_split(s, i, cb + 1, p);
            assert(rest.take(p - cb - 1) =~= s.subrange(cb + 1, p));
        }
    }
    // One more than the body's nesting is reached.
    let jb = choose|j: int|
        0 <= j <= body.len() && excess(#[trigger] body.take(j)) == nesting(body);
    assert(w.take(1 + jb) =~= s.subrange(i, i + 1 + jb));
    lemma_excess_split(s, i, i + 1, i + 1 + jb);
    assert(body.take(jb) =~= s.subrange(i + 1, i + 1 + jb));
    assert(excess(w.take(1 + jb)) == 1 + nesting(body));
    // The rest's nesting is reached.
    let jr = choose|j: int|
        0 <= j <= rest.len() && excess(#[trigger] rest.take(j)) == nesting(rest);
    assert(w.take(cb + 1 - i + jr) =~= s.subrange(i, cb + 1 + jr));
    lemma_excess_split(s, i, cb + 1, cb + 1 + jr);
    assert(rest.take(jr) =~= s.subrange(cb + 1, cb + 1 + jr));
    assert(excess(w.take(cb + 1 - i + jr)) == nesting(rest));
}

/// Parsing a level whose text is made of the eight symbols, keeps its
/// excess nonnegative and closes with excess zero at `c` (a `]`, or the end
/// of input) consumes exactly that stretch, and the tree's `Loop` nesting
/// depth is the stretch's bracket nesting depth.
pub proof fn lemma_parse_depth(s: Seq<char>, i: int, c: int, fuel: nat)
    requires
        all_symbols(s),
        0 <= i <= c <= s.len(),
        c < s.len() ==> s[c] == ']',
        excess(s.subrange(i, c)) == 0,
        forall|j: int| i <= j <= c ==> excess(#[trigger] s.subrange(i, j)) >= 0,
        fuel >= s.len() - i + 1,
    ensures
        parse_from(s, i, fuel).1 == if c < s.len() {
            c + 1
        } else {
            c
        },
        tree_depth(parse_from(s, i, fuel).0) == nesting(s.subrange(i, c)),
    decreases c - i,
{
    assert(s.subrange(i, i) =~= Seq::<char>::empty());
    if i == c {
    } else {
        lemma_excess_one(s, i);
        assert(excess(s.subrange(i, i + 1)) >= 0);
        assert(s[i] != ']');
        if s[i] == '[' {
            lemma_excess_split(s, i, i + 1, c);
            let cb = lemma_first_closer(s, i + 1, c);
            lemma_parse_depth(s, i + 1, cb, (fuel - 1) as nat);
            let (body, jb) = parse_from(s, i + 1, (fuel - 1) as nat);
            lemma_excess_one(s, cb);
            lemma_excess_split(s, i, i + 1, cb + 1);
            lemma_excess_split(s, i + 1, cb, cb + 1);
            assert(excess(s.subrange(i, cb + 1)) == 0);
            lemma_excess_split(s, i, cb + 1, c);
            assert forall|j: int| cb + 1 <= j <= c implies excess(
                #[trigger] s.subrange(cb + 1, j),
            ) >= 0 by {
                lemma_excess_split(s, i, cb + 1, j);
            }
            lemma_parse_depth(s, cb + 1, c, (fuel - 1) as nat);
            let (rest, k) = parse_from(s, cb + 1, (fuel - 1) as nat);
            lemma_tree_depth_add(seq![Op::Loop(body)], rest);
            lemma_tree_depth_single(Op::Loop(body));
            lemma_tree_depth_nonneg(body);
            lemma_tree_depth_nonneg(rest);
            lemma_nesting_compose(s, i, cb, c);
        } else {
            lemma_excess_split(s, i, i + 1, c);
            assert forall|j: int| i + 1 <= j <= c implies excess(
                #[trigger] s.subrange(i + 1, j),
            ) >= 0 by {
                lemma_excess_split(s, i, i + 1, j);
            }
            lemma_parse_depth(s, i + 1, c, (fuel - 1) as nat);
            let (rest, j2) = parse_from(s, i + 1, (fuel - 1) as nat);
            assert(is_symbol(s[i]));
            match simple_op(s[i]) {
                Option::Some(op) => {
                    lemma_tree_depth_add(seq![op], rest);
                    lemma_tree_depth_single(op);
                    lemma_tree_depth_nonneg(rest);
                    assert(op_depth(op) == 0);
                    assert(s.subrange(i, c)[0] == s[i]);
                    assert(s.subrange(i, c).drop_first() =~= s.subrange(i + 1, c));
                    lemma_nesting_nonneg(s.subrange(i + 1, c));
                },
                Option::None => {
                    assert(false);
                },
            }
        }
    }
}

/// On input made only of the eight symbols with balanced brackets, parsing
/// (which never fails on any input) yields a tree whose maximum `Loop`
/// nesting depth equals the input's bracket nesting depth.
pub proof fn lemma_balanced_depth(s: Seq<char>)
    requires
        all_symbols(s),
        balanced(s),
    ensures
        tree_depth(parse_text(s)) == nesting(s),
{
    assert(s.subrange(0, s.len() as int) =~= s);
    assert forall|j: int| 0 <= j <= s.len() implies excess(#[trigger] s.subrange(0, j)) >= 0 by {
        assert(s.take(j) =~= s.subrange(0, j));
        assert(excess(s.take(j)) >= 0);
    }
    lemma_parse_depth(s, 0, s.len() as int, (s.len() + 1) as nat);
}

} // verus!
