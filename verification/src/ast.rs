//! The operation tree and the parser.
//!
//! The parser is total: it recognizes the eight operation symbols, ignores
//! every other character, treats `]` as the end of the current level and the
//! end of input as an implicit close of every open level.
use vstd::prelude::*;

verus! {

/// Mathematical form of one operation; a `Loop` holds the operations of its
/// body.
pub enum Op {
    Increment,
    Decrement,
    MoveRight,
    MoveLeft,
    Write,
    Read,
    Loop(Seq<Op>),
}

/// One operation of the source language, as built by the parser.
#[derive(Debug, PartialEq, Eq)]
pub enum Operation {
    Increment,
    Decrement,
    MoveRight,
    MoveLeft,
    Write,
    Read,
    Loop(Program),
}

/// An ordered sequence of operations; execution order is the vector order.
/// A `Loop` owns its nested `Program`.
#[derive(Debug, PartialEq, Eq)]
pub struct Program(pub Vec<Operation>);

pub open spec fn op_view(op: Operation) -> Op
    decreases op,
{
    match op {
        Operation::Increment => Op::Increment,
        Operation::Decrement => Op::Decrement,
        Operation::MoveRight => Op::MoveRight,
        Operation::MoveLeft => Op::MoveLeft,
        Operation::Write => Op::Write,
        Operation::Read => Op::Read,
        Operation::Loop(p) => Op::Loop(ops_view(p.0@)),
    }
}

pub open spec fn ops_view(s: Seq<Operation>) -> Seq<Op>
    decreases s,
{
    if s.len() == 0 {
        Seq::empty()
    } else {
        seq![op_view(s[0])] + ops_view(s.drop_first())
    }
}

pub open spec fn prog_view(p: Program) -> Seq<Op> {
    ops_view(p.0@)
}

/// The operation a symbol stands for, or `None` for a character that is
/// commentary.
pub open spec fn simple_op(c: char) -> Option<Op> {
    if c == '+' {
        Option::Some(Op::Increment)
    } else if c == '-' {
        Option::Some(Op::Decrement)
    } else if c == '>' {
        Option::Some(Op::MoveRight)
    } else if c == '<' {
        Option::Some(Op::MoveLeft)
    } else if c == '.' {
        Option::Some(Op::Write)
    } else if c == ',' {
        Option::Some(Op::Read)
    } else {
        Option::None
    }
}

/// Parse one nesting level of `s` starting at position `i`: the level's
/// operations and the position just past the `]` (or the end of input) that
/// closed the level. The `fuel` argument only bounds the recursion; by
/// `lemma_parse_from_fuel` any fuel of at least `s.len() - i + 1` gives the
/// same result.
pub open spec fn parse_from(s: Seq<char>, i: int, fuel: nat) -> (Seq<Op>, int)
    decreases fuel,
{
    if fuel == 0 || i < 0 || i >= s.len() {
        (Seq::empty(), i)
    } else if s[i] == ']' {
        (Seq::empty(), i + 1)
    } else if s[i] == '[' {
        let (body, j) = parse_from(s, i + 1, (fuel - 1) as nat);
        let (rest, k) = parse_from(s, j, (fuel - 1) as nat);
        (seq![Op::Loop(body)] + rest, k)
    } else {
        let (rest, j) = parse_from(s, i + 1, (fuel - 1) as nat);
        match simple_op(s[i]) {
            Option::Some(op) => (seq![op] + rest, j),
            Option::None => (rest, j),
        }
    }
}

/// The tree that parsing the whole text yields.
pub open spec fn parse_text(s: Seq<char>) -> Seq<Op> {
    parse_from(s, 0, (s.len() + 1) as nat).0
}

/// Parsing a level never moves backwards and never past the end of input;
/// with fuel to spare it consumes at least one character.
pub proof fn lemma_parse_from_pos(s: Seq<char>, i: int, fuel: nat)
    requires
        0 <= i <= s.len(),
    ensures
        i <= parse_from(s, i, fuel).1 <= s.len(),
        fuel > 0 && i < s.len() ==> parse_from(s, i, fuel).1 >= i + 1,
    decreases fuel,
{
    if fuel == 0 || i >= s.len() {
    } else if s[i] == ']' {
    } else if s[i] == '[' {
        let (body, j) = parse_from(s, i + 1, (fuel - 1) as nat);
        lemma_parse_from_pos(s, i + 1, (fuel - 1) as nat);
        lemma_parse_from_pos(s, j, (fuel - 1) as nat);
    } else {
        lemma_parse_from_pos(s, i + 1, (fuel - 1) as nat);
    }
}

/// Any fuel of at least `s.len() - i + 1` yields the same parse.
pub proof fn lemma_parse_from_fuel(s: Seq<char>, i: int, fuel1: nat, fuel2: nat)
    requires
        0 <= i <= s.len(),
        fuel1 >= s.len() - i + 1,
        fuel2 >= s.len() - i + 1,
    ensures
        parse_from(s, i, fuel1) == parse_from(s, i, fuel2),
    decreases s.len() - i,
{
    if i >= s.len() {
    } else if s[i] == ']' {
    } else if s[i] == '[' {
        lemma_parse_from_fuel(s, i + 1, (fuel1 - 1) as nat, (fuel2 - 1) as nat);
        let (body, j) = parse_from(s, i + 1, (fuel1 - 1) as nat);
        lemma_parse_from_pos(s, i + 1, (fuel1 - 1) as nat);
        lemma_parse_from_fuel(s, j, (fuel1 - 1) as nat, (fuel2 - 1) as nat);
    } else {
        lemma_parse_from_fuel(s, i + 1, (fuel1 - 1) as nat, (fuel2 - 1) as nat);
    }
}

/// A tree never holds more `Loop` nodes than the characters that produced it:
/// each one consumes a `[`.
pub proof fn lemma_parse_from_loops(s: Seq<char>, i: int, fuel: nat)
    requires
        0 <= i <= s.len(),
    ensures
        loops_in(parse_from(s, i, fuel).0) <= parse_from(s, i, fuel).1 - i,
    decreases fuel,
{
    if fuel == 0 || i >= s.len() {
    } else if s[i] == ']' {
    } else if s[i] == '[' {
        let (body, j) = parse_from(s, i + 1, (fuel - 1) as nat);
        let (rest, k) = parse_from(s, j, (fuel - 1) as nat);
        lemma_parse_from_pos(s, i + 1, (fuel - 1) as nat);
        lemma_parse_from_loops(s, i + 1, (fuel - 1) as nat);
        lemma_parse_from_loops(s, j, (fuel - 1) as nat);
        lemma_loops_in_add(seq![Op::Loop(body)], rest);
        lemma_loops_in_single(Op::Loop(body));
    } else {
        let (rest, j) = parse_from(s, i + 1, (fuel - 1) as nat);
        lemma_parse_from_pos(s, i + 1, (fuel - 1) as nat);
        lemma_parse_from_loops(s, i + 1, (fuel - 1) as nat);
        match simple_op(s[i]) {
            Option::Some(op) => {
                lemma_loops_in_add(seq![op], rest);
                lemma_loops_in_single(op);
            },
            Option::None => {},
        }
    }
}

/// A one-element sequence holds the loops of its element.
pub proof fn lemma_loops_in_single(op: Op)
    ensures
        loops_in(seq![op]) == loops_in_op(op),
{
    let s = seq![op];
    assert(s.len() == 1);
    assert(s[0] == op);
    assert(s.drop_first() =~= Seq::<Op>::empty());
    assert(loops_in(s.drop_first()) == 0);
}

/// How many `Loop` nodes `op` holds, itself included if it is one.
pub open spec fn loops_in_op(op: Op) -> int
    decreases op,
{
    match op {
        Op::Loop(body) => 1 + loops_in(body),
        _ => 0,
    }
}

/// How many `Loop` nodes the trees of `ops` hold in total, at any depth.
pub open spec fn loops_in(ops: Seq<Op>) -> int
    decreases ops,
{
    if ops.len() == 0 {
        0
    } else {
        loops_in_op(ops[0]) + loops_in(ops.drop_first())
    }
}

pub proof fn lemma_loops_in_nonneg(ops: Seq<Op>)
    ensures
        loops_in(ops) >= 0,
    decreases ops,
{
    if ops.len() > 0 {
        lemma_loops_in_nonneg(ops.drop_first());
        lemma_loops_in_op_nonneg(ops[0]);
    }
}

pub proof fn lemma_loops_in_op_nonneg(op: Op)
    ensures
        loops_in_op(op) >= 0,
    decreases op,
{
    match op {
        Op::Loop(body) => lemma_loops_in_nonneg(body),
        _ => {},
    }
}

/// `loops_in` splits over concatenation.
pub proof fn lemma_loops_in_add(a: Seq<Op>, b: Seq<Op>)
    ensures
        loops_in(a + b) == loops_in(a) + loops_in(b),
    decreases a,
{
    if a.len() == 0 {
        assert(a + b =~= b);
    } else {
        assert((a + b).drop_first() =~= a.drop_first() + b);
        lemma_loops_in_add(a.drop_first(), b);
    }
}

/// `ops_view` splits over concatenation.
pub proof fn lemma_ops_view_add(a: Seq<Operation>, b: Seq<Operation>)
    ensures
        ops_view(a + b) == ops_view(a) + ops_view(b),
    decreases a,
{
    if a.len() == 0 {
        assert(a + b =~= b);
        assert(ops_view(a) + ops_view(b) =~= ops_view(b));
    } else {
        assert((a + b)[0] == a[0]);
        assert((a + b).drop_first() =~= a.drop_first() + b);
        lemma_ops_view_add(a.drop_first(), b);
        assert(seq![op_view(a[0])] + (ops_view(a.drop_first()) + ops_view(b))
            =~= (seq![op_view(a[0])] + ops_view(a.drop_first())) + ops_view(b));
    }
}

/// The view of a one-element sequence.
pub proof fn lemma_ops_view_single(x: Operation)
    ensures
        ops_view(seq![x]) == seq![op_view(x)],
{
    assert(seq![x].len() == 1);
    assert(seq![x][0] == x);
    assert(seq![x].drop_first() =~= Seq::<Operation>::empty());
    assert(ops_view(seq![x].drop_first()) == Seq::<Op>::empty());
    assert(seq![op_view(x)] + Seq::<Op>::empty() =~= seq![op_view(x)]);
}

/// `ops_view` turns a cons into a cons.
pub proof fn lemma_ops_view_cons(x: Operation, s: Seq<Operation>)
    ensures
        ops_view(seq![x] + s) == seq![op_view(x)] + ops_view(s),
{
    assert((seq![x] + s).drop_first() =~= s);
}

impl Program {
    /// Parse a character stream into an operation tree. Total: any stream
    /// yields a tree, commentary characters are skipped, an unmatched `]`
    /// ends the top level and the rest of the input is discarded, and the
    /// end of input closes every still-open loop.
    pub fn parse(src: &Vec<char>) -> (r: Program)
        ensures
            prog_view(r) == parse_text(src@),
    {
        let (ops, _) = parse_level(src, 0);
        proof {
            lemma_parse_from_fuel(
                src@,
                0,
                (src@.len() + 1) as nat,
                (src@.len() - 0 + 1) as nat,
            );
        }
        Program(ops)
    }
}

/// One level of recursive descent, mirroring `parse_from` exactly.
fn parse_level(src: &Vec<char>, i: usize) -> (r: (Vec<Operation>, usize))
    requires
        i <= src.len(),
    ensures
        ops_view(r.0@) == parse_from(src@, i as int, (src@.len() - i + 1) as nat).0,
        r.1 as int == parse_from(src@, i as int, (src@.len() - i + 1) as nat).1,
        i <= r.1 <= src.len(),
    decreases src.len() - i,
{
    let ghost fuel: nat = (src@.len() - i + 1) as nat;
    proof {
        lemma_parse_from_pos(src@, i as int, fuel);
    }
    if i == src.len() {
        (Vec::new(), i)
    } else {
        let c = src[i];
        if c == ']' {
            (Vec::new(), i + 1)
        } else if c == '[' {
            let (body, j) = parse_level(src, i + 1);
            let (mut rest, k) = parse_level(src, j);
            proof {
                lemma_parse_from_fuel(
                    src@,
                    i + 1,
                    (src@.len() - (i + 1) + 1) as nat,
                    (fuel - 1) as nat,
                );
                lemma_parse_from_fuel(
                    src@,
                    j as int,
                    (src@.len() - j + 1) as nat,
                    (fuel - 1) as nat,
                );
            }
            let op = Operation::Loop(Program(body));
            let ghost rest0 = rest@;
            rest.insert(0, op);
            proof {
                assert(rest@ =~= seq![op] + rest0);
                lemma_ops_view_cons(op, rest0);
            }
            (rest, k)
        } else {
            let (mut rest, j) = parse_level(src, i + 1);
            proof {
                lemma_parse_from_fuel(
                    src@,
                    i + 1,
                    (src@.len() - (i + 1) + 1) as nat,
                    (fuel - 1) as nat,
                );
            }
            let op: Option<Operation> = match c {
                '+' => Option::Some(Operation::Increment),
                '-' => Option::Some(Operation::Decrement),
                '>' => Option::Some(Operation::MoveRight),
                '<' => Option::Some(Operation::MoveLeft),
                '.' => Option::Some(Operation::Write),
                ',' => Option::Some(Operation::Read),
                _ => Option::None,
            };
            match op {
                Option::Some(op) => {
                    let ghost rest0 = rest@;
                    rest.insert(0, op);
                    proof {
                        assert(rest@ =~= seq![op] + rest0);
                        lemma_ops_view_cons(op, rest0);
                    }
                    (rest, j)
                },
                Option::None => (rest, j),
            }
        }
    }
}

} // verus!
