//! The shape of the emitted function body.
//!
//! Emission is modeled as a sequence of `IrStep` values, one per IR builder
//! call: the entry block, the tape allocation, per-operation instruction
//! groups, a pre-tested loop construction with a globally unique label pair
//! per loop, and a closing return.
use vstd::prelude::*;
use crate::ast::{loops_in, loops_in_op, Op};

verus! {

/// One IR builder call of the emitted function body. Loop steps carry the
/// index of their label pair.
pub enum IrStep {
    /// Open the entry block.
    EntryBlock,
    /// Allocate the tape of the given capacity and set the pointer to its
    /// base.
    AllocTape(int),
    /// Load the byte at the pointer into the scratch value, zero-extended.
    LoadCell,
    /// Add one to the scratch value at byte width.
    AddOne,
    /// Subtract one from the scratch value at byte width.
    SubOne,
    /// Store the scratch value back to the cell at the pointer.
    StoreCell,
    /// Add one to the pointer at word width.
    PtrRight,
    /// Subtract one from the pointer at word width.
    PtrLeft,
    /// Pass the scratch value to the external character-output routine.
    CallWrite,
    /// Call the external character-input routine into the scratch value.
    ReadCell,
    /// Branch on the scratch value: to the body block of pair `n` if
    /// nonzero, else to its end block.
    LoopBranch(int),
    /// Open the body block of label pair `n`.
    BodyBlock(int),
    /// Open the end block of label pair `n`.
    EndBlock(int),
    /// Return without a value.
    Ret,
}

/// Lower one operation with `n` label pairs already allocated: the steps and
/// the next free pair index.
pub open spec fn emit_op(op: Op, n: int) -> (Seq<IrStep>, int)
    decreases op,
{
    match op {
        Op::Increment => (seq![IrStep::LoadCell, IrStep::AddOne, IrStep::StoreCell], n),
        Op::Decrement => (seq![IrStep::LoadCell, IrStep::SubOne, IrStep::StoreCell], n),
        Op::MoveRight => (seq![IrStep::PtrRight], n),
        Op::MoveLeft => (seq![IrStep::PtrLeft], n),
        Op::Write => (seq![IrStep::LoadCell, IrStep::CallWrite], n),
        Op::Read => (seq![IrStep::ReadCell, IrStep::StoreCell], n),
        Op::Loop(body) => {
            let (inner, m) = emit_ops(body, n + 1);
            (
                seq![IrStep::LoadCell, IrStep::LoopBranch(n), IrStep::BodyBlock(n)] + inner
                    + seq![IrStep::LoadCell, IrStep::LoopBranch(n), IrStep::EndBlock(n)],
                m,
            )
        },
    }
}

/// Lower a sequence of operations in order, threading the label counter.
pub open spec fn emit_ops(ops: Seq<Op>, n: int) -> (Seq<IrStep>, int)
    decreases ops,
{
    if ops.len() == 0 {
        (Seq::empty(), n)
    } else {
        let (first, m) = emit_op(ops[0], n);
        let (rest, k) = emit_ops(ops.drop_first(), m);
        (first + rest, k)
    }
}

/// The whole function body for a tree: tape allocation in the entry block,
/// the lowered tree with label pairs from 0 up, and a bare return.
pub open spec fn full_steps(ops: Seq<Op>) -> Seq<IrStep> {
    seq![IrStep::EntryBlock, IrStep::AllocTape(30000)] + emit_ops(ops, 0).0 + seq![IrStep::Ret]
}

/// Lowering a concatenation lowers the parts in order.
pub proof fn lemma_emit_ops_add(a: Seq<Op>, b: Seq<Op>, n: int)
    ensures
        emit_ops(a + b, n).0 == emit_ops(a, n).0 + emit_ops(b, emit_ops(a, n).1).0,
        emit_ops(a + b, n).1 == emit_ops(b, emit_ops(a, n).1).1,
    decreases a,
{
    if a.len() == 0 {
        assert(a + b =~= b);
        assert(emit_ops(a, n).0 + emit_ops(b, n).0 =~= emit_ops(b, n).0);
    } else {
        assert((a + b)[0] == a[0]);
        assert((a + b).drop_first() =~= a.drop_first() + b);
        let (first, m) = emit_op(a[0], n);
        lemma_emit_ops_add(a.drop_first(), b, m);
        assert(first + (emit_ops(a.drop_first(), m).0 + emit_ops(b, emit_ops(a, n).1).0)
            =~= (first + emit_ops(a.drop_first(), m).0) + emit_ops(b, emit_ops(a, n).1).0);
    }
}

/// Lowering a one-element sequence lowers its element.
pub proof fn lemma_emit_ops_single(x: Op, n: int)
    ensures
        emit_ops(seq![x], n).0 == emit_op(x, n).0,
        emit_ops(seq![x], n).1 == emit_op(x, n).1,
{
    assert(seq![x].len() == 1);
    assert(seq![x][0] == x);
    assert(seq![x].drop_first() =~= Seq::<Op>::empty());
    assert(emit_ops(seq![x].drop_first(), emit_op(x, n).1).0 == Seq::<IrStep>::empty());
    assert(emit_op(x, n).0 + Seq::<IrStep>::empty() =~= emit_op(x, n).0);
}

/// The label-pair indices of the body blocks of `steps`, in emission order.
pub open spec fn body_marks(steps: Seq<IrStep>) -> Seq<int>
    decreases steps,
{
    if steps.len() == 0 {
        Seq::empty()
    } else {
        let rest = body_marks(steps.drop_first());
        match steps[0] {
            IrStep::BodyBlock(j) => seq![j] + rest,
            _ => rest,
        }
    }
}

/// The label-pair indices of the end blocks of `steps`, in emission order.
pub open spec fn end_marks(steps: Seq<IrStep>) -> Seq<int>
    decreases steps,
{
    if steps.len() == 0 {
        Seq::empty()
    } else {
        let rest = end_marks(steps.drop_first());
        match steps[0] {
            IrStep::EndBlock(j) => seq![j] + rest,
            _ => rest,
        }
    }
}

/// The consecutive indices `lo`, `lo + 1`, ..., `hi - 1`.
pub open spec fn index_range(lo: int, hi: int) -> Seq<int> {
    Seq::new(if hi >= lo { (hi - lo) as nat } else { 0 }, |k: int| lo + k)
}

pub proof fn lemma_body_marks_add(a: Seq<IrStep>, b: Seq<IrStep>)
    ensures
        body_marks(a + b) == body_marks(a) + body_marks(b),
        end_marks(a + b) == end_marks(a) + end_marks(b),
    decreases a,
{
    if a.len() == 0 {
        assert(a + b =~= b);
        assert(body_marks(a) + body_marks(b) =~= body_marks(b));
        assert(end_marks(a) + end_marks(b) =~= end_marks(b));
    } else {
        assert((a + b)[0] == a[0]);
        assert((a + b).drop_first() =~= a.drop_first() + b);
        lemma_body_marks_add(a.drop_first(), b);
        match a[0] {
            IrStep::BodyBlock(j) => {
                assert(seq![j] + (body_marks(a.drop_first()) + body_marks(b))
                    =~= (seq![j] + body_marks(a.drop_first())) + body_marks(b));
            },
            _ => {},
        }
        match a[0] {
            IrStep::EndBlock(j) => {
                assert(seq![j] + (end_marks(a.drop_first()) + end_marks(b))
                    =~= (seq![j] + end_marks(a.drop_first())) + end_marks(b));
            },
            _ => {},
        }
    }
}

/// Label counter monotonicity. Lowering a tree that holds `k` loops, with
/// `n` pairs already taken, allocates exactly the pair indices `n`,
/// `n + 1`, ..., `n + k - 1`: the counter comes back as `n + k`, the body
/// blocks open each of those indices exactly once, in increasing order —
/// which is depth-first traversal order, as each loop takes its index on
/// entry — and the end blocks close exactly the same indices, each once.
pub proof fn lemma_label_pairs(ops: Seq<Op>, n: int)
    ensures
        emit_ops(ops, n).1 == n + loops_in(ops),
        body_marks(emit_ops(ops, n).0) == index_range(n, n + loops_in(ops)),
        end_marks(emit_ops(ops, n).0).to_multiset()
            == index_range(n, n + loops_in(ops)).to_multiset(),
    decreases ops,
{
    crate::ast::lemma_loops_in_nonneg(ops);
    if ops.len() == 0 {
        assert(body_marks(emit_ops(ops, n).0) =~= index_range(n, n));
        assert(end_marks(emit_ops(ops, n).0) =~= index_range(n, n));
    } else {
        let (first, m) = emit_op(ops[0], n);
        let (rest, k) = emit_ops(ops.drop_first(), m);
        lemma_label_pairs_op(ops[0], n);
        lemma_label_pairs(ops.drop_first(), m);
        lemma_body_marks_add(first, rest);
        crate::ast::lemma_loops_in_op_nonneg(ops[0]);
        crate::ast::lemma_loops_in_nonneg(ops.drop_first());
        assert(body_marks(first + rest) =~= index_range(n, n + loops_in(ops))) by {
            assert(body_marks(first + rest) == body_marks(first) + body_marks(rest));
        }
        assert(end_marks(first + rest).to_multiset()
            == index_range(n, n + loops_in(ops)).to_multiset()) by {
            end_marks(first).to_multiset_ensures();
            lemma_range_multiset_split(n, m, n + loops_in(ops));
            vstd::seq_lib::lemma_multiset_commutative(end_marks(first), end_marks(rest));
            vstd::seq_lib::lemma_multiset_commutative(
                index_range(n, m),
                index_range(m, n + loops_in(ops)),
            );
        }
    }
}

/// The marks of the three steps that open a loop and of the three that
/// close it.
pub proof fn lemma_marks_loop_frame(n: int)
    ensures
        body_marks(seq![IrStep::LoadCell, IrStep::LoopBranch(n), IrStep::BodyBlock(n)])
            == seq![n],
        end_marks(seq![IrStep::LoadCell, IrStep::LoopBranch(n), IrStep::BodyBlock(n)])
            == Seq::<int>::empty(),
        body_marks(seq![IrStep::LoadCell, IrStep::LoopBranch(n), IrStep::EndBlock(n)])
            == Seq::<int>::empty(),
        end_marks(seq![IrStep::LoadCell, IrStep::LoopBranch(n), IrStep::EndBlock(n)])
            == seq![n],
{
    reveal_with_fuel(body_marks, 5);
    reveal_with_fuel(end_marks, 5);
    let head = seq![IrStep::LoadCell, IrStep::LoopBranch(n), IrStep::BodyBlock(n)];
    let tail = seq![IrStep::LoadCell, IrStep::LoopBranch(n), IrStep::EndBlock(n)];
    assert(head.drop_first() =~= seq![IrStep::LoopBranch(n), IrStep::BodyBlock(n)]);
    assert(seq![IrStep::LoopBranch(n), IrStep::BodyBlock(n)].drop_first()
        =~= seq![IrStep::BodyBlock(n)]);
    assert(seq![IrStep::BodyBlock(n)].drop_first() =~= Seq::<IrStep>::empty());
    assert(tail.drop_first() =~= seq![IrStep::LoopBranch(n), IrStep::EndBlock(n)]);
    assert(seq![IrStep::LoopBranch(n), IrStep::EndBlock(n)].drop_first()
        =~= seq![IrStep::EndBlock(n)]);
    assert(seq![IrStep::EndBlock(n)].drop_first() =~= Seq::<IrStep>::empty());
    assert(body_marks(head) =~= seq![n]);
    assert(end_marks(head) =~= Seq::<int>::empty());
    assert(body_marks(tail) =~= Seq::<int>::empty());
    assert(end_marks(tail) =~= seq![n]);
}

/// The same, for one operation.
pub proof fn lemma_label_pairs_op(op: Op, n: int)
    ensures
        emit_op(op, n).1 == n + loops_in_op(op),
        body_marks(emit_op(op, n).0) == index_range(n, n + loops_in_op(op)),
        end_marks(emit_op(op, n).0).to_multiset()
            == index_range(n, n + loops_in_op(op)).to_multiset(),
    decreases op,
{
    crate::ast::lemma_loops_in_op_nonneg(op);
    match op {
        Op::Loop(body) => {
            let (inner, m) = emit_ops(body, n + 1);
            lemma_label_pairs(body, n + 1);
            crate::ast::lemma_loops_in_nonneg(body);
            let head = seq![IrStep::LoadCell, IrStep::LoopBranch(n), IrStep::BodyBlock(n)];
            let tail = seq![IrStep::LoadCell, IrStep::LoopBranch(n), IrStep::EndBlock(n)];
            lemma_body_marks_add(head + inner, tail);
            lemma_body_marks_add(head, inner);
            lemma_marks_loop_frame(n);
            assert(body_marks(emit_op(op, n).0) =~= index_range(n, n + loops_in_op(op))) by {
                assert(body_marks((head + inner) + tail)
                    == (seq![n] + body_marks(inner)) + Seq::<int>::empty());
            }
            assert(end_marks(emit_op(op, n).0).to_multiset()
                == index_range(n, n + loops_in_op(op)).to_multiset()) by {
                let hi = n + 1 + loops_in(body);
                assert(end_marks((head + inner) + tail)
                    == (Seq::<int>::empty() + end_marks(inner)) + seq![n]);
                assert(Seq::<int>::empty() + end_marks(inner) =~= end_marks(inner));
                vstd::seq_lib::lemma_multiset_commutative(end_marks(inner), seq![n]);
                assert(index_range(n, hi) =~= seq![n] + index_range(n + 1, hi));
                vstd::seq_lib::lemma_multiset_commutative(seq![n], index_range(n + 1, hi));
                assert(end_marks(inner).to_multiset().add(seq![n].to_multiset())
                    =~= seq![n].to_multiset().add(end_marks(inner).to_multiset()));
                assert(end_marks(inner).to_multiset()
                    == index_range(n + 1, hi).to_multiset());
            }
        },
        _ => {
            assert(body_marks(emit_op(op, n).0) =~= Seq::<int>::empty()) by {
                lemma_no_marks(emit_op(op, n).0);
            }
            assert(end_marks(emit_op(op, n).0) =~= Seq::<int>::empty()) by {
                lemma_no_marks(emit_op(op, n).0);
            }
            assert(index_range(n, n) =~= Seq::<int>::empty());
        },
    }
}

/// A step sequence without block-opening steps has no marks.
pub proof fn lemma_no_marks(steps: Seq<IrStep>)
    requires
        forall|i: int|
            0 <= i < steps.len() ==> !(steps[i] is BodyBlock) && !(steps[i] is EndBlock),
    ensures
        body_marks(steps) == Seq::<int>::empty(),
        end_marks(steps) == Seq::<int>::empty(),
    decreases steps,
{
    if steps.len() > 0 {
        assert(forall|i: int|
            0 <= i < steps.drop_first().len() ==> steps.drop_first()[i] == steps[i + 1]);
        lemma_no_marks(steps.drop_first());
    }
}

/// A consecutive range splits at any midpoint into the same multiset.
pub proof fn lemma_range_multiset_split(lo: int, mid: int, hi: int)
    requires
        lo <= mid <= hi,
    ensures
        index_range(lo, hi).to_multiset()
            == (index_range(lo, mid) + index_range(mid, hi)).to_multiset(),
{
    assert(index_range(lo, hi) =~= index_range(lo, mid) + index_range(mid, hi));
}

} // verus!
