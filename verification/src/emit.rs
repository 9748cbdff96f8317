//! The emitter: walking the operation tree and making the IR builder calls.
use vstd::prelude::*;
use crate::ast::{
    lemma_loops_in_add, lemma_loops_in_nonneg, lemma_loops_in_op_nonneg, lemma_loops_in_single,
    lemma_ops_view_add, lemma_ops_view_single, lemma_parse_from_loops, lemma_parse_from_pos,
    loops_in, loops_in_op, op_view, ops_view, parse_text, prog_view, Op, Operation, Program,
};
use crate::backend::{
    add_block_mark, add_call_arg_ub, add_cond_jump, add_ret, add_store_byte, assign_add_byte,
    assign_add_long, assign_alloc4, assign_call_byte, assign_load_ub, assign_sub_byte,
    assign_sub_long, entry_open, fn_log, fn_modeled, fn_name_of, module_text, new_public_function,
    render_module, BuildEv,
};
use crate::ir::{
    emit_op, emit_ops, full_steps, lemma_emit_ops_add, lemma_emit_ops_single, IrStep,
};
use crate::labels::{body_label, end_label, lbl_body, lbl_end};

verus! {

/// The builder call a lowering step stands for, with the fixed register
/// names (`pointer`, `value`), routine names (`putchar`, `getchar`), entry
/// label (`start`) and the label pair of its index.
pub open spec fn ev_of(step: IrStep) -> BuildEv {
    match step {
        IrStep::EntryBlock => BuildEv::BlockMark("start"@),
        IrStep::AllocTape(cap) => BuildEv::AllocFour("pointer"@, cap),
        IrStep::LoadCell => BuildEv::LoadUB("value"@, "pointer"@),
        IrStep::AddOne => BuildEv::AddB("value"@, 1),
        IrStep::SubOne => BuildEv::SubB("value"@, 1),
        IrStep::StoreCell => BuildEv::StoreB("pointer"@, "value"@),
        IrStep::PtrRight => BuildEv::AddL("pointer"@, 1),
        IrStep::PtrLeft => BuildEv::SubL("pointer"@, 1),
        IrStep::CallWrite => BuildEv::CallArgUB("putchar"@, "value"@),
        IrStep::ReadCell => BuildEv::CallAssignB("value"@, "getchar"@),
        IrStep::LoopBranch(j) => BuildEv::CondJump("value"@, lbl_body(j), lbl_end(j)),
        IrStep::BodyBlock(j) => BuildEv::BlockMark(lbl_body(j)),
        IrStep::EndBlock(j) => BuildEv::BlockMark(lbl_end(j)),
        IrStep::Ret => BuildEv::RetNone,
    }
}

/// The builder calls of a whole step sequence, in order.
pub open spec fn events_of(steps: Seq<IrStep>) -> Seq<BuildEv> {
    steps.map_values(|step: IrStep| ev_of(step))
}

pub proof fn lemma_events_of_add(a: Seq<IrStep>, b: Seq<IrStep>)
    ensures
        events_of(a + b) == events_of(a) + events_of(b),
{
    assert(events_of(a + b) =~= events_of(a) + events_of(b));
}

/// What one loop iteration of the emitter must know: how prefix and suffix
/// views, lowered steps, builder calls and loop counts develop when the
/// operation at `idx` is taken in.
proof fn lemma_prefix_step(s: Seq<Operation>, idx: int, n0: int)
    requires
        0 <= idx < s.len(),
    ensures
        emit_ops(ops_view(s.take(idx + 1)), n0).1
            == emit_op(op_view(s[idx]), emit_ops(ops_view(s.take(idx)), n0).1).1,
        events_of(emit_ops(ops_view(s.take(idx + 1)), n0).0)
            == events_of(emit_ops(ops_view(s.take(idx)), n0).0)
                + events_of(emit_op(op_view(s[idx]), emit_ops(ops_view(s.take(idx)), n0).1).0),
        loops_in(ops_view(s.skip(idx)))
            == loops_in_op(op_view(s[idx])) + loops_in(ops_view(s.skip(idx + 1))),
{
    let x = s[idx];
    assert(s.take(idx + 1) =~= s.take(idx) + seq![x]);
    lemma_ops_view_add(s.take(idx), seq![x]);
    lemma_ops_view_single(x);
    let pre = ops_view(s.take(idx));
    let m = emit_ops(pre, n0).1;
    lemma_emit_ops_add(pre, seq![op_view(x)], n0);
    lemma_emit_ops_single(op_view(x), m);
    lemma_events_of_add(emit_ops(pre, n0).0, emit_op(op_view(x), m).0);
    assert(s.skip(idx) =~= seq![x] + s.skip(idx + 1));
    lemma_ops_view_add(seq![x], s.skip(idx + 1));
    lemma_loops_in_add(seq![op_view(x)], ops_view(s.skip(idx + 1)));
    lemma_loops_in_single(op_view(x));
}

impl Program {
    /// Lower this tree into `f`, threading the label counter: each loop
    /// anywhere in the tree takes the next free label-pair index on entry.
    /// The builder calls made are exactly `emit_ops` of the tree's view at
    /// the counter's starting value.
    pub fn emit_part(&self, f: &mut qbe::Function, block_count: &mut usize)
        requires
            fn_modeled(*old(f)),
            entry_open(fn_log(*old(f))),
            *old(block_count) + loops_in(prog_view(*self)) <= usize::MAX,
        ensures
            fn_modeled(*final(f)),
            fn_name_of(*final(f)) == fn_name_of(*old(f)),
            entry_open(fn_log(*final(f))),
            fn_log(*final(f)) == fn_log(*old(f))
                + events_of(emit_ops(prog_view(*self), *old(block_count) as int).0),
            *final(block_count) as int
                == emit_ops(prog_view(*self), *old(block_count) as int).1,
        decreases *self,
    {
        let ghost n0: int = *block_count as int;
        let ghost log0 = fn_log(*f);
        proof {
            lemma_loops_in_nonneg(prog_view(*self));
            assert(self.0@.take(0) =~= Seq::<Operation>::empty());
            assert(events_of(Seq::<IrStep>::empty()) =~= Seq::<BuildEv>::empty());
            assert(log0 + Seq::<BuildEv>::empty() =~= log0);
            assert(self.0@.skip(0) =~= self.0@);
        }
        let mut idx: usize = 0;
        while idx < self.0.len()
            invariant
                idx <= self.0.len(),
                fn_modeled(*f),
                fn_name_of(*f) == fn_name_of(*old(f)),
                entry_open(fn_log(*f)),
                log0 == fn_log(*old(f)),
                n0 == *old(block_count) as int,
                fn_log(*f) == log0 + events_of(emit_ops(ops_view(self.0@.take(idx as int)), n0).0),
                *block_count as int == emit_ops(ops_view(self.0@.take(idx as int)), n0).1,
                *block_count + loops_in(ops_view(self.0@.skip(idx as int))) <= usize::MAX,
            decreases self.0.len() - idx,
        {
            let ghost pre = ops_view(self.0@.take(idx as int));
            let ghost m: int = emit_ops(pre, n0).1;
            let ghost logp = fn_log(*f);
            proof {
                lemma_prefix_step(self.0@, idx as int, n0);
                lemma_loops_in_op_nonneg(op_view(self.0@[idx as int]));
                lemma_loops_in_nonneg(ops_view(self.0@.skip(idx as int + 1)));
            }
            let op = &self.0[idx];
            match op {
                Operation::Increment => {
                    assign_load_ub(f, "value", "pointer");
                    assign_add_byte(f, "value", 1);
                    add_store_byte(f, "pointer", "value");
                    proof {
                        let opv = op_view(self.0@[idx as int]);
                        assert(events_of(emit_op(opv, m).0)
                            =~= seq![ev_of(IrStep::LoadCell), ev_of(IrStep::AddOne), ev_of(
                            IrStep::StoreCell,
                        )]);
                        assert(fn_log(*f) =~= logp + events_of(emit_op(opv, m).0));
                    }
                },
                Operation::Decrement => {
                    assign_load_ub(f, "value", "pointer");
                    assign_sub_byte(f, "value", 1);
                    add_store_byte(f, "pointer", "value");
                    proof {
                        let opv = op_view(self.0@[idx as int]);
                        assert(events_of(emit_op(opv, m).0)
                            =~= seq![ev_of(IrStep::LoadCell), ev_of(IrStep::SubOne), ev_of(
                            IrStep::StoreCell,
                        )]);
                        assert(fn_log(*f) =~= logp + events_of(emit_op(opv, m).0));
                    }
                },
                Operation::MoveRight => {
                    assign_add_long(f, "pointer", 1);
                    proof {
                        let opv = op_view(self.0@[idx as int]);
                        assert(events_of(emit_op(opv, m).0) =~= seq![ev_of(IrStep::PtrRight)]);
                        assert(fn_log(*f) =~= logp + events_of(emit_op(opv, m).0));
                    }
                },
                Operation::MoveLeft => {
                    assign_sub_long(f, "pointer", 1);
                    proof {
                        let opv = op_view(self.0@[idx as int]);
                        assert(events_of(emit_op(opv, m).0) =~= seq![ev_of(IrStep::PtrLeft)]);
                        assert(fn_log(*f) =~= logp + events_of(emit_op(opv, m).0));
                    }
                },
                Operation::Write => {
                    assign_load_ub(f, "value", "pointer");
                    add_call_arg_ub(f, "putchar", "value");
                    proof {
                        let opv = op_view(self.0@[idx as int]);
                        assert(events_of(emit_op(opv, m).0)
                            =~= seq![ev_of(IrStep::LoadCell), ev_of(IrStep::CallWrite)]);
                        assert(fn_log(*f) =~= logp + events_of(emit_op(opv, m).0));
                    }
                },
                Operation::Read => {
                    assign_call_byte(f, "value", "getchar");
                    add_store_byte(f, "pointer", "value");
                    proof {
                        let opv = op_view(self.0@[idx as int]);
                        assert(events_of(emit_op(opv, m).0)
                            =~= seq![ev_of(IrStep::ReadCell), ev_of(IrStep::StoreCell)]);
                        assert(fn_log(*f) =~= logp + events_of(emit_op(opv, m).0));
                    }
                },
                Operation::Loop(p) => {
                    let n: usize = *block_count;
                    let ghost body = prog_view(*p);
                    proof {
                        lemma_loops_in_nonneg(body);
                        assert(loops_in_op(op_view(self.0@[idx as int])) == 1 + loops_in(body));
                        crate::ir::lemma_label_pairs(body, m + 1);
                    }
                    let body_lbl = body_label(n);
                    let end_lbl = end_label(n);
                    assign_load_ub(f, "value", "pointer");
                    add_cond_jump(f, "value", body_lbl.clone(), end_lbl.clone());
                    add_block_mark(f, body_lbl.clone());
                    *block_count = n + 1;
                    p.emit_part(f, block_count);
                    assign_load_ub(f, "value", "pointer");
                    add_cond_jump(f, "value", body_lbl, end_lbl.clone());
                    add_block_mark(f, end_lbl);
                    proof {
                        let opv = op_view(self.0@[idx as int]);
                        let head = seq![
                            IrStep::LoadCell,
                            IrStep::LoopBranch(m),
                            IrStep::BodyBlock(m),
                        ];
                        let inner = emit_ops(body, m + 1).0;
                        let tail = seq![
                            IrStep::LoadCell,
                            IrStep::LoopBranch(m),
                            IrStep::EndBlock(m),
                        ];
                        assert(emit_op(opv, m).0 == (head + inner) + tail);
                        lemma_events_of_add(head + inner, tail);
                        lemma_events_of_add(head, inner);
                        assert(events_of(head)
                            =~= seq![ev_of(IrStep::LoadCell), ev_of(IrStep::LoopBranch(m)), ev_of(
                            IrStep::BodyBlock(m),
                        )]);
                        assert(events_of(tail)
                            =~= seq![ev_of(IrStep::LoadCell), ev_of(IrStep::LoopBranch(m)), ev_of(
                            IrStep::EndBlock(m),
                        )]);
                        assert(fn_log(*f) =~= logp + events_of(emit_op(opv, m).0));
                        assert(*block_count as int == emit_op(opv, m).1);
                    }
                },
            }
            proof {
                assert(fn_log(*f) == log0 + events_of(
                    emit_ops(ops_view(self.0@.take(idx as int + 1)), n0).0,
                )) by {
                    assert(logp + events_of(
                        emit_op(op_view(self.0@[idx as int]), m).0,
                    ) =~= log0 + (events_of(emit_ops(pre, n0).0) + events_of(
                        emit_op(op_view(self.0@[idx as int]), m).0,
                    )));
                }
            }
            idx = idx + 1;
        }
        proof {
            assert(self.0@.take(self.0@.len() as int) =~= self.0@);
        }
    }

    /// Emit the whole function body for this tree into a fresh function:
    /// the entry block with the tape allocation, the lowered tree with label
    /// pairs from 0 up, and a bare return.
    pub fn emit(&self, f: &mut qbe::Function)
        requires
            fn_modeled(*old(f)),
            fn_log(*old(f)) == Seq::<BuildEv>::empty(),
            loops_in(prog_view(*self)) <= usize::MAX,
        ensures
            fn_modeled(*final(f)),
            fn_name_of(*final(f)) == fn_name_of(*old(f)),
            fn_log(*final(f)) == events_of(full_steps(prog_view(*self))),
    {
        add_block_mark(f, "start".to_owned());
        proof {
            assert(fn_log(*f)[0] is BlockMark);
        }
        assign_alloc4(f, "pointer", 30000);
        let mut block_count: usize = 0;
        proof {
            lemma_loops_in_nonneg(prog_view(*self));
        }
        self.emit_part(f, &mut block_count);
        add_ret(f);
        proof {
            let ops = prog_view(*self);
            let opening = seq![IrStep::EntryBlock, IrStep::AllocTape(30000)];
            let mid = emit_ops(ops, 0).0;
            lemma_events_of_add(opening + mid, seq![IrStep::Ret]);
            lemma_events_of_add(opening, mid);
            assert(events_of(opening)
                =~= seq![ev_of(IrStep::EntryBlock), ev_of(IrStep::AllocTape(30000))]);
            assert(events_of(seq![IrStep::Ret]) =~= seq![ev_of(IrStep::Ret)]);
            assert(full_steps(ops) == (opening + mid) + seq![IrStep::Ret]);
            assert(fn_log(*f) =~= events_of(full_steps(ops)));
        }
    }
}

/// The IR text of a source text: the module rendering of the builder calls
/// that lowering its parse tree makes, inside one public function named
/// `main`.
pub open spec fn compiled_text(s: Seq<char>) -> Seq<char> {
    module_text("main"@, events_of(full_steps(parse_text(s))))
}

/// Translate source text to IR text. The result is a function of the input
/// text alone, so repeated runs on the same source produce byte-identical
/// output.
pub fn compile(source: &Vec<char>) -> (r: String)
    ensures
        r@ == compiled_text(source@),
{
    let program = Program::parse(source);
    let bound: usize = source.len();
    proof {
        assert(source@.len() == bound);
        lemma_parse_from_loops(source@, 0, (source@.len() + 1) as nat);
        lemma_parse_from_pos(source@, 0, (source@.len() + 1) as nat);
    }
    let mut f = new_public_function("main");
    program.emit(&mut f);
    render_module(f)
}

} // verus!
