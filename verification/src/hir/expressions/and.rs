use vstd::prelude::*;

use crate::ast::expr::Expr;
use crate::ast::measure::{expr_info, join, no_info, node};
use crate::ast::{DeclarationId, Span};
use crate::hir::builders::control_flow::jump_shape;
use crate::hir::builders::ssa::{acyclic, lemma_acyclic_chains, lemma_only_phis_kept, sealed_shape, shape, block_shape};
use crate::hir::builders::{Builder, InBlock};
use crate::hir::expressions::{in_sealed_block, lemma_value_shape_kept, lemma_values_kept_trans, value_shape, values_kept};
use crate::hir::instructions::{
    BasicBlockId, InstrDefinition, InstrId, InstructionKind, MakeLiteralKind, PhiInstr, PhiSource, Terminator,
    is_phi_kind,
};

verus! {

impl Builder<InBlock> {
    /// In an acyclic graph, sealing any block keeps forwarding chains finite.
    pub(crate) proof fn lemma_seal_ok(cfg: crate::hir::instructions::FunctionCFG, b: int)
        requires
            acyclic(cfg),
            0 <= b < cfg.blocks.len(),
        ensures
            crate::hir::builders::ssa::chains_acyclic(sealed_shape(shape(cfg), b)),
    {
        let sh = sealed_shape(shape(cfg), b);
        assert forall|x: int| 0 <= x < sh.len() implies (#[trigger] sh[x]).1 == cfg.blocks@[x].predecessors@ by {
            assert(shape(cfg)[x] == block_shape(cfg.blocks@[x]));
        }
        lemma_acyclic_chains(cfg, sh);
    }

    /// How a short-circuit operator of `old` ended in `new` with the value
    /// `id`: a phi in the current block, which is sealed and has as its
    /// predecessors exactly the block where the operator started and the
    /// block, created on the way, where the right operand ended with a jump
    /// to it; the phi's second source is that block with the value of
    /// `right`. The phi's first source is a value of the starting block. The
    /// block where `right` was built has that starting block as its one
    /// predecessor and is sealed.
    pub open spec fn logical_merged(old: Self, new: Self, right: Expr, id: InstrId) -> bool {
        let m = new.context.block_id;
        let nc = new.cur();
        let r = old.cur().blocks.len() as int;
        &&& nc.blocks@[r].sealed
        &&& forall|x: BasicBlockId| #[trigger] nc.blocks@[r].predecessors@.contains(x) <==> x == old.context.block_id
        &&& nc.instructions@[id.0 as int].kind matches InstructionKind::Phi(p) && p.sources@.len() == 2 && {
            let e = p.sources@[1].block;
            &&& nc.instructions@[p.sources@[0].value.0 as int].block == old.context.block_id
            &&& e.0 >= old.cur().blocks.len()
            &&& e != m
            &&& nc.blocks@[e.0 as int].terminator == Some(Terminator::Jump { target: m })
            &&& value_shape(nc, right, p.sources@[1].value)
            &&& forall|x: BasicBlockId| #[trigger] nc.blocks@[m.0 as int].predecessors@.contains(x) <==> (x
                == old.context.block_id || x == e)
        }
        &&& nc.instructions@[id.0 as int].block == m
        &&& nc.blocks@[m.0 as int].sealed
    }

    /// Builds `left && right` (when `is_and`) or `left || right` (otherwise),
    /// where `left` is already built: `right` is only evaluated when `left`
    /// does not decide, in a block of its own; both paths meet in a new
    /// block, where a phi gives the result.
    #[verifier::rlimit(80)]
    fn emit_logical(&mut self, left: InstrId, span: Span, right: Expr, is_and: bool) -> (id: InstrId)
        requires
            old(self).ready(node(expr_info(right))),
            old(self).cur().has_instr(left),
        ensures
            Self::built(*old(self), *final(self), node(expr_info(right)), id),
            final(self).context.block_id.0 == old(self).cur().blocks.len() + 1,
            final(self).cur().blocks@[old(self).context.block_id.0 as int].terminator == Some(
                Terminator::CondJump {
                    condition: left,
                    true_target: BasicBlockId(
                        if is_and {
                            old(self).cur().blocks.len()
                        } else {
                            (old(self).cur().blocks.len() + 1) as usize
                        },
                    ),
                    false_target: BasicBlockId(
                        if is_and {
                            (old(self).cur().blocks.len() + 1) as usize
                        } else {
                            old(self).cur().blocks.len()
                        },
                    ),
                },
            ),
            final(self).cur().instructions@[id.0 as int].kind matches InstructionKind::Phi(p) && p.sources@.len() == 2
                && p.sources@[0].block == old(self).context.block_id && final(self).cur().instructions@[p.sources@[0].value.0 as int].kind
                == InstructionKind::MakeLiteral(MakeLiteralKind::Bool(!is_and)) && final(self).cur().has_instr(
                p.sources@[1].value,
            ),
            Self::logical_merged(*old(self), *final(self), right, id),
        decreases expr_info(right).size + 1, 1nat,
    {
        let ghost a = *self;
        let ghost ir = expr_info(right);
        let ghost info = node(ir);
        let left_block = self.context.block_id;
        let right_entry_block = self.new_block();
        let merge_block = self.new_block();
        let ghost b2 = *self;
        let const_value = self.push_instruction(InstructionKind::MakeLiteral(MakeLiteralKind::Bool(!is_and)), span.clone());
        let ghost b3 = *self;
        proof {
            Self::lemma_frame(b2, b3);
            assert(shape(b3.cur())[right_entry_block.0 as int] == block_shape(b3.cur().blocks@[right_entry_block.0 as int]));
            assert(shape(b3.cur())[merge_block.0 as int] == block_shape(b3.cur().blocks@[merge_block.0 as int]));
            assert(jump_shape(shape(b3.cur()), right_entry_block.0 as int, left_block) == shape(b3.cur()));
            assert(jump_shape(shape(b3.cur()), merge_block.0 as int, left_block) == shape(b3.cur()));
            assert(b3.cur().blocks@[merge_block.0 as int] == b2.cur().blocks@[merge_block.0 as int]);
            assert(b3.cur().only_phis_in(merge_block.0 as int));
            assert(!b3.cur().blocks@[merge_block.0 as int].sealed);
            assert(b3.cur().blocks@[merge_block.0 as int].terminator is None);
        }
        if is_and {
            self.emit_cond_jmp(left, right_entry_block, merge_block);
        } else {
            self.emit_cond_jmp(left, merge_block, right_entry_block);
        }
        let ghost b4 = *self;
        proof {
            Self::lemma_frame(b3, b4);
            let ts = if is_and { seq![right_entry_block, merge_block] } else { seq![merge_block, right_entry_block] };
            assert(!crate::hir::builders::control_flow::is_target(ts, left_block.0 as int));
        }
        self.use_basic_block(right_entry_block);
        let ghost b5 = *self;
        proof {
            assert(b5.cur() == b4.cur());
            Self::lemma_seal_ok(b5.cur(), right_entry_block.0 as int);
            assert(!b4.cur().blocks@[merge_block.0 as int].sealed);
            assert(b4.cur().blocks@[merge_block.0 as int].terminator is None);
            assert(b4.cur().only_phis_in(merge_block.0 as int)) by {
                assert forall|k: int| 0 <= k < b4.cur().blocks@[merge_block.0 as int].instructions.len() implies is_phi_kind(
                    #[trigger] b4.cur().kind_at(merge_block.0 as int, k),
                ) by {
                    assert(b4.cur().blocks@[merge_block.0 as int].instructions == b3.cur().blocks@[merge_block.0 as int].instructions);
                    assert(is_phi_kind(b3.cur().kind_at(merge_block.0 as int, k)));
                }
            }
        }
        self.seal_block(right_entry_block);
        let ghost b6 = *self;
        proof {
            Self::lemma_frame(b5, b6);
            assert(b6.cost() <= a.cost() + 4);
            assert(b6.scope_ok()) by {
                assert forall|i: int, j: int|
                    0 <= i < b6.current_scope@.len() && 0 <= j < b6.current_scope@[i].1.len() implies b6.program.has_decl(
                        (#[trigger] b6.current_scope@[i].1[j]).decl,
                    ) by {
                    assert(a.program.has_decl(a.current_scope@[i].1[j].decl));
                }
            }
            assert(b6.ready(ir));
            assert(shape(b6.cur())[merge_block.0 as int] == block_shape(b6.cur().blocks@[merge_block.0 as int]));
            assert(shape(b5.cur())[merge_block.0 as int] == block_shape(b5.cur().blocks@[merge_block.0 as int]));
            assert(!b6.cur().blocks@[merge_block.0 as int].sealed);
            assert(b6.cur().blocks@[merge_block.0 as int].terminator is None);
            assert(b6.cur().only_phis_in(merge_block.0 as int));
        }
        let right_value = self.build_expr(right);
        let ghost b7 = *self;
        let right_end_block = self.context.block_id;
        proof {
            assert(b7.cur().blocks@[merge_block.0 as int].sealed == b6.cur().blocks@[merge_block.0 as int].sealed);
            assert(!b7.cur().blocks@[merge_block.0 as int].sealed);
            assert(b7.cur().blocks@[merge_block.0 as int].terminator is None);
            assert(b7.cur().only_phis_in(merge_block.0 as int));
            assert(shape(b7.cur())[merge_block.0 as int] == block_shape(b7.cur().blocks@[merge_block.0 as int]));
            assert(jump_shape(shape(b7.cur()), merge_block.0 as int, right_end_block) == shape(b7.cur()));
        }
        self.emit_jmp(merge_block);
        let ghost b8 = *self;
        proof {
            Self::lemma_frame(b7, b8);
            assert(b8.cur().blocks@[merge_block.0 as int].terminator is None);
            assert(b8.cur().only_phis_in(merge_block.0 as int)) by {
                assert forall|k: int| 0 <= k < b8.cur().blocks@[merge_block.0 as int].instructions.len() implies is_phi_kind(
                    #[trigger] b8.cur().kind_at(merge_block.0 as int, k),
                ) by {
                    assert(b8.cur().blocks@[merge_block.0 as int].instructions == b7.cur().blocks@[merge_block.0 as int].instructions);
                    assert(is_phi_kind(b7.cur().kind_at(merge_block.0 as int, k)));
                }
            }
        }
        self.use_basic_block(merge_block);
        let ghost b9 = *self;
        proof {
            assert(b9.cur() == b8.cur());
            Self::lemma_seal_ok(b9.cur(), merge_block.0 as int);
        }
        self.seal_block(merge_block);
        let ghost b10 = *self;
        let mut sources: Vec<PhiSource> = Vec::new();
        sources.push(PhiSource { block: left_block, value: const_value });
        sources.push(PhiSource { block: right_end_block, value: right_value });
        let ghost src = sources;
        proof {
            Self::lemma_frame(b9, b10);
            assert(b10.cur().only_phis_in(merge_block.0 as int));
        }
        let id = self.push_instruction(InstructionKind::Phi(PhiInstr { sources }), span);
        proof {
            Self::lemma_frame(b10, *self);
            let f = *self;
            // What the right operand built stays, and where it ended.
            assert(Self::logical_merged(a, f, right, id)) by {
                let (c7, c10, c) = (b7.cur(), b10.cur(), f.cur());
                let m = merge_block.0 as int;
                let e = right_end_block.0 as int;
                Self::lemma_progress_values_kept(b6, b7, ir, -1);
                assert(values_kept(c7, b8.cur())) by {
                    assert forall|b: int| 0 <= b < c7.blocks.len() && (#[trigger] c7.blocks@[b]).sealed implies b8.cur().blocks@[b].sealed by {}
                }
                assert(values_kept(b9.cur(), c10)) by {
                    assert forall|b: int| 0 <= b < b9.cur().blocks.len() && (#[trigger] b9.cur().blocks@[b]).sealed implies c10.blocks@[b].sealed by {
                        assert(shape(c10)[b] == block_shape(c10.blocks@[b]));
                        assert(shape(b9.cur())[b] == block_shape(b9.cur().blocks@[b]));
                    }
                }
                assert(values_kept(c10, c)) by {
                    assert forall|b: int| 0 <= b < c10.blocks.len() && (#[trigger] c10.blocks@[b]).sealed implies c.blocks@[b].sealed by {}
                }
                lemma_values_kept_trans(c7, b8.cur(), c10);
                lemma_values_kept_trans(c7, c10, c);
                lemma_value_shape_kept(c7, c, right, right_value);
                assert(shape(c10)[m] == block_shape(c10.blocks@[m]));
                assert(shape(b9.cur())[m] == block_shape(b9.cur().blocks@[m]));
                assert(c.blocks@[m].sealed);
                assert(shape(c10)[e] == block_shape(c10.blocks@[e]));
                assert(b8.cur().blocks@[e].terminator == Some(Terminator::Jump { target: merge_block }));
                assert(c.blocks@[e].terminator == Some(Terminator::Jump { target: merge_block }));
                assert(e >= a.cur().blocks.len());
                assert forall|x: BasicBlockId| #[trigger] c.blocks@[m].predecessors@.contains(x) <==> (x == left_block
                    || x == right_end_block) by {
                    let ts = if is_and { seq![right_entry_block, merge_block] } else { seq![merge_block, right_entry_block] };
                    assert(crate::hir::builders::control_flow::is_target(ts, m));
                    assert(b3.cur().blocks@[m].predecessors@.len() == 0);
                    assert(b6.cur().blocks@[m].predecessors@ == b4.cur().blocks@[m].predecessors@);
                    assert(b7.cur().blocks@[m].predecessors@ == b6.cur().blocks@[m].predecessors@);
                    assert(seq![merge_block][0].0 == m);
                    assert(crate::hir::builders::control_flow::is_target(seq![merge_block], m));
                    assert(c10.blocks@[m].predecessors@ == b9.cur().blocks@[m].predecessors@);
                    assert(c.blocks@[m].predecessors == c10.blocks@[m].predecessors);
                }
                assert(c.instructions@[id.0 as int].block == merge_block);
                // The literal stays in the starting block.
                assert(b3.cur().instructions@[const_value.0 as int].block == left_block);
                assert(b4.cur().instructions == b3.cur().instructions);
                assert(b6.cur().instructions@[const_value.0 as int].block == b5.cur().instructions@[const_value.0 as int].block);
                assert(b7.cur().instructions@[const_value.0 as int].block == b6.cur().instructions@[const_value.0 as int].block);
                assert(b8.cur().instructions == b7.cur().instructions);
                assert(b10.cur().instructions@[const_value.0 as int].block == b9.cur().instructions@[const_value.0 as int].block);
                assert(c.instructions@[const_value.0 as int] == c10.instructions@[const_value.0 as int]);
                // The block of the right operand.
                let r = right_entry_block.0 as int;
                assert(shape(b6.cur())[r] == block_shape(b6.cur().blocks@[r]));
                assert(shape(b5.cur())[r] == block_shape(b5.cur().blocks@[r]));
                assert forall|x: BasicBlockId| #[trigger] c.blocks@[r].predecessors@.contains(x) <==> x == left_block by {
                    let ts = if is_and { seq![right_entry_block, merge_block] } else { seq![merge_block, right_entry_block] };
                    assert(crate::hir::builders::control_flow::is_target(ts, r));
                    assert(b3.cur().blocks@[r].predecessors@.len() == 0);
                    assert(b6.cur().blocks@[r].predecessors@ == b4.cur().blocks@[r].predecessors@);
                    assert(c7.blocks@[r].predecessors@ == b6.cur().blocks@[r].predecessors@);
                    assert(b8.cur().blocks@[r].predecessors == c7.blocks@[r].predecessors) by {
                        assert(!crate::hir::builders::control_flow::is_target(seq![merge_block], r));
                    }
                    assert(shape(c10)[r] == block_shape(c10.blocks@[r]));
                    assert(shape(b9.cur())[r] == block_shape(b9.cur().blocks@[r]));
                    assert(c.blocks@[r] == c10.blocks@[r]);
                }
                assert(b6.cur().blocks@[r].sealed);
                assert(c7.blocks@[r].sealed);
                assert(shape(c10)[r] == block_shape(c10.blocks@[r]));
                assert(shape(b9.cur())[r] == block_shape(b9.cur().blocks@[r]));
                assert(c.blocks@[r] == c10.blocks@[r]);
            }
            let (ac, fc) = (a.cur(), f.cur());
            let lb = left_block.0 as int;
            let re = right_entry_block.0 as int;
            let m = merge_block.0 as int;
            // The result.
            assert(src@.len() == 2);
            assert(fc.instructions@[id.0 as int].kind == InstructionKind::Phi(PhiInstr { sources: src }));
            assert(b3.cur().instructions@[const_value.0 as int].kind == InstructionKind::MakeLiteral(
                MakeLiteralKind::Bool(!is_and),
            ));
            assert(b4.cur().instructions == b3.cur().instructions);
            assert(b6.cur().instructions@[const_value.0 as int].kind == b5.cur().instructions@[const_value.0 as int].kind);
            assert(b7.cur().instructions@[const_value.0 as int].kind == b6.cur().instructions@[const_value.0 as int].kind);
            assert(b8.cur().instructions == b7.cur().instructions);
            assert(b10.cur().instructions@[const_value.0 as int].kind == b9.cur().instructions@[const_value.0 as int].kind);
            assert(fc.instructions@[const_value.0 as int] == b10.cur().instructions@[const_value.0 as int]);
            // The blocks that existed before.
            assert forall|x: int| 0 <= x < ac.blocks.len() implies {
                &&& (#[trigger] fc.blocks@[x]).sealed == ac.blocks@[x].sealed
                &&& fc.blocks@[x].predecessors@ == ac.blocks@[x].predecessors@
                &&& (x != lb ==> fc.blocks@[x].terminator == ac.blocks@[x].terminator)
                &&& (x != lb && ac.only_phis_in(x) ==> fc.only_phis_in(x))
            } by {
                assert(b2.cur().blocks@[x] == ac.blocks@[x]);
                assert(x != re && x != m);
                if x != lb {
                    assert(b3.cur().blocks@[x] == b2.cur().blocks@[x]);
                }
                assert(b3.cur().blocks@[x].sealed == b2.cur().blocks@[x].sealed);
                assert(b3.cur().blocks@[x].predecessors == b2.cur().blocks@[x].predecessors);
                assert(shape(b6.cur())[x] == block_shape(b6.cur().blocks@[x]));
                assert(shape(b5.cur())[x] == block_shape(b5.cur().blocks@[x]));
                assert(shape(b10.cur())[x] == block_shape(b10.cur().blocks@[x]));
                assert(shape(b9.cur())[x] == block_shape(b9.cur().blocks@[x]));
                assert(x != right_end_block.0);
                assert(b4.cur().blocks@[x].sealed == ac.blocks@[x].sealed);
                assert(b4.cur().blocks@[x].predecessors == ac.blocks@[x].predecessors) by {
                    let ts = if is_and { seq![right_entry_block, merge_block] } else { seq![merge_block, right_entry_block] };
                    assert(!crate::hir::builders::control_flow::is_target(ts, x));
                }
                assert(b6.cur().blocks@[x].sealed == ac.blocks@[x].sealed);
                assert(b6.cur().blocks@[x].predecessors@ == ac.blocks@[x].predecessors@);
                assert(b7.cur().blocks@[x].sealed == ac.blocks@[x].sealed);
                assert(b7.cur().blocks@[x].predecessors@ == ac.blocks@[x].predecessors@);
                assert(b8.cur().blocks@[x].predecessors == b7.cur().blocks@[x].predecessors) by {
                    assert(!crate::hir::builders::control_flow::is_target(seq![merge_block], x));
                }
                assert(b10.cur().blocks@[x].sealed == ac.blocks@[x].sealed);
                assert(b10.cur().blocks@[x].predecessors@ == ac.blocks@[x].predecessors@);
                assert(fc.blocks@[x] == b10.cur().blocks@[x]);
                if x != lb {
                    assert(b4.cur().blocks@[x].terminator == ac.blocks@[x].terminator);
                    assert(b7.cur().blocks@[x].terminator == ac.blocks@[x].terminator);
                    assert(b10.cur().blocks@[x].terminator == ac.blocks@[x].terminator);
                    if ac.only_phis_in(x) {
                        lemma_only_phis_kept(ac, b3.cur(), x);
                        lemma_only_phis_kept(b3.cur(), b4.cur(), x);
                        assert(b6.cur().only_phis_in(x));
                        assert(b7.cur().only_phis_in(x));
                        lemma_only_phis_kept(b7.cur(), b8.cur(), x);
                        assert(b10.cur().only_phis_in(x));
                        lemma_only_phis_kept(b10.cur(), fc, x);
                    }
                }
            }
            // Instructions stay in their blocks.
            assert forall|i: int| 0 <= i < ac.instructions.len() implies (#[trigger] fc.instructions@[i]).block
                == ac.instructions@[i].block by {
                assert(b2.cur().instructions == ac.instructions);
                assert(b3.cur().instructions@[i] == b2.cur().instructions@[i]);
                assert(b4.cur().instructions == b3.cur().instructions);
                assert(b6.cur().instructions@[i].block == b5.cur().instructions@[i].block);
                assert(b7.cur().instructions@[i].block == b6.cur().instructions@[i].block);
                assert(b8.cur().instructions == b7.cur().instructions);
                assert(b10.cur().instructions@[i].block == b9.cur().instructions@[i].block);
                assert(fc.instructions@[i] == b10.cur().instructions@[i]);
            }
            // Instructions that are not phis keep their kind.
            assert forall|i: int| 0 <= i < ac.instructions.len() && !is_phi_kind(ac.instructions@[i].kind) implies (
            #[trigger] fc.instructions@[i]).kind == ac.instructions@[i].kind by {
                assert(b2.cur().instructions == ac.instructions);
                assert(b3.cur().instructions@[i] == b2.cur().instructions@[i]);
                assert(b6.cur().instructions@[i].kind == b5.cur().instructions@[i].kind);
                assert(b7.cur().instructions@[i].kind == b6.cur().instructions@[i].kind);
                assert(b10.cur().instructions@[i].kind == b9.cur().instructions@[i].kind);
                assert(fc.instructions@[i] == b10.cur().instructions@[i]);
            }
            // Instructions of sealed blocks stay as they are.
            assert forall|i: int|
                0 <= i < ac.instructions.len() && ac.blocks@[ac.instructions@[i].block.0 as int].sealed
                    implies #[trigger] fc.instructions@[i] == ac.instructions@[i] by {
                let bk = ac.instructions@[i].block.0 as int;
                assert(b2.cur().instructions == ac.instructions);
                assert(b2.cur().blocks@[bk] == ac.blocks@[bk]);
                assert(b3.cur().instructions@[i] == b2.cur().instructions@[i]);
                assert(b3.cur().blocks@[bk].sealed);
                assert(b4.cur().instructions == b3.cur().instructions);
                assert(b4.cur().blocks@[bk].sealed);
                assert(b6.cur().instructions@[i] == b5.cur().instructions@[i]);
                assert(shape(b6.cur())[bk] == block_shape(b6.cur().blocks@[bk]));
                assert(shape(b5.cur())[bk] == block_shape(b5.cur().blocks@[bk]));
                assert(b6.cur().blocks@[bk].sealed);
                assert(b7.cur().instructions@[i] == b6.cur().instructions@[i]);
                assert(b7.cur().blocks@[bk].sealed);
                assert(b8.cur().instructions == b7.cur().instructions);
                assert(b8.cur().blocks@[bk].sealed);
                assert(b10.cur().instructions@[i] == b9.cur().instructions@[i]);
                assert(fc.instructions@[i] == b10.cur().instructions@[i]);
            }
            // Declarations and errors.
            assert forall|d: DeclarationId| #[trigger] a.program.has_decl(d) implies f.program.has_decl(d) by {
                assert(b6.program.has_decl(d));
            }
            assert(f.errors@.subrange(0, a.errors@.len() as int) =~= a.errors@) by {
                assert(b6.errors == a.errors);
                assert(f.errors == b7.errors);
            }
            // Graphs of other functions.
            assert forall|i: int|
                0 <= i < a.program.cfgs.len() && i != a.pos() && !info.fns.contains((#[trigger] a.program.cfgs@[i]).id)
                    implies f.program.cfgs@[i] == a.program.cfgs@[i] by {
                assert(b6.program.cfgs@[i] == a.program.cfgs@[i]);
                assert(b7.program.cfgs@[i] == b6.program.cfgs@[i]);
            }
            assert(f.cost() <= a.cost() + 5 * info.size);
            assert(Self::progressed(a, f, info));
        }
        id
    }

    /// Builds `left && right` where `left` is already built: `right` is only
    /// evaluated when `left` holds; otherwise the result is `false`.
    pub fn emit_logical_and(&mut self, left: InstrId, span: Span, right: Expr) -> (id: InstrId)
        requires
            old(self).ready(node(expr_info(right))),
            old(self).cur().has_instr(left),
        ensures
            Self::built(*old(self), *final(self), node(expr_info(right)), id),
            final(self).context.block_id.0 == old(self).cur().blocks.len() + 1,
            final(self).cur().blocks@[old(self).context.block_id.0 as int].terminator == Some(
                Terminator::CondJump {
                    condition: left,
                    true_target: BasicBlockId(old(self).cur().blocks.len()),
                    false_target: BasicBlockId((old(self).cur().blocks.len() + 1) as usize),
                },
            ),
            final(self).cur().instructions@[id.0 as int].kind matches InstructionKind::Phi(p) && p.sources@.len() == 2
                && p.sources@[0].block == old(self).context.block_id && final(self).cur().instructions@[p.sources@[0].value.0 as int].kind
                == InstructionKind::MakeLiteral(MakeLiteralKind::Bool(false)) && final(self).cur().has_instr(
                p.sources@[1].value,
            ),
            Self::logical_merged(*old(self), *final(self), right, id),
        decreases expr_info(right).size + 1, 2nat,
    {
        self.emit_logical(left, span, right, true)
    }

    /// Builds `left || right` where `left` is already built: `right` is only
    /// evaluated when `left` does not hold; otherwise the result is `true`.
    pub fn emit_logical_or(&mut self, left: InstrId, span: Span, right: Expr) -> (id: InstrId)
        requires
            old(self).ready(node(expr_info(right))),
            old(self).cur().has_instr(left),
        ensures
            Self::built(*old(self), *final(self), node(expr_info(right)), id),
            final(self).context.block_id.0 == old(self).cur().blocks.len() + 1,
            final(self).cur().blocks@[old(self).context.block_id.0 as int].terminator == Some(
                Terminator::CondJump {
                    condition: left,
                    true_target: BasicBlockId((old(self).cur().blocks.len() + 1) as usize),
                    false_target: BasicBlockId(old(self).cur().blocks.len()),
                },
            ),
            final(self).cur().instructions@[id.0 as int].kind matches InstructionKind::Phi(p) && p.sources@.len() == 2
                && p.sources@[0].block == old(self).context.block_id && final(self).cur().instructions@[p.sources@[0].value.0 as int].kind
                == InstructionKind::MakeLiteral(MakeLiteralKind::Bool(true)) && final(self).cur().has_instr(
                p.sources@[1].value,
            ),
            Self::logical_merged(*old(self), *final(self), right, id),
        decreases expr_info(right).size + 1, 2nat,
    {
        self.emit_logical(left, span, right, false)
    }

    /// Builds `left && right`.
    pub fn build_and_expr(&mut self, left: Expr, right: Expr) -> (id: InstrId)
        requires
            old(self).ready(node(join(expr_info(left), expr_info(right)))),
        ensures
            Self::built(*old(self), *final(self), node(join(expr_info(left), expr_info(right))), id),
            final(self).cur().instructions@[id.0 as int].kind matches InstructionKind::Phi(p) && p.sources@.len() == 2
                && final(self).cur().instructions@[p.sources@[0].value.0 as int].kind == InstructionKind::MakeLiteral(
                MakeLiteralKind::Bool(false),
            ) && value_shape(final(self).cur(), right, p.sources@[1].value) && (final(self).cur().blocks@[
                p.sources@[0].block.0 as int].terminator matches Some(Terminator::CondJump { condition, .. })
                && value_shape(final(self).cur(), left, condition)),
            in_sealed_block(final(self).cur(), id),
        decreases expr_info(left).size + expr_info(right).size + 1, 3nat,
    {
        let ghost a = *self;
        let ghost il = expr_info(left);
        let ghost ir = expr_info(right);
        let left_span = left.span.clone();
        let left_id = self.build_expr(left);
        proof {
            Self::lemma_ready_after(a, *self, node(join(il, ir)), il, node(ir));
        }
        let ghost b = *self;
        let id = self.emit_logical_and(left_id, left_span, right);
        proof {
            Self::lemma_built_trans(a, b, *self, il, node(ir), node(join(il, ir)), left_id, id);
            Self::lemma_progress_values_kept(b, *self, node(ir), -1);
            lemma_value_shape_kept(b.cur(), self.cur(), left, left_id);
        }
        id
    }

    /// Builds `left || right`.
    pub fn build_or_expr(&mut self, left: Expr, right: Expr) -> (id: InstrId)
        requires
            old(self).ready(node(join(expr_info(left), expr_info(right)))),
        ensures
            Self::built(*old(self), *final(self), node(join(expr_info(left), expr_info(right))), id),
            final(self).cur().instructions@[id.0 as int].kind matches InstructionKind::Phi(p) && p.sources@.len() == 2
                && final(self).cur().instructions@[p.sources@[0].value.0 as int].kind == InstructionKind::MakeLiteral(
                MakeLiteralKind::Bool(true),
            ) && value_shape(final(self).cur(), right, p.sources@[1].value) && (final(self).cur().blocks@[
                p.sources@[0].block.0 as int].terminator matches Some(Terminator::CondJump { condition, .. })
                && value_shape(final(self).cur(), left, condition)),
            in_sealed_block(final(self).cur(), id),
        decreases expr_info(left).size + expr_info(right).size + 1, 3nat,
    {
        let ghost a = *self;
        let ghost il = expr_info(left);
        let ghost ir = expr_info(right);
        let left_span = left.span.clone();
        let left_id = self.build_expr(left);
        proof {
            Self::lemma_ready_after(a, *self, node(join(il, ir)), il, node(ir));
        }
        let ghost b = *self;
        let id = self.emit_logical_or(left_id, left_span, right);
        proof {
            Self::lemma_built_trans(a, b, *self, il, node(ir), node(join(il, ir)), left_id, id);
            Self::lemma_progress_values_kept(b, *self, node(ir), -1);
            lemma_value_shape_kept(b.cur(), self.cur(), left, left_id);
        }
        id
    }
}

} // verus!
