use vstd::prelude::*;

use crate::ast::Span;
use crate::hir::builders::ssa::{
    acyclic, block_shape, sealed_shape, cfg_grows, chains_acyclic, forward_rank, forwards, instrs_kept_but, lemma_shape_eq,
    mem_missing, pred_rank, shape,
};
use crate::hir::builders::{Builder, InBlock};
use crate::hir::instructions::{
    BasicBlockId, CallInstr, FunctionCFG, InstrDefinition, InstrId, InstructionKind, Terminator, is_phi_kind,
    strictly_ascending,
};

verus! {

/// Every block that precedes another already ends in a terminator: control
/// leaves a block only through its terminator.
pub open spec fn preds_terminated(cfg: FunctionCFG) -> bool {
    forall|b: int, k: int|
        0 <= b < cfg.blocks.len() && 0 <= k < cfg.blocks@[b].predecessors.len() ==> cfg.blocks@[(
        #[trigger] cfg.blocks@[b].predecessors@[k]).0 as int].terminator is Some
}

/// The shape after block `c` jumps to block `t`, as far as forwarding goes: a
/// sealed block without predecessors starts forwarding to `c`; any other
/// change only removes forwarding.
pub open spec fn jump_shape(sh: Seq<(bool, Seq<BasicBlockId>)>, t: int, c: BasicBlockId) -> Seq<
    (bool, Seq<BasicBlockId>),
> {
    if sh[t].0 && sh[t].1.len() == 0 {
        sh.update(t, (true, seq![c]))
    } else {
        sh
    }
}

/// Block `b` is one of `targets`.
pub open spec fn is_target(targets: Seq<BasicBlockId>, b: int) -> bool {
    exists|j: int| 0 <= j < targets.len() && (#[trigger] targets[j]).0 == b
}

/// `new` is `old` once block `c` has been given the terminator `term`, which
/// leads to `targets`: `c` is added to the predecessors of each of them, and
/// nothing else changes.
pub open spec fn jumped(old: FunctionCFG, new: FunctionCFG, c: int, targets: Seq<BasicBlockId>, term: Terminator) -> bool {
    &&& 0 <= c < old.blocks.len()
    &&& forall|j: int| 0 <= j < targets.len() ==> (#[trigger] targets[j]).0 < old.blocks.len()
    &&& new.blocks.len() == old.blocks.len()
    &&& new.instructions == old.instructions
    &&& new.entry_block == old.entry_block
    &&& new.next_block_id == old.next_block_id
    &&& new.next_memory_id == old.next_memory_id
    &&& forall|b: int| 0 <= b < old.blocks.len() ==> {
        &&& (#[trigger] new.blocks@[b]).id == old.blocks@[b].id
        &&& new.blocks@[b].memory_phis == old.blocks@[b].memory_phis
        &&& new.blocks@[b].instructions == old.blocks@[b].instructions
        &&& new.blocks@[b].sealed == old.blocks@[b].sealed
        &&& new.blocks@[b].terminator == if b == c {
            Some(term)
        } else {
            old.blocks@[b].terminator
        }
        &&& !is_target(targets, b) ==> new.blocks@[b].predecessors == old.blocks@[b].predecessors
        &&& is_target(targets, b) ==> strictly_ascending(new.blocks@[b].predecessors@)
        &&& is_target(targets, b) ==> forall|x: BasicBlockId| #[trigger] new.blocks@[b].predecessors@.contains(x) <==> (
            old.blocks@[b].predecessors@.contains(x) || x.0 == c)
    }
}

/// A jump keeps a graph well-formed.
pub proof fn lemma_jump_wf(old: FunctionCFG, new: FunctionCFG, c: int, targets: Seq<BasicBlockId>, term: Terminator)
    requires
        old.wf(),
        jumped(old, new, c, targets, term),
    ensures
        new.wf(),
{
    assert forall|b: int, k: int| 0 <= b < new.blocks.len() && 0 <= k < new.blocks@[b].instructions.len()
        implies #[trigger] new.kind_at(b, k) == old.kind_at(b, k) by {
        assert(new.blocks@[b].instructions == old.blocks@[b].instructions);
    }
    assert(new.phis_first()) by {
        assert forall|b: int, k1: int, k2: int|
            0 <= b < new.blocks.len() && 0 <= k1 < k2 < new.blocks@[b].instructions.len() && is_phi_kind(
                #[trigger] new.kind_at(b, k2),
            ) implies is_phi_kind(#[trigger] new.kind_at(b, k1)) by {
            assert(new.kind_at(b, k1) == old.kind_at(b, k1));
            assert(new.kind_at(b, k2) == old.kind_at(b, k2));
            assert(new.blocks@[b].instructions == old.blocks@[b].instructions);
        }
    }
    assert forall|b: int, k: int|
        0 <= b < new.blocks.len() && 0 <= k < new.blocks@[b].instructions.len() implies {
            let id = #[trigger] new.blocks@[b].instructions@[k];
            &&& id.0 < new.instructions.len()
            &&& new.instructions@[id.0 as int].block.0 == b
        } by {
        assert(new.blocks@[b].instructions == old.blocks@[b].instructions);
        assert(new.blocks@[b].instructions@[k] == old.blocks@[b].instructions@[k]);
    }
    assert forall|b: int| 0 <= b < new.blocks.len() implies strictly_ascending(
        #[trigger] new.blocks@[b].predecessors@,
    ) by {
        if !is_target(targets, b) {
            assert(new.blocks@[b].predecessors == old.blocks@[b].predecessors);
        }
    }
    assert forall|b: int, p: int| 0 <= b < new.blocks.len() && 0 <= p < new.blocks@[b].predecessors.len()
        implies (#[trigger] new.blocks@[b].predecessors@[p]).0 < new.blocks.len() by {
        if !is_target(targets, b) {
            assert(new.blocks@[b].predecessors == old.blocks@[b].predecessors);
        } else {
            let x = new.blocks@[b].predecessors@[p];
            assert(new.blocks@[b].predecessors@.contains(x));
            if x.0 != c {
                assert(old.blocks@[b].predecessors@.contains(x));
                let k = choose|k: int| 0 <= k < old.blocks@[b].predecessors@.len() && old.blocks@[b].predecessors@[k] == x;
                assert(old.blocks@[b].predecessors@[k].0 < old.blocks.len());
            }
        }
    }
}

/// A jump keeps forwarding chains finite, as `jump_shape` promises for each
/// target.
pub proof fn lemma_jump_chains(
    old: FunctionCFG,
    new: FunctionCFG,
    c: BasicBlockId,
    t1: BasicBlockId,
    t2: BasicBlockId,
    term: Terminator,
)
    requires
        old.wf(),
        jumped(old, new, c.0 as int, seq![t1, t2], term),
        chains_acyclic(jump_shape(jump_shape(shape(old), t1.0 as int, c), t2.0 as int, c)),
    ensures
        chains_acyclic(shape(new)),
{
    let so = shape(old);
    let s1 = jump_shape(so, t1.0 as int, c);
    let sj = jump_shape(s1, t2.0 as int, c);
    let r = choose|r: spec_fn(int) -> nat| forward_rank(sj, r);
    let sn = shape(new);
    let targets = seq![t1, t2];
    assert forall|b: int| #[trigger] forwards(sn, b) implies r(sn[b].1[0].0 as int) < r(b) by {
        assert(sn[b] == block_shape(new.blocks@[b]));
        assert(so[b] == block_shape(old.blocks@[b]));
        let np = new.blocks@[b].predecessors@;
        let op = old.blocks@[b].predecessors@;
        if !is_target(targets, b) {
            assert(b != t1.0 && b != t2.0) by {
                if b == t1.0 {
                    assert(targets[0].0 == b);
                }
                if b == t2.0 {
                    assert(targets[1].0 == b);
                }
            }
            assert(np == op);
            assert(sj[b] == so[b]);
            assert(forwards(sj, b));
        } else {
            assert(np.contains(np[0]));
            assert(np[0] == c) by {
                assert(np.contains(c));
                let k = choose|k: int| 0 <= k < np.len() && np[k] == c;
                assert(k == 0);
            }
            if op.len() == 0 {
                assert(sj[b] == (true, seq![c]));
            } else {
                assert(op.contains(op[0]));
                assert(np.contains(op[0]));
                assert(op[0] == c);
                if op.len() > 1 {
                    assert(op.contains(op[1]));
                    assert(np.contains(op[1]));
                    assert(op[1] == np[0]);
                    assert(op[0].0 < op[1].0);
                }
                assert(op.len() == 1);
                assert(s1[b] == so[b]);
                assert(sj[b] == so[b]);
            }
            assert(forwards(sj, b));
        }
    }
    assert(forward_rank(sn, r));
}

/// A jump from an unterminated block to blocks that have not been left yet,
/// none of them the block itself, keeps the graph free of cycles and its
/// predecessors terminated.
pub proof fn lemma_jump_acyclic(old: FunctionCFG, new: FunctionCFG, c: int, targets: Seq<BasicBlockId>, term: Terminator)
    requires
        old.wf(),
        jumped(old, new, c, targets, term),
        acyclic(old),
        preds_terminated(old),
        old.blocks@[c].terminator is None,
        forall|j: int| 0 <= j < targets.len() ==> old.blocks@[(#[trigger] targets[j]).0 as int].terminator is None,
        !is_target(targets, c),
    ensures
        acyclic(new),
        preds_terminated(new),
{
    let r = choose|r: spec_fn(int) -> nat| pred_rank(old, r);
    let r2 = |x: int| if is_target(targets, x) { r(c) + r(x) + 1 } else { r(x) };
    assert forall|b: int, k: int| 0 <= b < new.blocks.len() && 0 <= k < new.blocks@[b].predecessors.len() implies {
        &&& r2((#[trigger] new.blocks@[b].predecessors@[k]).0 as int) < r2(b)
        &&& new.blocks@[new.blocks@[b].predecessors@[k].0 as int].terminator is Some
    } by {
        let p = new.blocks@[b].predecessors@[k];
        let old_pred = !is_target(targets, b) || p.0 != c;
        if !is_target(targets, b) {
            assert(new.blocks@[b].predecessors == old.blocks@[b].predecessors);
            assert(old.blocks@[b].predecessors@[k] == p);
        } else {
            assert(new.blocks@[b].predecessors@.contains(p));
        }
        if old_pred {
            assert(old.blocks@[b].predecessors@.contains(p));
            let j = choose|j: int| 0 <= j < old.blocks@[b].predecessors@.len() && old.blocks@[b].predecessors@[j] == p;
            assert(r(p.0 as int) < r(b));
            assert(old.blocks@[p.0 as int].terminator is Some);
            assert(!is_target(targets, p.0 as int)) by {
                if is_target(targets, p.0 as int) {
                    let i = choose|i: int| 0 <= i < targets.len() && (#[trigger] targets[i]).0 == p.0 as int;
                    assert(old.blocks@[targets[i].0 as int].terminator is None);
                }
            }
            assert(p.0 != c);
        }
    }
    assert(pred_rank(new, r2));
}

/// A change that keeps every block's predecessors and terminator keeps the
/// graph free of cycles and its predecessors terminated.
pub proof fn lemma_same_edges(old: FunctionCFG, new: FunctionCFG)
    requires
        old.wf(),
        new.blocks.len() == old.blocks.len(),
        forall|b: int| 0 <= b < old.blocks.len() ==> (#[trigger] new.blocks@[b]).predecessors@ == old.blocks@[b].predecessors@
            && new.blocks@[b].terminator == old.blocks@[b].terminator,
    ensures
        acyclic(old) ==> acyclic(new),
        preds_terminated(old) ==> preds_terminated(new),
{
    if acyclic(old) {
        let r = choose|r: spec_fn(int) -> nat| pred_rank(old, r);
        assert forall|b: int, k: int| 0 <= b < new.blocks.len() && 0 <= k < new.blocks@[b].predecessors.len() implies r(
            (#[trigger] new.blocks@[b].predecessors@[k]).0 as int,
        ) < r(b) by {
            assert(new.blocks@[b].predecessors@ == old.blocks@[b].predecessors@);
        }
        assert(pred_rank(new, r));
    }
    if preds_terminated(old) {
        assert forall|b: int, k: int| 0 <= b < new.blocks.len() && 0 <= k < new.blocks@[b].predecessors.len()
            implies new.blocks@[(#[trigger] new.blocks@[b].predecessors@[k]).0 as int].terminator is Some by {
            assert(new.blocks@[b].predecessors@ == old.blocks@[b].predecessors@);
            let p = old.blocks@[b].predecessors@[k];
            assert(old.blocks@[p.0 as int].terminator is Some);
        }
    }
}

impl Builder<InBlock> {
    /// Well-formedness of a builder that builds code: the graph being built
    /// has no cycle, and control leaves a block only through its terminator.
    pub open spec fn build_wf(self) -> bool {
        &&& self.ssa_wf()
        &&& acyclic(self.cur())
        &&& preds_terminated(self.cur())
    }

    /// The current block has no terminator yet.
    pub open spec fn open_block(self) -> bool {
        self.cur().blocks@[self.context.block_id.0 as int].terminator is None
    }

    /// `new` is `old` with `instr` appended to the current block as
    /// instruction `id`; nothing else changes.
    pub open spec fn pushed(old: Self, new: Self, instr: InstrDefinition, id: InstrId) -> bool {
        let c = old.context.block_id.0 as int;
        let oc = old.cur();
        let nc = new.cur();
        &&& new.ssa_wf()
        &&& new.same_frame(old)
        &&& new.current_def == old.current_def
        &&& new.incomplete_phis == old.incomplete_phis
        &&& new.current_memory_def == old.current_memory_def
        &&& new.incomplete_memory_phis == old.incomplete_memory_phis
        &&& id.0 == oc.instructions.len()
        &&& nc.instructions@ == oc.instructions@.push(instr)
        &&& nc.blocks.len() == oc.blocks.len()
        &&& forall|b: int| 0 <= b < oc.blocks.len() && b != c ==> #[trigger] nc.blocks@[b] == oc.blocks@[b]
        &&& nc.blocks@[c].instructions@ == oc.blocks@[c].instructions@.push(id)
        &&& nc.blocks@[c].id == oc.blocks@[c].id
        &&& nc.blocks@[c].memory_phis == oc.blocks@[c].memory_phis
        &&& nc.blocks@[c].terminator == oc.blocks@[c].terminator
        &&& nc.blocks@[c].predecessors == oc.blocks@[c].predecessors
        &&& nc.blocks@[c].sealed == oc.blocks@[c].sealed
        &&& nc.entry_block == oc.entry_block
        &&& nc.next_block_id == oc.next_block_id
        &&& nc.next_memory_id == oc.next_memory_id
        &&& (old.build_wf() ==> new.build_wf())
    }

    /// Appends an instruction of kind `kind` to the current block.
    pub fn push_instruction(&mut self, kind: InstructionKind, span: Span) -> (id: InstrId)
        requires
            old(self).ssa_wf(),
            old(self).open_block(),
            is_phi_kind(kind) ==> old(self).cur().only_phis_in(old(self).context.block_id.0 as int),
        ensures
            Self::pushed(
                *old(self),
                *final(self),
                InstrDefinition { kind: kind, block: old(self).context.block_id, span: span },
                id,
            ),
    {
        let ghost entry = *self;
        let block = self.context.block_id;
        let def = InstrDefinition { kind, block, span };
        let id = self.cfg_mut().push_instruction(def);
        proof {
            Self::lemma_frame(entry, *self);
            let (oc, nc) = (entry.cur(), self.cur());
            let c = block.0 as int;
            assert forall|i: int| 0 <= i < oc.blocks.len() implies (#[trigger] nc.blocks@[i]).sealed == oc.blocks@[i].sealed
                && nc.blocks@[i].predecessors@ == oc.blocks@[i].predecessors@ by {
                if i != c {
                    assert(nc.blocks@[i] == oc.blocks@[i]);
                }
            }
            lemma_shape_eq(nc, oc);
            assert forall|k: (crate::hir::instructions::BasicBlockId, crate::ast::DeclarationId)| #[trigger] self.incomplete_phis@.contains_key(k) implies {
                &&& self.incomplete_phis@[k].0 < nc.instructions.len()
                &&& is_phi_kind(nc.instructions@[self.incomplete_phis@[k].0 as int].kind)
                &&& self.current_def@.contains_key(k)
            } by {
                assert(nc.instructions@[self.incomplete_phis@[k].0 as int] == oc.instructions@[self.incomplete_phis@[k].0 as int]);
            }
            assert forall|b: int| 0 <= b < oc.blocks.len() implies (#[trigger] nc.blocks@[b]).predecessors@ == oc.blocks@[b].predecessors@
                && nc.blocks@[b].terminator == oc.blocks@[b].terminator by {
                if b != c {
                    assert(nc.blocks@[b] == oc.blocks@[b]);
                }
            }
            lemma_same_edges(oc, nc);
        }
        id
    }

    /// Instructions and a terminator may only be added to a block that has
    /// no terminator yet.
    pub fn check_no_terminator(&self)
        requires
            self.ssa_wf(),
            self.open_block(),
    {
        let block = self.context.block_id;
        self.cfg().check_no_terminator(block);
    }

    /// `new` is `old` once the current block has been given the terminator
    /// `term`, leading to `targets`; the tables do not change.
    pub open spec fn jumped_to(old: Self, new: Self, targets: Seq<BasicBlockId>, term: Terminator) -> bool {
        let c = old.context.block_id.0 as int;
        &&& new.ssa_wf()
        &&& new.same_frame(old)
        &&& new.current_def == old.current_def
        &&& new.incomplete_phis == old.incomplete_phis
        &&& new.current_memory_def == old.current_memory_def
        &&& new.incomplete_memory_phis == old.incomplete_memory_phis
        &&& jumped(old.cur(), new.cur(), c, targets, term)
        &&& (old.build_wf() && !is_target(targets, c) && (forall|j: int|
            0 <= j < targets.len() ==> old.cur().blocks@[(#[trigger] targets[j]).0 as int].terminator is None)
            ==> new.build_wf())
    }

    /// Ends the current block with a jump to `target`.
    pub fn emit_jmp(&mut self, target: BasicBlockId)
        requires
            old(self).ssa_wf(),
            old(self).open_block(),
            old(self).cur().has_block(target),
            chains_acyclic(jump_shape(shape(old(self).cur()), target.0 as int, old(self).context.block_id)),
        ensures
            Self::jumped_to(*old(self), *final(self), seq![target], Terminator::Jump { target }),
    {
        self.check_no_terminator();
        let ghost entry = *self;
        let this_block_id = self.context.block_id;
        self.get_bb_mut(target).add_predecessor(this_block_id);
        let ghost mid = *self;
        proof {
            Self::lemma_frame(entry, mid);
        }
        self.get_bb_mut(this_block_id).terminator = Some(Terminator::Jump { target });
        proof {
            Self::lemma_frame(mid, *self);
            let (oc, nc) = (entry.cur(), self.cur());
            let c = this_block_id.0 as int;
            let t = target.0 as int;
            let term = Terminator::Jump { target };
            let ts = seq![target];
            let ts2 = seq![target, target];
            assert forall|b: int| is_target(ts, b) == is_target(ts2, b) by {
                if is_target(ts2, b) {
                    assert(ts[0].0 == b);
                }
                if is_target(ts, b) {
                    assert(ts2[0].0 == b);
                }
            }
            assert forall|b: int| 0 <= b < oc.blocks.len() implies {
                &&& (#[trigger] nc.blocks@[b]).id == oc.blocks@[b].id
                &&& nc.blocks@[b].memory_phis == oc.blocks@[b].memory_phis
                &&& nc.blocks@[b].instructions == oc.blocks@[b].instructions
                &&& nc.blocks@[b].sealed == oc.blocks@[b].sealed
                &&& nc.blocks@[b].terminator == if b == c {
                    Some(term)
                } else {
                    oc.blocks@[b].terminator
                }
                &&& !is_target(ts, b) ==> nc.blocks@[b].predecessors == oc.blocks@[b].predecessors
                &&& is_target(ts, b) ==> strictly_ascending(nc.blocks@[b].predecessors@)
                &&& is_target(ts, b) ==> forall|x: BasicBlockId| #[trigger] nc.blocks@[b].predecessors@.contains(x) <==> (
                    oc.blocks@[b].predecessors@.contains(x) || x.0 == c)
            } by {
                if is_target(ts, b) {
                    assert(b == t);
                } else {
                    assert(b != t) by {
                        if b == t {
                            assert(ts[0].0 == b);
                        }
                    }
                }
            }
            assert(jumped(oc, nc, c, ts, term));
            assert(jumped(oc, nc, c, ts2, term));
            lemma_jump_wf(oc, nc, c, ts, term);
            assert(jump_shape(jump_shape(shape(oc), t, this_block_id), t, this_block_id) == jump_shape(shape(oc), t, this_block_id));
            lemma_jump_chains(oc, nc, this_block_id, target, target, term);
            if entry.build_wf() && !is_target(ts, c) && (forall|j: int|
                0 <= j < ts.len() ==> oc.blocks@[(#[trigger] ts[j]).0 as int].terminator is None) {
                lemma_jump_acyclic(oc, nc, c, ts, term);
            }
            assert forall|k: (BasicBlockId, crate::ast::DeclarationId)| #[trigger] self.incomplete_phis@.contains_key(k) implies {
                &&& self.incomplete_phis@[k].0 < nc.instructions.len()
                &&& is_phi_kind(nc.instructions@[self.incomplete_phis@[k].0 as int].kind)
                &&& self.current_def@.contains_key(k)
            } by {}
        }
    }

    /// Ends the current block with a jump to `true_target` when `condition`
    /// holds and to `false_target` otherwise.
    pub fn emit_cond_jmp(&mut self, condition: InstrId, true_target: BasicBlockId, false_target: BasicBlockId)
        requires
            old(self).ssa_wf(),
            old(self).open_block(),
            old(self).cur().has_block(true_target),
            old(self).cur().has_block(false_target),
            chains_acyclic(
                jump_shape(
                    jump_shape(shape(old(self).cur()), true_target.0 as int, old(self).context.block_id),
                    false_target.0 as int,
                    old(self).context.block_id,
                ),
            ),
        ensures
            Self::jumped_to(
                *old(self),
                *final(self),
                seq![true_target, false_target],
                Terminator::CondJump { condition, true_target, false_target },
            ),
    {
        self.check_no_terminator();
        let ghost entry = *self;
        let this_block_id = self.context.block_id;
        self.get_bb_mut(true_target).add_predecessor(this_block_id);
        let ghost mid1 = *self;
        proof {
            Self::lemma_frame(entry, mid1);
        }
        self.get_bb_mut(false_target).add_predecessor(this_block_id);
        let ghost mid2 = *self;
        proof {
            Self::lemma_frame(mid1, mid2);
        }
        self.get_bb_mut(this_block_id).terminator = Some(Terminator::CondJump { condition, true_target, false_target });
        proof {
            Self::lemma_frame(mid2, *self);
            let (oc, m1, m2, nc) = (entry.cur(), mid1.cur(), mid2.cur(), self.cur());
            let c = this_block_id.0 as int;
            let t1 = true_target.0 as int;
            let t2 = false_target.0 as int;
            let term = Terminator::CondJump { condition, true_target, false_target };
            let ts = seq![true_target, false_target];
            assert forall|b: int| 0 <= b < oc.blocks.len() implies {
                &&& (#[trigger] nc.blocks@[b]).id == oc.blocks@[b].id
                &&& nc.blocks@[b].memory_phis == oc.blocks@[b].memory_phis
                &&& nc.blocks@[b].instructions == oc.blocks@[b].instructions
                &&& nc.blocks@[b].sealed == oc.blocks@[b].sealed
                &&& nc.blocks@[b].terminator == if b == c {
                    Some(term)
                } else {
                    oc.blocks@[b].terminator
                }
                &&& !is_target(ts, b) ==> nc.blocks@[b].predecessors == oc.blocks@[b].predecessors
                &&& is_target(ts, b) ==> strictly_ascending(nc.blocks@[b].predecessors@)
                &&& is_target(ts, b) ==> forall|x: BasicBlockId| #[trigger] nc.blocks@[b].predecessors@.contains(x) <==> (
                    oc.blocks@[b].predecessors@.contains(x) || x.0 == c)
            } by {
                if is_target(ts, b) {
                    assert(b == t1 || b == t2);
                    if b == t1 && b == t2 {
                        assert forall|x: BasicBlockId| #[trigger] nc.blocks@[b].predecessors@.contains(x) <==> (
                            oc.blocks@[b].predecessors@.contains(x) || x.0 == c) by {
                            assert(m2.blocks@[b].predecessors@.contains(x) <==> (m1.blocks@[b].predecessors@.contains(x) || x == this_block_id));
                            assert(m1.blocks@[b].predecessors@.contains(x) <==> (oc.blocks@[b].predecessors@.contains(x) || x == this_block_id));
                        }
                    } else if b == t1 {
                        assert(m2.blocks@[b] == m1.blocks@[b]);
                    } else {
                        assert(m1.blocks@[b] == oc.blocks@[b]);
                    }
                } else {
                    assert(b != t1 && b != t2) by {
                        if b == t1 {
                            assert(ts[0].0 == b);
                        }
                        if b == t2 {
                            assert(ts[1].0 == b);
                        }
                    }
                    assert(m1.blocks@[b] == oc.blocks@[b]);
                    assert(m2.blocks@[b] == m1.blocks@[b]);
                }
            }
            assert(jumped(oc, nc, c, ts, term));
            lemma_jump_wf(oc, nc, c, ts, term);
            lemma_jump_chains(oc, nc, this_block_id, true_target, false_target, term);
            if entry.build_wf() && !is_target(ts, c) && (forall|j: int|
                0 <= j < ts.len() ==> oc.blocks@[(#[trigger] ts[j]).0 as int].terminator is None) {
                lemma_jump_acyclic(oc, nc, c, ts, term);
            }
        }
    }

    /// Ends the current block with `term`, which leads nowhere.
    fn emit_final(&mut self, term: Terminator)
        requires
            old(self).ssa_wf(),
            old(self).open_block(),
        ensures
            Self::jumped_to(*old(self), *final(self), seq![], term),
    {
        self.check_no_terminator();
        let ghost entry = *self;
        let this_block_id = self.context.block_id;
        let ghost t = term;
        self.get_bb_mut(this_block_id).terminator = Some(term);
        proof {
            Self::lemma_frame(entry, *self);
            let (oc, nc) = (entry.cur(), self.cur());
            let c = this_block_id.0 as int;
            let ts: Seq<BasicBlockId> = seq![];
            assert forall|b: int| 0 <= b < oc.blocks.len() implies {
                &&& (#[trigger] nc.blocks@[b]).id == oc.blocks@[b].id
                &&& nc.blocks@[b].memory_phis == oc.blocks@[b].memory_phis
                &&& nc.blocks@[b].instructions == oc.blocks@[b].instructions
                &&& nc.blocks@[b].sealed == oc.blocks@[b].sealed
                &&& nc.blocks@[b].predecessors == oc.blocks@[b].predecessors
                &&& nc.blocks@[b].terminator == if b == c {
                    Some(t)
                } else {
                    oc.blocks@[b].terminator
                }
                &&& !is_target(ts, b)
            } by {
                if b != c {
                    assert(nc.blocks@[b] == oc.blocks@[b]);
                }
            }
            assert(jumped(oc, nc, c, ts, t));
            lemma_jump_wf(oc, nc, c, ts, t);
            assert forall|i: int| 0 <= i < oc.blocks.len() implies (#[trigger] nc.blocks@[i]).sealed == oc.blocks@[i].sealed
                && nc.blocks@[i].predecessors@ == oc.blocks@[i].predecessors@ by {
                assert(nc.blocks@[i].predecessors == oc.blocks@[i].predecessors);
            }
            lemma_shape_eq(nc, oc);
            if entry.build_wf() {
                lemma_jump_acyclic(oc, nc, c, ts, t);
            }
        }
    }

    /// Ends the current block by returning `value` from the function.
    pub fn emit_return(&mut self, value: InstrId)
        requires
            old(self).ssa_wf(),
            old(self).open_block(),
        ensures
            Self::jumped_to(*old(self), *final(self), seq![], Terminator::Return { value }),
    {
        self.emit_final(Terminator::Return { value });
    }

    /// Ends the current block as one that control never reaches the end of.
    pub fn emit_unreachable(&mut self)
        requires
            old(self).ssa_wf(),
            old(self).open_block(),
        ensures
            Self::jumped_to(*old(self), *final(self), seq![], Terminator::Unreachable),
    {
        self.emit_final(Terminator::Unreachable);
    }

    /// Adds a fresh block to the function being built.
    pub fn new_block(&mut self) -> (id: BasicBlockId)
        requires
            old(self).ssa_wf(),
            old(self).cur().next_block_id < usize::MAX,
        ensures
            final(self).ssa_wf(),
            final(self).same_frame(*old(self)),
            final(self).current_def == old(self).current_def,
            final(self).incomplete_phis == old(self).incomplete_phis,
            final(self).current_memory_def == old(self).current_memory_def,
            final(self).incomplete_memory_phis == old(self).incomplete_memory_phis,
            id.0 == old(self).cur().blocks.len(),
            final(self).cur().blocks.len() == old(self).cur().blocks.len() + 1,
            forall|b: int| 0 <= b < old(self).cur().blocks.len() ==> #[trigger] final(self).cur().blocks@[b] == old(self).cur().blocks@[b],
            final(self).cur().blocks@[id.0 as int].id == id,
            final(self).cur().block_is_fresh(id.0 as int),
            final(self).cur().instructions == old(self).cur().instructions,
            final(self).cur().entry_block == old(self).cur().entry_block,
            final(self).cur().next_block_id == old(self).cur().next_block_id + 1,
            final(self).cur().next_memory_id == old(self).cur().next_memory_id,
            mem_missing(final(self).current_memory_def@, final(self).cur().blocks.len() as nat) <= mem_missing(
                old(self).current_memory_def@,
                old(self).cur().blocks.len() as nat,
            ) + 1,
            old(self).build_wf() ==> final(self).build_wf(),
    {
        let ghost entry = *self;
        let id = self.cfg_mut().new_block();
        proof {
            Self::lemma_frame(entry, *self);
            let (oc, nc) = (entry.cur(), self.cur());
            let (so, sn) = (shape(oc), shape(nc));
            let r = choose|r: spec_fn(int) -> nat| forward_rank(so, r);
            assert forall|b: int| #[trigger] forwards(sn, b) implies r(sn[b].1[0].0 as int) < r(b) by {
                assert(sn[b] == block_shape(nc.blocks@[b]));
                if b < oc.blocks.len() {
                    assert(so[b] == block_shape(oc.blocks@[b]));
                    assert(nc.blocks@[b] == oc.blocks@[b]);
                    assert(forwards(so, b));
                }
            }
            assert(forward_rank(sn, r));
            if entry.build_wf() {
                let ra = choose|r: spec_fn(int) -> nat| pred_rank(oc, r);
                assert forall|b: int, k: int| 0 <= b < nc.blocks.len() && 0 <= k < nc.blocks@[b].predecessors.len() implies {
                    &&& ra((#[trigger] nc.blocks@[b].predecessors@[k]).0 as int) < ra(b)
                    &&& nc.blocks@[nc.blocks@[b].predecessors@[k].0 as int].terminator is Some
                } by {
                    assert(b < oc.blocks.len());
                    assert(nc.blocks@[b] == oc.blocks@[b]);
                    let p = oc.blocks@[b].predecessors@[k];
                    assert(p.0 < oc.blocks.len());
                    assert(nc.blocks@[p.0 as int] == oc.blocks@[p.0 as int]);
                }
                assert(pred_rank(nc, ra));
            }
        }
        id
    }

    /// The builder `self` moved to block `b`, as `use_basic_block` does.
    pub open spec fn with_block(self, b: BasicBlockId) -> Self {
        Builder {
            context: InBlock { path: self.context.path, func_id: self.context.func_id, block_id: b },
            program: self.program,
            errors: self.errors,
            current_scope: self.current_scope,
            globals: self.globals,
            current_def: self.current_def,
            incomplete_phis: self.incomplete_phis,
            current_memory_def: self.current_memory_def,
            incomplete_memory_phis: self.incomplete_memory_phis,
        }
    }

    /// What `seal_block(b)` does from `old` to `new`: nothing if `b` is
    /// already sealed, otherwise seal it as `sealed_from` says.
    pub open spec fn seal_block_effect(old: Self, new: Self, b: BasicBlockId) -> bool {
        &&& old.cur().blocks@[b.0 as int].sealed ==> new == old
        &&& !old.cur().blocks@[b.0 as int].sealed ==> Self::sealed_from(old, new, b)
    }

    /// Sealing block `b` from any block does what moving to `b`, sealing it
    /// there and moving back does: `seal_block`'s effect from `before` to
    /// `after` is exactly `seal`'s effect from `before` moved to `b` to
    /// `after` moved to `b`, with `after` back in the block of `before`.
    pub proof fn law_seal_block_seals_in_place(before: Self, after: Self, b: BasicBlockId)
        requires
            before.ssa_wf(),
            before.cur().has_block(b),
        ensures
            Self::seal_block_effect(before, after, b) <==> (after.context == before.context && Self::seal_effect(
                before.with_block(b),
                after.with_block(b),
            )),
    {
        let (x, y) = (before.with_block(b), after.with_block(b));
        assert(x.cur() == before.cur());
        assert(y.cur() == after.cur());
        assert(x.pos() == before.pos());
        assert(y.pos() == after.pos());
        if Self::seal_block_effect(before, after, b) {
            if !before.cur().blocks@[b.0 as int].sealed {
                assert(y.same_frame(x));
                assert(y.ssa_wf());
            }
        }
        if after.context == before.context && Self::seal_effect(x, y) {
            assert(after == y.with_block(before.context.block_id));
            assert(before == x.with_block(before.context.block_id));
            if !before.cur().blocks@[b.0 as int].sealed {
                assert(after.same_frame(before));
                assert(after.ssa_wf());
            }
        }
    }

    /// Once a block has a terminator it keeps it: appending an instruction
    /// to the current (open) block leaves every terminator as it was.
    pub proof fn law_push_keeps_terminators(old: Self, new: Self, instr: InstrDefinition, id: InstrId)
        requires
            Self::pushed(old, new, instr, id),
        ensures
            forall|x: int| 0 <= x < old.cur().blocks.len() ==> (#[trigger] new.cur().blocks@[x]).terminator
                == old.cur().blocks@[x].terminator,
    {
    }

    /// Once a block has a terminator it keeps it: ending the current block,
    /// which must be open, sets its terminator and no other.
    pub proof fn law_jump_keeps_terminators(old: Self, new: Self, targets: Seq<BasicBlockId>, term: Terminator)
        requires
            old.open_block(),
            Self::jumped_to(old, new, targets, term),
        ensures
            forall|x: int| 0 <= x < old.cur().blocks.len() && old.cur().blocks@[x].terminator is Some ==> (
            #[trigger] new.cur().blocks@[x]).terminator == old.cur().blocks@[x].terminator,
    {
    }

    /// Once a block has a terminator it keeps it: sealing a block leaves
    /// every terminator as it was.
    pub proof fn law_seal_keeps_terminators(old: Self, new: Self, b: BasicBlockId)
        requires
            Self::sealed_from(old, new, b),
        ensures
            forall|x: int| 0 <= x < old.cur().blocks.len() ==> (#[trigger] new.cur().blocks@[x]).terminator
                == old.cur().blocks@[x].terminator,
    {
    }

    /// Seals block `block_id`: its predecessors are all known.
    pub fn seal_block(&mut self, block_id: BasicBlockId)
        requires
            old(self).ssa_wf(),
            old(self).mem_budget(),
            old(self).cur().has_block(block_id),
            chains_acyclic(sealed_shape(shape(old(self).cur()), block_id.0 as int)),
        ensures
            Self::seal_block_effect(*old(self), *final(self), block_id),
            final(self).ssa_wf(),
            final(self).mem_budget(),
            old(self).build_wf() ==> final(self).build_wf(),
            final(self).open_block() == old(self).open_block(),
    {
        let ghost entry = *self;
        let old_block = self.context.block_id;
        self.context.block_id = block_id;
        let ghost inside = *self;
        proof {
            Self::lemma_frame(inside, inside);
            assert(inside.cur() == entry.cur());
        }
        self.seal();
        let ghost sealed = *self;
        self.context.block_id = old_block;
        proof {
            Self::lemma_frame(sealed, sealed);
            assert(self.cur() == sealed.cur());
            if !entry.cur().blocks@[block_id.0 as int].sealed {
                assert(Self::sealed_from(inside, sealed, block_id));
                assert(self.same_frame(entry));
                let (oc, nc) = (entry.cur(), self.cur());
                assert forall|x: int| 0 <= x < oc.blocks.len() implies (#[trigger] nc.blocks@[x]).predecessors@ == oc.blocks@[x].predecessors@
                    && nc.blocks@[x].terminator == oc.blocks@[x].terminator by {
                    assert(shape(nc)[x] == block_shape(nc.blocks@[x]));
                    assert(shape(oc)[x] == block_shape(oc.blocks@[x]));
                    assert(sealed_shape(shape(oc), block_id.0 as int)[x].1 == shape(oc)[x].1);
                }
                lemma_same_edges(oc, nc);
                assert(Self::sealed_from(entry, *self, block_id));
            }
        }
    }

    /// Calls `func` with `args`; the call reads the current memory version and
    /// produces a fresh one.
    pub fn emit_call(&mut self, func: InstrId, args: Vec<InstrId>, span: Span) -> (id: InstrId)
        requires
            old(self).ssa_wf(),
            old(self).open_block(),
            old(self).mem_room(1),
        ensures
            final(self).cur().instructions@[id.0 as int].kind matches InstructionKind::Call(ci) && ci.func == func
                && ci.args@ == args@ && Self::memory_pushed(
                *old(self),
                *final(self),
                true,
                ci.memory_in,
                ci.memory_out,
                InstrDefinition {
                    kind: InstructionKind::Call(CallInstr { func, args, memory_in: ci.memory_in, memory_out: ci.memory_out }),
                    block: old(self).context.block_id,
                    span,
                },
                id,
            ),
            final(self).cur().instructions@[id.0 as int].kind matches InstructionKind::Call(ci) && ci.memory_in.0 < ci.memory_out.0,
    {
        let ghost entry = *self;
        let (memory_in, memory_out) = self.advance_memory();
        let ghost mid = *self;
        let ghost instr = InstrDefinition {
            kind: InstructionKind::Call(CallInstr { func, args, memory_in, memory_out }),
            block: entry.context.block_id,
            span,
        };
        proof {
            Self::lemma_frame(entry, mid);
        }
        let id = self.push_instruction(InstructionKind::Call(CallInstr { func, args, memory_in, memory_out }), span);
        proof {
            Self::lemma_memory_pushed(entry, mid, *self, true, memory_in, memory_out, instr, id);
        }
        id
    }
}

} // verus!
