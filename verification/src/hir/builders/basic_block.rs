use vstd::prelude::*;

use crate::ast::{DeclarationId, Span};
use crate::hir::builders::ssa::{
    block_shape, sealed_shape, cfg_grows, instrs_kept_but, pending_grows, pending_mem_grows, pending_only_for, cfg_mem_grows, chains_acyclic, lemma_mem_missing_mono,
    lemma_mem_missing_strict, mem_defs_kept, mem_missing, defs_kept, depth, forwards, lemma_depth_step, lemma_shape_eq,
    lemma_same_phi_shape, lemma_var_missing_mono, lemma_var_missing_strict, shape, var_missing,
};
use crate::hir::builders::{Builder, CfgEntry, InBlock};
use crate::hir::instructions::{
    BasicBlock, BasicBlockId, FunctionCFG, InstrDefinition, InstrId, InstructionKind, MemoryId,
    MemoryPhi, MemoryPhiSource, PhiInstr, PhiSource, is_phi_kind,
};

verus! {

impl Builder<InBlock> {
    /// The graph of the function being built.
    pub open spec fn cur(self) -> FunctionCFG {
        self.program.cfg_of(self.context.func_id)
    }

    /// Where the graph of the function being built is stored.
    pub open spec fn pos(self) -> int {
        self.program.cfg_index(self.context.func_id)
    }

    /// The graph of the function being built can be found.
    pub open spec fn cfg_found(self) -> bool {
        &&& self.program.cfg_ids_unique()
        &&& self.program.has_cfg(self.context.func_id)
    }

    /// Well-formedness of a builder inside a block.
    pub open spec fn ssa_wf(self) -> bool {
        &&& self.cfg_found()
        &&& self.cur().wf()
        &&& chains_acyclic(shape(self.cur()))
        &&& self.cur().has_block(self.context.block_id)
        &&& self.current_def.wf()
        &&& self.incomplete_phis.wf()
        &&& self.current_memory_def.wf()
        &&& self.incomplete_memory_phis.wf()
        &&& forall|k: (BasicBlockId, DeclarationId)| #[trigger] self.incomplete_phis@.contains_key(k) ==> {
            &&& self.incomplete_phis@[k].0 < self.cur().instructions.len()
            &&& is_phi_kind(self.cur().instructions@[self.incomplete_phis@[k].0 as int].kind)
            &&& self.current_def@.contains_key(k)
            &&& self.cur().instructions@[self.incomplete_phis@[k].0 as int].block == k.0
            &&& !self.cur().blocks@[k.0.0 as int].sealed
        }
        &&& forall|k: (BasicBlockId, DeclarationId)| #[trigger] self.current_def@.contains_key(k)
            ==> self.current_def@[k].0 < self.cur().instructions.len()
        &&& forall|k1: (BasicBlockId, DeclarationId), k2: (BasicBlockId, DeclarationId)|
            #[trigger] self.incomplete_phis@.contains_key(k1) && #[trigger] self.incomplete_phis@.contains_key(k2) && k1
                != k2 ==> self.incomplete_phis@[k1] != self.incomplete_phis@[k2]
        &&& forall|k: BasicBlockId| #[trigger] self.incomplete_memory_phis@.contains_key(k)
            ==> self.current_memory_def@.contains_key(k)
        &&& self.mem_versions_issued()
    }

    /// `self` and `old` agree on everything but the graph being built and the
    /// four lookup tables.
    pub open spec fn same_frame(self, old: Self) -> bool {
        &&& self.context == old.context
        &&& self.errors == old.errors
        &&& self.current_scope == old.current_scope
        &&& self.globals == old.globals
        &&& self.program.modules == old.program.modules
        &&& self.program.declarations == old.program.declarations
        &&& self.program.entry_path == old.program.entry_path
        &&& self.program.target_ptr_size == old.program.target_ptr_size
        &&& self.program.target_ptr_align == old.program.target_ptr_align
        &&& self.program.foreign_links == old.program.foreign_links
        &&& self.program.cfgs.len() == old.program.cfgs.len()
        &&& forall|i: int| 0 <= i < old.program.cfgs.len() && i != old.pos() ==> #[trigger] self.program.cfgs@[i] == old.program.cfgs@[i]
        &&& self.program.cfgs@[old.pos()].id == old.program.cfgs@[old.pos()].id
    }

    pub proof fn lemma_frame(old: Self, new: Self)
        requires
            old.cfg_found(),
            new.same_frame(old),
        ensures
            new.cfg_found(),
            new.pos() == old.pos(),
            new.cur() == new.program.cfgs@[old.pos()].cfg,
    {
        let p = old.pos();
        assert(old.program.cfgs@[p].id == old.context.func_id);
        assert(new.program.cfgs@[p].id == new.context.func_id);
        assert forall|i: int, j: int|
            0 <= i < new.program.cfgs.len() && 0 <= j < new.program.cfgs.len() && i != j implies (
            #[trigger] new.program.cfgs@[i]).id != (#[trigger] new.program.cfgs@[j]).id by {
            if i != p {
                assert(new.program.cfgs@[i] == old.program.cfgs@[i]);
            }
            if j != p {
                assert(new.program.cfgs@[j] == old.program.cfgs@[j]);
            }
            assert(old.program.cfgs@[i].id != old.program.cfgs@[j].id);
        }
        let q = new.pos();
        assert(new.program.cfgs@[q].id == new.context.func_id);
    }

    /// The graph of the function being built.
    pub fn cfg(&self) -> (cfg: &FunctionCFG)
        requires
            self.cfg_found(),
        ensures
            *cfg == self.cur(),
    {
        match self.program.find_cfg(self.context.func_id) {
            Some(i) => &self.program.cfgs[i].cfg,
            None => {
                proof {
                    assert(false);
                }
                &self.program.cfgs[0].cfg
            },
        }
    }

    /// The graph of the function being built, for changing it.
    pub fn cfg_mut(&mut self) -> (cfg: &mut FunctionCFG)
        requires
            old(self).cfg_found(),
        ensures
            *cfg == old(self).cur(),
            final(self).same_frame(*old(self)),
            final(self).program.cfgs@[old(self).pos()].cfg == *final(cfg),
            final(self).current_def == old(self).current_def,
            final(self).incomplete_phis == old(self).incomplete_phis,
            final(self).current_memory_def == old(self).current_memory_def,
            final(self).incomplete_memory_phis == old(self).incomplete_memory_phis,
    {
        let i = match self.program.find_cfg(self.context.func_id) {
            Some(i) => i,
            None => {
                proof {
                    assert(false);
                }
                0
            },
        };
        &mut self.program.cfgs[i].cfg
    }

    /// Block `block` of the function being built.
    pub fn get_bb(&self, block: BasicBlockId) -> (bb: &BasicBlock)
        requires
            self.cfg_found(),
            self.cur().has_block(block),
        ensures
            *bb == self.cur().blocks@[block.0 as int],
    {
        self.cfg().get_block(block)
    }

    /// Block `block` of the function being built, for changing it.
    pub fn get_bb_mut(&mut self, block: BasicBlockId) -> (bb: &mut BasicBlock)
        requires
            old(self).cfg_found(),
            old(self).cur().has_block(block),
        ensures
            *bb == old(self).cur().blocks@[block.0 as int],
            final(self).same_frame(*old(self)),
            final(self).program.cfgs@[old(self).pos()].cfg.blocks@ == old(self).cur().blocks@.update(block.0 as int, *final(bb)),
            final(self).program.cfgs@[old(self).pos()].cfg.instructions == old(self).cur().instructions,
            final(self).program.cfgs@[old(self).pos()].cfg.entry_block == old(self).cur().entry_block,
            final(self).program.cfgs@[old(self).pos()].cfg.next_block_id == old(self).cur().next_block_id,
            final(self).program.cfgs@[old(self).pos()].cfg.next_memory_id == old(self).cur().next_memory_id,
            final(self).current_def == old(self).current_def,
            final(self).incomplete_phis == old(self).incomplete_phis,
            final(self).current_memory_def == old(self).current_memory_def,
            final(self).incomplete_memory_phis == old(self).incomplete_memory_phis,
    {
        self.cfg_mut().get_block_mut(block)
    }

    /// The block instructions are currently added to.
    pub fn bb(&self) -> (bb: &BasicBlock)
        requires
            self.ssa_wf(),
        ensures
            *bb == self.cur().blocks@[self.context.block_id.0 as int],
    {
        let block = self.context.block_id;
        self.get_bb(block)
    }

    /// The block instructions are currently added to, for changing it.
    pub fn bb_mut(&mut self) -> (bb: &mut BasicBlock)
        requires
            old(self).ssa_wf(),
        ensures
            *bb == old(self).cur().blocks@[old(self).context.block_id.0 as int],
            final(self).same_frame(*old(self)),
            final(self).program.cfgs@[old(self).pos()].cfg.blocks@ == old(self).cur().blocks@.update(
                old(self).context.block_id.0 as int,
                *final(bb),
            ),
            final(self).program.cfgs@[old(self).pos()].cfg.instructions == old(self).cur().instructions,
            final(self).program.cfgs@[old(self).pos()].cfg.entry_block == old(self).cur().entry_block,
            final(self).program.cfgs@[old(self).pos()].cfg.next_block_id == old(self).cur().next_block_id,
            final(self).program.cfgs@[old(self).pos()].cfg.next_memory_id == old(self).cur().next_memory_id,
            final(self).current_def == old(self).current_def,
            final(self).incomplete_phis == old(self).incomplete_phis,
            final(self).current_memory_def == old(self).current_memory_def,
            final(self).incomplete_memory_phis == old(self).incomplete_memory_phis,
    {
        let block = self.context.block_id;
        self.get_bb_mut(block)
    }

    /// The source span of instruction `id`.
    pub fn get_instr_span(&self, id: InstrId) -> (span: &Span)
        requires
            self.cfg_found(),
            self.cur().has_instr(id),
        ensures
            *span == self.cur().instructions@[id.0 as int].span,
    {
        &self.cfg().get_instr(id).span
    }

    /// Makes `block_id` the block instructions are added to.
    pub fn use_basic_block(&mut self, block_id: BasicBlockId)
        ensures
            final(self).context.block_id == block_id,
            final(self).context.path == old(self).context.path,
            final(self).context.func_id == old(self).context.func_id,
            final(self).program == old(self).program,
            final(self).errors == old(self).errors,
            final(self).current_scope == old(self).current_scope,
            final(self).globals == old(self).globals,
            final(self).current_def == old(self).current_def,
            final(self).incomplete_phis == old(self).incomplete_phis,
            final(self).current_memory_def == old(self).current_memory_def,
            final(self).incomplete_memory_phis == old(self).incomplete_memory_phis,
    {
        self.context.block_id = block_id;
    }

    /// `new` is `old` where variable `var` holds `value` at the end of
    /// `block`.
    pub open spec fn variable_written(old: Self, new: Self, block: BasicBlockId, var: DeclarationId, value: InstrId) -> bool {
        new.current_def@ == old.current_def@.insert((block, var), value)
    }

    /// Reading variable `var` at the end of `block` in `old` gave `val` and
    /// left `new`: `new` records `val` there, and where `old` already knew
    /// the value it is `val` and nothing changed.
    pub open spec fn variable_read(old: Self, new: Self, block: BasicBlockId, var: DeclarationId, val: InstrId) -> bool {
        &&& new.current_def@.contains_key((block, var))
        &&& new.current_def@[(block, var)] == val
        &&& old.current_def@.contains_key((block, var)) ==> val == old.current_def@[(block, var)] && new == old
    }

    /// A read of a variable gives back the value last written for it in
    /// that block, and changes nothing.
    pub proof fn law_read_after_write(
        before: Self,
        written: Self,
        read: Self,
        block: BasicBlockId,
        var: DeclarationId,
        value: InstrId,
        val: InstrId,
    )
        requires
            Self::variable_written(before, written, block, var, value),
            Self::variable_read(written, read, block, var, val),
        ensures
            val == value,
            read == written,
    {
    }

    /// A write to one variable, or in one block, leaves what is known of the
    /// others as it was.
    pub proof fn law_write_keeps_others(
        before: Self,
        written: Self,
        block: BasicBlockId,
        var: DeclarationId,
        value: InstrId,
        other_block: BasicBlockId,
        other_var: DeclarationId,
    )
        requires
            Self::variable_written(before, written, block, var, value),
            (other_block, other_var) != (block, var),
        ensures
            written.current_def@.contains_key((other_block, other_var)) == before.current_def@.contains_key(
                (other_block, other_var),
            ),
            written.current_def@.get((other_block, other_var)) == before.current_def@.get((other_block, other_var)),
    {
    }

    /// Records that variable `var` holds `value` at the end of `block`.
    pub fn write_variable(&mut self, block: BasicBlockId, var: DeclarationId, value: InstrId)
        requires
            old(self).current_def.wf(),
        ensures
            final(self).current_def.wf(),
            Self::variable_written(*old(self), *final(self), block, var, value),
            final(self).context == old(self).context,
            final(self).program == old(self).program,
            final(self).errors == old(self).errors,
            final(self).current_scope == old(self).current_scope,
            final(self).globals == old(self).globals,
            final(self).incomplete_phis == old(self).incomplete_phis,
            final(self).current_memory_def == old(self).current_memory_def,
            final(self).incomplete_memory_phis == old(self).incomplete_memory_phis,
    {
        self.current_def.insert(block, var, value);
    }

    /// Adds a phi without operands at the head of `block`, after the phis
    /// already there.
    fn emit_incomplete_phi(&mut self, block: BasicBlockId) -> (id: InstrId)
        requires
            old(self).ssa_wf(),
            old(self).cur().has_block(block),
        ensures
            final(self).ssa_wf(),
            final(self).same_frame(*old(self)),
            cfg_grows(old(self).cur(), final(self).cur()),
            instrs_kept_but(old(self).cur(), final(self).cur(), -1),
            id.0 == old(self).cur().instructions.len(),
            final(self).cur().instructions.len() == old(self).cur().instructions.len() + 1,
            final(self).cur().instructions@[id.0 as int].block == block,
            final(self).cur().instructions@[id.0 as int].kind matches InstructionKind::Phi(p) && p.sources@.len() == 0,
            exists|idx: int|
                0 <= idx <= old(self).cur().blocks@[block.0 as int].instructions.len() && final(self).cur().blocks@[block.0 as int].instructions@
                    == old(self).cur().blocks@[block.0 as int].instructions@.insert(idx, id) && (forall|j: int|
                    0 <= j < idx ==> is_phi_kind(#[trigger] old(self).cur().kind_at(block.0 as int, j))) && (idx
                    < old(self).cur().blocks@[block.0 as int].instructions.len() ==> !is_phi_kind(
                    old(self).cur().kind_at(block.0 as int, idx),
                )),
            final(self).current_def == old(self).current_def,
            final(self).incomplete_phis == old(self).incomplete_phis,
            final(self).current_memory_def == old(self).current_memory_def,
            final(self).incomplete_memory_phis == old(self).incomplete_memory_phis,
    {
        let ghost old_b = *self;
        let id = self.cfg_mut().insert_phi(block, Span::default());
        proof {
            Self::lemma_frame(old_b, *self);
            let oc = old_b.cur();
            let nc = self.cur();
            assert forall|i: int| 0 <= i < oc.blocks.len() implies (#[trigger] nc.blocks@[i]).sealed == oc.blocks@[i].sealed
                && nc.blocks@[i].predecessors@ == oc.blocks@[i].predecessors@ by {
                if i != block.0 {
                    assert(nc.blocks@[i] == oc.blocks@[i]);
                }
            }
            lemma_shape_eq(nc, oc);
            assert forall|b: int| 0 <= b < oc.blocks.len() implies {
                &&& (#[trigger] nc.blocks@[b]).id == oc.blocks@[b].id
                &&& nc.blocks@[b].terminator == oc.blocks@[b].terminator
                &&& nc.blocks@[b].memory_phis == oc.blocks@[b].memory_phis
            } by {
                if b != block.0 {
                    assert(nc.blocks@[b] == oc.blocks@[b]);
                }
            }
            assert forall|k: (BasicBlockId, DeclarationId)| #[trigger] self.incomplete_phis@.contains_key(k) implies {
                &&& self.incomplete_phis@[k].0 < nc.instructions.len()
                &&& is_phi_kind(nc.instructions@[self.incomplete_phis@[k].0 as int].kind)
            } by {
                assert(nc.instructions@[self.incomplete_phis@[k].0 as int] == oc.instructions@[self.incomplete_phis@[k].0 as int]);
            }
            assert forall|b: int| 0 <= b < oc.blocks.len() && oc.only_phis_in(b) implies #[trigger] nc.only_phis_in(b) by {
                assert forall|k: int| 0 <= k < nc.blocks@[b].instructions.len() implies is_phi_kind(#[trigger] nc.kind_at(b, k)) by {
                    if b != block.0 {
                        assert(nc.blocks@[b] == oc.blocks@[b]);
                        let x = oc.blocks@[b].instructions@[k];
                        assert(oc.wf());
                        assert(nc.instructions@[x.0 as int] == oc.instructions@[x.0 as int]);
                        assert(is_phi_kind(oc.kind_at(b, k)));
                    } else {
                        let idx = choose|idx: int|
                            0 <= idx <= oc.blocks@[block.0 as int].instructions.len() && nc.blocks@[block.0 as int].instructions@
                                == oc.blocks@[block.0 as int].instructions@.insert(idx, id) && (forall|j: int|
                                0 <= j < idx ==> is_phi_kind(#[trigger] oc.kind_at(block.0 as int, j))) && (idx
                                < oc.blocks@[block.0 as int].instructions.len() ==> !is_phi_kind(
                                oc.kind_at(block.0 as int, idx),
                            ));
                        if k < idx {
                            let x = oc.blocks@[b].instructions@[k];
                            assert(nc.blocks@[b].instructions@[k] == x);
                            assert(nc.instructions@[x.0 as int] == oc.instructions@[x.0 as int]);
                            assert(is_phi_kind(oc.kind_at(b, k)));
                        } else if k == idx {
                            assert(nc.blocks@[b].instructions@[k] == id);
                        } else {
                            let x = oc.blocks@[b].instructions@[k - 1];
                            assert(nc.blocks@[b].instructions@[k] == x);
                            assert(nc.instructions@[x.0 as int] == oc.instructions@[x.0 as int]);
                            assert(is_phi_kind(oc.kind_at(b, k - 1)));
                        }
                    }
                }
            }
        }
        id
    }

    /// One step of the construction: well-formedness is kept, nothing outside
    /// the graph and the variable tables changes, the graph only grows, and no
    /// definition already made is lost or changed.
    pub open spec fn ssa_step(old: Self, new: Self) -> bool {
        &&& new.ssa_wf()
        &&& new.same_frame(old)
        &&& cfg_grows(old.cur(), new.cur())
        &&& defs_kept(old.current_def@, new.current_def@)
        &&& pending_grows(old.incomplete_phis@, new.incomplete_phis@, old.current_def@)
        &&& new.current_memory_def == old.current_memory_def
        &&& new.incomplete_memory_phis == old.incomplete_memory_phis
    }

    pub proof fn lemma_step_trans(a: Self, b: Self, c: Self)
        requires
            a.ssa_wf(),
            Self::ssa_step(a, b),
            Self::ssa_step(b, c),
        ensures
            Self::ssa_step(a, c),
    {
        Self::lemma_frame(a, b);
        Self::lemma_frame(b, c);
        assert forall|i: int| 0 <= i < a.program.cfgs.len() && i != a.pos() implies #[trigger] c.program.cfgs@[i] == a.program.cfgs@[i] by {
            assert(b.program.cfgs@[i] == a.program.cfgs@[i]);
        }
        let (ac, bc, cc) = (a.cur(), b.cur(), c.cur());
        assert forall|i: int| 0 <= i < ac.instructions.len() implies {
            &&& (#[trigger] cc.instructions@[i]).block == ac.instructions@[i].block
            &&& is_phi_kind(ac.instructions@[i].kind) ==> is_phi_kind(cc.instructions@[i].kind)
            &&& !is_phi_kind(ac.instructions@[i].kind) ==> cc.instructions@[i].kind == ac.instructions@[i].kind
        } by {
            assert(bc.instructions@[i].block == ac.instructions@[i].block);
        }
        assert forall|x: int| 0 <= x < ac.blocks.len() implies {
            &&& (#[trigger] cc.blocks@[x]).id == ac.blocks@[x].id
            &&& cc.blocks@[x].terminator == ac.blocks@[x].terminator
            &&& cc.blocks@[x].memory_phis == ac.blocks@[x].memory_phis
        } by {
            assert(bc.blocks@[x].id == ac.blocks@[x].id);
        }
    }

    /// In `new`, instruction `phi` has been inserted into `block` of `old`
    /// right after the phis that lead the block.
    pub open spec fn phi_placed(old: FunctionCFG, new: FunctionCFG, block: BasicBlockId, phi: InstrId) -> bool {
        let ins = old.blocks@[block.0 as int].instructions@;
        exists|idx: int|
            0 <= idx <= ins.len() && new.blocks@[block.0 as int].instructions@ == ins.insert(idx, phi) && (forall|j: int|
                0 <= j < idx ==> is_phi_kind(#[trigger] old.kind_at(block.0 as int, j))) && (idx < ins.len()
                ==> !is_phi_kind(old.kind_at(block.0 as int, idx)))
    }

    /// What looking `var` up in `block` through its predecessors gives and
    /// does, from `old` to `new`: in a block that is not sealed, a new phi without
    /// operands at the head of the block, waiting for them; in a sealed block
    /// with one predecessor, the value read at that predecessor; otherwise a
    /// new phi of the block with one operand per predecessor, each the value
    /// read there.
    pub open spec fn variable_looked_up(old: Self, new: Self, block: BasicBlockId, var: DeclarationId, val: InstrId) -> bool {
        let ob = old.cur().blocks@[block.0 as int];
        if !ob.sealed {
            &&& val.0 == old.cur().instructions.len()
            &&& new.cur().instructions@[val.0 as int].block == block
            &&& new.cur().instructions@[val.0 as int].kind matches InstructionKind::Phi(p) && p.sources@.len() == 0
            &&& new.incomplete_phis@ == old.incomplete_phis@.insert((block, var), val)
            &&& Self::phi_placed(old.cur(), new.cur(), block, val)
        } else if ob.predecessors@.len() == 1 {
            &&& new.current_def@.contains_key((ob.predecessors@[0], var))
            &&& val == new.current_def@[(ob.predecessors@[0], var)]
        } else {
            &&& val.0 == old.cur().instructions.len()
            &&& new.cur().instructions@[val.0 as int].block == block
            &&& phi_filled(new.cur(), new.current_def@, block, var, val)
        }
    }

    /// Looks up the value of variable `var` at the end of `block`, creating
    /// phis where control flow merges.
    pub fn read_variable(&mut self, block: BasicBlockId, var: DeclarationId) -> (val: InstrId)
        requires
            old(self).ssa_wf(),
            old(self).cur().has_block(block),
        ensures
            Self::ssa_step(*old(self), *final(self)),
            instrs_kept_but(old(self).cur(), final(self).cur(), -1),
            pending_only_for(old(self).incomplete_phis@, final(self).incomplete_phis@, var),
            Self::variable_read(*old(self), *final(self), block, var, val),
            !old(self).current_def@.contains_key((block, var)) ==> Self::variable_looked_up(
                *old(self),
                *final(self),
                block,
                var,
                val,
            ),
        decreases
            var_missing(old(self).current_def@, var, old(self).cur().blocks.len() as nat),
            depth(shape(old(self).cur()), block.0 as int),
            2nat,
    {
        if let Some(val) = self.current_def.get(block, var) {
            proof {
                Self::lemma_frame(*self, *self);
                assert(cfg_grows(self.cur(), self.cur()));
            }
            return val;
        }
        self.read_variable_recursive(block, var)
    }

    /// `ssa_step`, except that the definition of `var` in `block` and the phi
    /// waiting for it there may be replaced.
    pub open spec fn ssa_step_redefining(old: Self, new: Self, block: BasicBlockId, var: DeclarationId) -> bool {
        &&& new.ssa_wf()
        &&& new.same_frame(old)
        &&& cfg_grows(old.cur(), new.cur())
        &&& forall|k: (BasicBlockId, DeclarationId)| #[trigger] old.current_def@.contains_key(k) && k != (block, var)
            ==> new.current_def@.contains_key(k) && new.current_def@[k] == old.current_def@[k]
        &&& forall|k: (BasicBlockId, DeclarationId)| #[trigger] old.incomplete_phis@.contains_key(k) && k != (block, var)
            ==> new.incomplete_phis@.contains_key(k) && new.incomplete_phis@[k] == old.incomplete_phis@[k]
        &&& new.current_memory_def == old.current_memory_def
        &&& new.incomplete_memory_phis == old.incomplete_memory_phis
    }

    /// Looks up variable `var` in `block` through its predecessors, as if
    /// `block` had no definition of it, and records the result as its
    /// definition there. Where `block` had none, this is an `ssa_step`.
    pub fn read_variable_recursive(&mut self, block: BasicBlockId, var: DeclarationId) -> (val: InstrId)
        requires
            old(self).ssa_wf(),
            old(self).cur().has_block(block),
        ensures
            !old(self).current_def@.contains_key((block, var)) ==> Self::ssa_step(*old(self), *final(self)),
            Self::ssa_step_redefining(*old(self), *final(self), block, var),
            instrs_kept_but(old(self).cur(), final(self).cur(), -1),
            final(self).current_def@.contains_key((block, var)),
            pending_only_for(old(self).incomplete_phis@, final(self).incomplete_phis@, var),
            final(self).current_def@[(block, var)] == val,
            Self::variable_looked_up(*old(self), *final(self), block, var, val),
        decreases
            var_missing(old(self).current_def@, var, old(self).cur().blocks.len() as nat) + if old(
                self,
            ).current_def@.contains_key((block, var)) {
                1nat
            } else {
                0nat
            },
            depth(shape(old(self).cur()), block.0 as int),
            1nat,
    {
        let ghost entry = *self;
        let ghost nblocks = entry.cur().blocks.len() as nat;
        let ghost had = entry.current_def@.contains_key((block, var));
        let is_sealed = self.get_bb(block).sealed;
        if !is_sealed {
            let phi_id = self.emit_incomplete_phi(block);
            let ghost e1 = *self;
            self.incomplete_phis.insert(block, var, phi_id);
            self.write_variable(block, var, phi_id);
            proof {
                Self::lemma_frame(entry, e1);
                Self::lemma_frame(e1, *self);
                assert(self.cur() == e1.cur());
                assert(shape(e1.cur())[block.0 as int] == block_shape(e1.cur().blocks@[block.0 as int]));
                assert(shape(entry.cur())[block.0 as int] == block_shape(entry.cur().blocks@[block.0 as int]));
                assert(!self.cur().blocks@[block.0 as int].sealed);
                assert forall|k: (BasicBlockId, DeclarationId)| #[trigger] self.incomplete_phis@.contains_key(k) implies {
                    &&& self.cur().instructions@[self.incomplete_phis@[k].0 as int].block == k.0
                    &&& !self.cur().blocks@[k.0.0 as int].sealed
                } by {
                    if k != (block, var) {
                        assert(entry.incomplete_phis@.contains_key(k));
                        let i = entry.incomplete_phis@[k].0 as int;
                        assert(self.cur().instructions@[i] == entry.cur().instructions@[i]);
                        assert(shape(self.cur())[k.0.0 as int] == block_shape(self.cur().blocks@[k.0.0 as int]));
                        assert(shape(entry.cur())[k.0.0 as int] == block_shape(entry.cur().blocks@[k.0.0 as int]));
                    }
                }
                assert forall|k1: (BasicBlockId, DeclarationId), k2: (BasicBlockId, DeclarationId)|
                    #[trigger] self.incomplete_phis@.contains_key(k1) && #[trigger] self.incomplete_phis@.contains_key(k2) && k1
                        != k2 implies self.incomplete_phis@[k1] != self.incomplete_phis@[k2] by {
                    if k1 != (block, var) {
                        assert(entry.incomplete_phis@[k1].0 < entry.cur().instructions.len());
                    }
                    if k2 != (block, var) {
                        assert(entry.incomplete_phis@[k2].0 < entry.cur().instructions.len());
                    }
                }
                assert(self.ssa_wf());
            }
            return phi_id;
        }
        let npreds = self.get_bb(block).predecessors.len();
        if npreds == 1 {
            let pred = self.get_bb(block).predecessors[0];
            proof {
                assert(forwards(shape(entry.cur()), block.0 as int));
                assert(shape(entry.cur())[block.0 as int].1[0] == pred);
                assert(pred.0 < entry.cur().blocks.len());
                lemma_depth_step(shape(entry.cur()), block.0 as int);
                if had {
                    lemma_var_missing_mono(entry.current_def@, entry.current_def@, var, nblocks);
                }
            }
            let val = self.read_variable(pred, var);
            let ghost mid = *self;
            self.write_variable(block, var, val);
            proof {
                Self::lemma_frame(mid, *self);
                assert(cfg_grows(mid.cur(), self.cur()));
                Self::lemma_frame(entry, mid);
                Self::lemma_frame(entry, *self);
                if !had {
                    assert forall|k: (BasicBlockId, DeclarationId)| #[trigger] entry.current_def@.contains_key(k) implies self.current_def@.contains_key(k)
                        && self.current_def@[k] == entry.current_def@[k] by {
                        assert(mid.current_def@.contains_key(k));
                    }
                    assert(Self::ssa_step(entry, *self));
                } else {
                    assert forall|k: (BasicBlockId, DeclarationId)| #[trigger] self.incomplete_phis@.contains_key(k) implies
                        self.current_def@.contains_key(k) by {
                        assert(mid.current_def@.contains_key(k));
                    }
                    assert forall|k: (BasicBlockId, DeclarationId)| #[trigger] entry.current_def@.contains_key(k) && k != (block, var)
                        implies self.current_def@.contains_key(k) && self.current_def@[k] == entry.current_def@[k] by {
                        assert(mid.current_def@.contains_key(k));
                    }
                    assert forall|k: (BasicBlockId, DeclarationId)| #[trigger] entry.incomplete_phis@.contains_key(k) && k != (block, var)
                        implies self.incomplete_phis@.contains_key(k) && self.incomplete_phis@[k] == entry.incomplete_phis@[k] by {
                        assert(mid.incomplete_phis@.contains_key(k));
                    }
                    assert(self.ssa_wf());
                }
            }
            return val;
        }
        let phi_id = self.emit_incomplete_phi(block);
        self.write_variable(block, var, phi_id);
        let ghost mid = *self;
        proof {
            Self::lemma_frame(entry, mid);
            assert(mid.cur().blocks.len() == nblocks);
            if had {
                assert forall|k: (BasicBlockId, DeclarationId)| #[trigger] entry.current_def@.contains_key(k) implies mid.current_def@.contains_key(k) by {}
                assert forall|k: (BasicBlockId, DeclarationId)| #[trigger] mid.current_def@.contains_key(k) implies entry.current_def@.contains_key(k) by {}
                lemma_var_missing_mono(entry.current_def@, mid.current_def@, var, nblocks);
                lemma_var_missing_mono(mid.current_def@, entry.current_def@, var, nblocks);
                assert forall|k: (BasicBlockId, DeclarationId)| #[trigger] mid.incomplete_phis@.contains_key(k) implies
                    mid.current_def@.contains_key(k) by {}
                assert(mid.ssa_wf());
            } else {
                lemma_var_missing_strict(entry.current_def@, mid.current_def@, var, nblocks, block.0 as int);
            }
        }
        self.add_phi_operands(block, var, phi_id);
        proof {
            Self::lemma_frame(mid, *self);
            if !had {
                Self::lemma_step_trans(entry, mid, *self);
            } else {
                Self::lemma_frame(entry, *self);
                assert forall|k: (BasicBlockId, DeclarationId)| #[trigger] entry.current_def@.contains_key(k) && k != (block, var)
                    implies self.current_def@.contains_key(k) && self.current_def@[k] == entry.current_def@[k] by {
                    assert(mid.current_def@.contains_key(k));
                }
                assert forall|k: (BasicBlockId, DeclarationId)| #[trigger] entry.incomplete_phis@.contains_key(k) && k != (block, var)
                    implies self.incomplete_phis@.contains_key(k) && self.incomplete_phis@[k] == entry.incomplete_phis@[k] by {
                    assert(mid.incomplete_phis@.contains_key(k));
                }
                assert(cfg_grows(entry.cur(), self.cur()));
            }
            assert(mid.current_def@.contains_key((block, var)));
        }
        phi_id
    }

    /// Fills the operands of phi `phi_instr_id` of `block`: for each
    /// predecessor, ascending, the value of `var` at its end.
    fn add_phi_operands(&mut self, block: BasicBlockId, var: DeclarationId, phi_instr_id: InstrId)
        requires
            old(self).ssa_wf(),
            old(self).cur().has_block(block),
            old(self).cur().has_instr(phi_instr_id),
            is_phi_kind(old(self).cur().instructions@[phi_instr_id.0 as int].kind),
        ensures
            Self::ssa_step(*old(self), *final(self)),
            instrs_kept_but(old(self).cur(), final(self).cur(), phi_instr_id.0 as int),
            pending_only_for(old(self).incomplete_phis@, final(self).incomplete_phis@, var),
            phi_filled(final(self).cur(), final(self).current_def@, block, var, phi_instr_id),
        decreases
            var_missing(old(self).current_def@, var, old(self).cur().blocks.len() as nat) + 1,
            0nat,
            0nat,
    {
        let ghost entry = *self;
        let ghost nblocks = entry.cur().blocks.len() as nat;
        let ghost preds = entry.cur().blocks@[block.0 as int].predecessors@;
        let npreds = self.get_bb(block).predecessors.len();
        let mut sources: Vec<PhiSource> = Vec::new();
        let mut k: usize = 0;
        proof {
            Self::lemma_frame(entry, entry);
            assert(cfg_grows(entry.cur(), entry.cur()));
        }
        while k < npreds
            invariant
                entry == *old(self),
                entry.ssa_wf(),
                Self::ssa_step(entry, *self),
                instrs_kept_but(entry.cur(), self.cur(), -1),
                pending_only_for(entry.incomplete_phis@, self.incomplete_phis@, var),
                entry.cur().has_block(block),
                entry.cur().has_instr(phi_instr_id),
                is_phi_kind(entry.cur().instructions@[phi_instr_id.0 as int].kind),
                nblocks == entry.cur().blocks.len(),
                preds == entry.cur().blocks@[block.0 as int].predecessors@,
                npreds == preds.len(),
                k <= npreds,
                sources@.len() == k,
                forall|j: int| 0 <= j < k ==> {
                    &&& (#[trigger] sources@[j]).block == preds[j]
                    &&& self.current_def@.contains_key((preds[j], var))
                    &&& sources@[j].value == self.current_def@[(preds[j], var)]
                },
            decreases npreds - k,
        {
            let ghost before = *self;
            proof {
                Self::lemma_frame(entry, before);
                assert(shape(before.cur()) == shape(entry.cur()));
                assert(shape(before.cur())[block.0 as int].1 == preds);
                assert(before.cur().blocks@[block.0 as int].predecessors@ == preds);
                assert forall|key: (BasicBlockId, DeclarationId)| #[trigger] entry.current_def@.contains_key(key) implies before.current_def@.contains_key(key) by {}
                lemma_var_missing_mono(entry.current_def@, before.current_def@, var, nblocks);
                assert(before.cur().blocks.len() == nblocks);
                assert(shape(before.cur())[block.0 as int] == block_shape(before.cur().blocks@[block.0 as int]));
            }
            let pred = self.get_bb(block).predecessors[k];
            proof {
                assert(pred == preds[k as int]);
                assert(pred.0 < before.cur().blocks.len());
            }
            let val = self.read_variable(pred, var);
            let ghost old_sources = sources@;
            sources.push(PhiSource { block: pred, value: val });
            proof {
                Self::lemma_step_trans(entry, before, *self);
                assert forall|i: int| 0 <= i < entry.cur().instructions.len() && i != -1 implies #[trigger] self.cur().instructions@[i]
                    == entry.cur().instructions@[i] by {
                    assert(before.cur().instructions@[i] == entry.cur().instructions@[i]);
                }
                assert forall|kk: (BasicBlockId, DeclarationId)| #[trigger] self.incomplete_phis@.contains_key(kk)
                    && !entry.incomplete_phis@.contains_key(kk) implies kk.1 == var by {
                    if !before.incomplete_phis@.contains_key(kk) {
                    }
                }
                assert forall|j: int| 0 <= j < k + 1 implies {
                    &&& (#[trigger] sources@[j]).block == preds[j]
                    &&& self.current_def@.contains_key((preds[j], var))
                    &&& sources@[j].value == self.current_def@[(preds[j], var)]
                } by {
                    if j < k {
                        assert(sources@[j] == old_sources[j]);
                        assert(old_sources[j].block == preds[j]);
                        assert(before.current_def@.contains_key((preds[j], var)));
                        assert(defs_kept(before.current_def@, self.current_def@));
                    } else {
                        assert(sources@[j].value == val);
                    }
                }
            }
            k = k + 1;
        }
        let ghost before = *self;
        let ghost final_sources = sources@;
        proof {
            Self::lemma_frame(entry, before);
            assert(before.cur().has_instr(phi_instr_id));
        }
        let instr_def = self.cfg_mut().get_instr_mut(phi_instr_id);
        instr_def.kind = InstructionKind::Phi(PhiInstr { sources });
        proof {
            Self::lemma_frame(before, *self);
            let (bc, nc) = (before.cur(), self.cur());
            assert(is_phi_kind(bc.instructions@[phi_instr_id.0 as int].kind));
            assert forall|i: int| 0 <= i < bc.instructions.len() implies (#[trigger] nc.instructions@[i]).block
                == bc.instructions@[i].block && is_phi_kind(nc.instructions@[i].kind) == is_phi_kind(
                bc.instructions@[i].kind,
            ) by {
                if i != phi_instr_id.0 {
                    assert(nc.instructions@[i] == bc.instructions@[i]);
                }
            }
            lemma_same_phi_shape(bc, nc);
            assert forall|b: int| 0 <= b < bc.blocks.len() && bc.only_phis_in(b) implies #[trigger] nc.only_phis_in(b) by {
                assert forall|k: int| 0 <= k < nc.blocks@[b].instructions.len() implies is_phi_kind(#[trigger] nc.kind_at(b, k)) by {
                    let x = bc.blocks@[b].instructions@[k];
                    assert(is_phi_kind(bc.kind_at(b, k)));
                    assert(x.0 < bc.instructions.len());
                    assert(is_phi_kind(nc.instructions@[x.0 as int].kind) == is_phi_kind(bc.instructions@[x.0 as int].kind));
                }
            }
            assert(cfg_grows(bc, nc));
            assert forall|i: int| 0 <= i < entry.cur().instructions.len() && i != phi_instr_id.0 implies #[trigger] nc.instructions@[i]
                == entry.cur().instructions@[i] by {
                assert(bc.instructions@[i] == entry.cur().instructions@[i]);
            }
            assert forall|key: (BasicBlockId, DeclarationId)| #[trigger] self.incomplete_phis@.contains_key(key) implies {
                &&& self.incomplete_phis@[key].0 < nc.instructions.len()
                &&& is_phi_kind(nc.instructions@[self.incomplete_phis@[key].0 as int].kind)
            } by {
                assert(is_phi_kind(bc.instructions@[self.incomplete_phis@[key].0 as int].kind));
            }
            assert(Self::ssa_step(before, *self));
            Self::lemma_step_trans(entry, before, *self);
            assert(shape(nc) == shape(entry.cur()));
            assert(shape(nc)[block.0 as int] == block_shape(nc.blocks@[block.0 as int]));
            assert(shape(entry.cur())[block.0 as int] == block_shape(entry.cur().blocks@[block.0 as int]));
            assert(nc.blocks@[block.0 as int].predecessors@ == preds);
            assert forall|j: int| 0 <= j < preds.len() implies {
                &&& (#[trigger] final_sources[j]).block == preds[j]
                &&& self.current_def@.contains_key((preds[j], var))
                &&& final_sources[j].value == self.current_def@[(preds[j], var)]
            } by {}
            lemma_phi_filled(nc, self.current_def@, block, var, phi_instr_id, final_sources);
            assert(phi_filled(nc, self.current_def@, block, var, phi_instr_id));
        }
    }

    /// What sealing the current block of `old` has made of it in `new`: the
    /// block is sealed, each phi that waited in it has one operand per
    /// predecessor, its pending memory phi has one source per predecessor,
    /// nothing waits in it any more, and everything else that waited still
    /// does.
    pub open spec fn sealed_from(old: Self, new: Self, b: BasicBlockId) -> bool {
        &&& new.ssa_wf()
        &&& new.same_frame(old)
        &&& new.cur().blocks.len() == old.cur().blocks.len()
        &&& new.cur().blocks@[b.0 as int].sealed
        &&& shape(new.cur()) == sealed_shape(shape(old.cur()), b.0 as int)
        &&& forall|x: int| 0 <= x < old.cur().blocks.len() ==> (#[trigger] new.cur().blocks@[x]).terminator
            == old.cur().blocks@[x].terminator
        &&& forall|x: int| #![trigger new.cur().only_phis_in(x)] 0 <= x < old.cur().blocks.len() && old.cur().only_phis_in(x)
            ==> new.cur().only_phis_in(x)
        &&& new.cur().instructions.len() >= old.cur().instructions.len()
        &&& forall|i: int|
            0 <= i < old.cur().instructions.len() && old.cur().blocks@[old.cur().instructions@[i].block.0 as int].sealed
                ==> #[trigger] new.cur().instructions@[i] == old.cur().instructions@[i]
        &&& forall|i: int| 0 <= i < old.cur().instructions.len() ==> {
            &&& (#[trigger] new.cur().instructions@[i]).block == old.cur().instructions@[i].block
            &&& (is_phi_kind(old.cur().instructions@[i].kind) ==> is_phi_kind(new.cur().instructions@[i].kind))
            &&& (!is_phi_kind(old.cur().instructions@[i].kind) ==> new.cur().instructions@[i].kind == old.cur().instructions@[i].kind)
        }
        &&& new.cur().next_block_id == old.cur().next_block_id
        &&& new.cur().entry_block == old.cur().entry_block
        &&& defs_kept(old.current_def@, new.current_def@)
        &&& mem_defs_kept(old.current_memory_def@, new.current_memory_def@)
        &&& forall|v: DeclarationId| #[trigger] old.incomplete_phis@.contains_key((b, v)) ==> phi_filled(
            new.cur(),
            new.current_def@,
            b,
            v,
            old.incomplete_phis@[(b, v)],
        )
        &&& forall|k: (BasicBlockId, DeclarationId)| #[trigger] new.incomplete_phis@.contains_key(k) ==> k.0 != b
        &&& forall|k: (BasicBlockId, DeclarationId)| #[trigger] old.incomplete_phis@.contains_key(k) && k.0 != b
            ==> new.incomplete_phis@.contains_key(k) && new.incomplete_phis@[k] == old.incomplete_phis@[k]
        &&& old.incomplete_memory_phis@.contains_key(b) ==> memory_phi_filled(
            new.cur(),
            new.current_memory_def@,
            b,
            old.incomplete_memory_phis@[b],
        )
        &&& !new.incomplete_memory_phis@.contains_key(b)
        &&& forall|k: BasicBlockId| #[trigger] old.incomplete_memory_phis@.contains_key(k) && k != b
            ==> new.incomplete_memory_phis@.contains_key(k) && new.incomplete_memory_phis@[k] == old.incomplete_memory_phis@[k]
        &&& new.cur().next_memory_id + mem_missing(new.current_memory_def@, new.cur().blocks.len() as nat)
            <= old.cur().next_memory_id + mem_missing(old.current_memory_def@, old.cur().blocks.len() as nat)
    }

    /// What `seal` does from `old` to `new`: nothing if the current block is
    /// already sealed, otherwise seal it as `sealed_from` says.
    pub open spec fn seal_effect(old: Self, new: Self) -> bool {
        let c = old.context.block_id;
        &&& old.cur().blocks@[c.0 as int].sealed ==> new == old
        &&& !old.cur().blocks@[c.0 as int].sealed ==> Self::sealed_from(old, new, c)
    }

    /// Seals the current block: its predecessors are all known. The phis that
    /// waited in it get their operands, and so does its pending memory phi.
    pub fn seal(&mut self)
        requires
            old(self).ssa_wf(),
            old(self).mem_budget(),
            chains_acyclic(sealed_shape(shape(old(self).cur()), old(self).context.block_id.0 as int)),
        ensures
            Self::seal_effect(*old(self), *final(self)),
            final(self).ssa_wf(),
            final(self).mem_budget(),
    {
        let block_id = self.context.block_id;
        if self.bb().sealed {
            return;
        }
        let ghost entry = *self;
        let entries = self.incomplete_phis.take_block(block_id);
        let ghost start = *self;
        proof {
            Self::lemma_frame(entry, start);
            assert(start.ssa_wf());
            assert(cfg_grows(start.cur(), start.cur()));
            assert forall|k: (BasicBlockId, DeclarationId)| #[trigger] start.incomplete_phis@.contains_key(k)
                implies k.0 != block_id by {}
        }
        let n = entries.len();
        let mut i: usize = 0;
        while i < n
            invariant
                entry.ssa_wf(),
                entry.mem_budget(),
                start.ssa_wf(),
                start.same_frame(entry),
                start.cur() == entry.cur(),
                start.current_def == entry.current_def,
                start.current_memory_def == entry.current_memory_def,
                start.incomplete_memory_phis == entry.incomplete_memory_phis,
                start.context == entry.context,
                block_id == entry.context.block_id,
                start.incomplete_phis@ == entry.incomplete_phis@.remove_keys(
                    Set::new(|k: (BasicBlockId, DeclarationId)| k.0 == block_id),
                ),
                !entry.cur().blocks@[block_id.0 as int].sealed,
                n == entries@.len(),
                i <= n,
                Self::ssa_step(start, *self),
                forall|a: int, c: int| 0 <= a < c < entries@.len() ==> (#[trigger] entries@[a]).0.0 < (#[trigger] entries@[c]).0.0,
                forall|a: int| 0 <= a < entries@.len() ==> entry.incomplete_phis@.contains_key((block_id, (#[trigger] entries@[a]).0))
                    && entry.incomplete_phis@[(block_id, entries@[a].0)] == entries@[a].1,
                forall|v: DeclarationId| #[trigger] entry.incomplete_phis@.contains_key((block_id, v)) ==> exists|a: int|
                    0 <= a < entries@.len() && (#[trigger] entries@[a]).0 == v,
                forall|a: int| 0 <= a < i ==> phi_filled(
                    self.cur(),
                    self.current_def@,
                    block_id,
                    (#[trigger] entries@[a]).0,
                    entries@[a].1,
                ),
                forall|a: int| i <= a < n ==> #[trigger] self.cur().instructions@[entries@[a].1.0 as int]
                    == entry.cur().instructions@[entries@[a].1.0 as int],
                forall|x: int|
                    0 <= x < entry.cur().instructions.len() && entry.cur().blocks@[entry.cur().instructions@[x].block.0 as int].sealed
                        ==> #[trigger] self.cur().instructions@[x] == entry.cur().instructions@[x],
                forall|k: (BasicBlockId, DeclarationId)| #[trigger] self.incomplete_phis@.contains_key(k) ==> k.0 != block_id,
            decreases n - i,
        {
            let (var, phi) = entries[i];
            let ghost before = *self;
            proof {
                Self::lemma_frame(start, before);
                assert(entry.incomplete_phis@.contains_key((block_id, var)));
                assert(entry.cur().instructions@[phi.0 as int] == before.cur().instructions@[phi.0 as int]);
                assert(entry.current_def@.contains_key((block_id, var)));
            }
            self.add_phi_operands(block_id, var, phi);
            proof {
                Self::lemma_step_trans(start, before, *self);
                Self::lemma_frame(before, *self);
                assert(shape(self.cur())[block_id.0 as int] == block_shape(self.cur().blocks@[block_id.0 as int]));
                assert(shape(before.cur())[block_id.0 as int] == block_shape(before.cur().blocks@[block_id.0 as int]));
                assert forall|a: int| 0 <= a < i + 1 implies phi_filled(
                    self.cur(),
                    self.current_def@,
                    block_id,
                    (#[trigger] entries@[a]).0,
                    entries@[a].1,
                ) by {
                    if a < i {
                        let pa = entries@[a].1;
                        assert(entry.incomplete_phis@.contains_key((block_id, entries@[a].0)));
                        assert(entries@[a].0 != var);
                        assert(pa != phi);
                        lemma_phi_filled_kept(before.cur(), self.cur(), before.current_def@, self.current_def@, block_id, entries@[a].0, pa);
                    }
                }
                assert forall|a: int| i + 1 <= a < n implies #[trigger] self.cur().instructions@[entries@[a].1.0 as int]
                    == entry.cur().instructions@[entries@[a].1.0 as int] by {
                    assert(entries@[a].0 != var);
                    assert(entry.incomplete_phis@.contains_key((block_id, entries@[a].0)));
                    assert(entries@[a].1 != phi);
                }
                assert forall|x: int|
                    0 <= x < entry.cur().instructions.len() && entry.cur().blocks@[entry.cur().instructions@[x].block.0 as int].sealed
                        implies #[trigger] self.cur().instructions@[x] == entry.cur().instructions@[x] by {
                    assert(entry.cur().instructions@[phi.0 as int].block == block_id);
                    if x == phi.0 {
                        assert(false);
                    }
                    assert(before.cur().instructions@[x] == entry.cur().instructions@[x]);
                }
                assert forall|k: (BasicBlockId, DeclarationId)| #[trigger] self.incomplete_phis@.contains_key(k) implies k.0 != block_id by {
                    if !before.incomplete_phis@.contains_key(k) {
                        assert(k.1 == var);
                        assert(before.current_def@.contains_key((block_id, var)));
                    }
                }
            }
            i = i + 1;
        }
        let ghost after_vars = *self;
        proof {
            Self::lemma_frame(start, after_vars);
        }
        let pending_mem = self.incomplete_memory_phis.remove(block_id);
        let ghost before_mem = *self;
        proof {
            Self::lemma_frame(after_vars, before_mem);
            assert(before_mem.ssa_wf());
            assert(cfg_mem_grows(before_mem.cur(), before_mem.cur()));
        }
        match pending_mem {
            Some(m) => {
                self.add_memory_phi_operands(block_id, m);
            },
            None => {
                proof {
                    lemma_mem_missing_mono(before_mem.current_memory_def@, before_mem.current_memory_def@, before_mem.cur().blocks.len() as nat);
                }
            },
        }
        let ghost before_seal = *self;
        proof {
            Self::lemma_frame(before_mem, before_seal);
        }
        self.bb_mut().sealed = true;
        proof {
            Self::lemma_frame(before_seal, *self);
            let (oc, nc) = (before_seal.cur(), self.cur());
            assert forall|x: int| 0 <= x < oc.blocks.len() implies {
                &&& (#[trigger] nc.blocks@[x]).id == oc.blocks@[x].id
                &&& nc.blocks@[x].instructions == oc.blocks@[x].instructions
                &&& nc.blocks@[x].predecessors == oc.blocks@[x].predecessors
            } by {
                if x != block_id.0 {
                    assert(nc.blocks@[x] == oc.blocks@[x]);
                }
            }
            Self::lemma_mem_only(oc, nc);
            assert(shape(nc) =~= sealed_shape(shape(oc), block_id.0 as int)) by {
                assert forall|x: int| 0 <= x < nc.blocks.len() implies #[trigger] shape(nc)[x] == sealed_shape(
                    shape(oc),
                    block_id.0 as int,
                )[x] by {
                    if x != block_id.0 {
                        assert(nc.blocks@[x] == oc.blocks@[x]);
                    }
                }
            }
            assert(shape(oc) == shape(entry.cur()));
            assert forall|v: DeclarationId| #[trigger] entry.incomplete_phis@.contains_key((block_id, v)) implies phi_filled(
                nc,
                self.current_def@,
                block_id,
                v,
                entry.incomplete_phis@[(block_id, v)],
            ) by {
                let a = choose|a: int| 0 <= a < entries@.len() && (#[trigger] entries@[a]).0 == v;
                assert(phi_filled(after_vars.cur(), after_vars.current_def@, block_id, v, entries@[a].1));
                assert(entry.incomplete_phis@[(block_id, v)] == entries@[a].1);
                lemma_phi_filled_kept(after_vars.cur(), nc, after_vars.current_def@, self.current_def@, block_id, v, entries@[a].1);
            }
            if let Some(m) = pending_mem {
                lemma_memory_phi_filled_kept(before_seal.cur(), nc, before_seal.current_memory_def@, self.current_memory_def@, block_id, m);
            }
            let b = block_id;
            assert(self.ssa_wf());
            assert(self.same_frame(entry));
            assert(nc.blocks@[b.0 as int].sealed);
            assert(shape(nc) == sealed_shape(shape(entry.cur()), b.0 as int));
            assert(defs_kept(entry.current_def@, self.current_def@));
            assert(mem_defs_kept(entry.current_memory_def@, self.current_memory_def@));
            assert(forall|k: (BasicBlockId, DeclarationId)| #[trigger] self.incomplete_phis@.contains_key(k) ==> k.0 != b);
            assert forall|k: (BasicBlockId, DeclarationId)| #[trigger] entry.incomplete_phis@.contains_key(k) && k.0 != b
                implies self.incomplete_phis@.contains_key(k) && self.incomplete_phis@[k] == entry.incomplete_phis@[k] by {
                assert(start.incomplete_phis@.contains_key(k));
                assert(after_vars.incomplete_phis@.contains_key(k));
                assert(before_seal.incomplete_phis@ == after_vars.incomplete_phis@);
            }
            assert(!self.incomplete_memory_phis@.contains_key(b));
            assert(nc.blocks.len() == entry.cur().blocks.len());
            assert(nc.entry_block == entry.cur().entry_block);
            assert(entry.incomplete_memory_phis@.contains_key(b) ==> memory_phi_filled(
                nc,
                self.current_memory_def@,
                b,
                entry.incomplete_memory_phis@[b],
            ));
            assert forall|k: BasicBlockId| #[trigger] entry.incomplete_memory_phis@.contains_key(k) && k != b
                implies self.incomplete_memory_phis@.contains_key(k) && self.incomplete_memory_phis@[k]
                == entry.incomplete_memory_phis@[k] by {
                assert(before_mem.incomplete_memory_phis@.contains_key(k));
            }
            assert(nc.next_memory_id + mem_missing(self.current_memory_def@, nc.blocks.len() as nat)
                <= entry.cur().next_memory_id + mem_missing(entry.current_memory_def@, entry.cur().blocks.len() as nat));
            assert forall|x: int| 0 <= x < entry.cur().blocks.len() implies (#[trigger] nc.blocks@[x]).terminator
                == entry.cur().blocks@[x].terminator by {
                assert(after_vars.cur().blocks@[x].terminator == entry.cur().blocks@[x].terminator);
                assert(before_mem.cur().blocks@[x].terminator == entry.cur().blocks@[x].terminator);
                assert(before_seal.cur().blocks@[x].terminator == entry.cur().blocks@[x].terminator);
                if x != b.0 {
                    assert(nc.blocks@[x] == oc.blocks@[x]);
                }
            }
            assert forall|x: int| #![trigger nc.only_phis_in(x)] 0 <= x < entry.cur().blocks.len() && entry.cur().only_phis_in(x)
                implies nc.only_phis_in(x) by {
                assert(after_vars.cur().only_phis_in(x));
                assert(before_mem.cur().only_phis_in(x));
                assert(before_seal.cur().only_phis_in(x)) by {
                    assert forall|k: int| 0 <= k < before_seal.cur().blocks@[x].instructions.len() implies crate::hir::instructions::is_phi_kind(
                        #[trigger] before_seal.cur().kind_at(x, k),
                    ) by {
                        assert(before_seal.cur().blocks@[x].instructions == before_mem.cur().blocks@[x].instructions);
                        assert(crate::hir::instructions::is_phi_kind(before_mem.cur().kind_at(x, k)));
                    }
                }
                assert forall|k: int| 0 <= k < nc.blocks@[x].instructions.len() implies crate::hir::instructions::is_phi_kind(
                    #[trigger] nc.kind_at(x, k),
                ) by {
                    assert(nc.blocks@[x].instructions == oc.blocks@[x].instructions);
                    assert(crate::hir::instructions::is_phi_kind(oc.kind_at(x, k)));
                }
            }
            assert(Self::sealed_from(entry, *self, block_id));
        }
    }

    /// The memory versions still to be handed out fit in a `usize`.
    pub open spec fn mem_budget(self) -> bool {
        self.cur().next_memory_id + mem_missing(self.current_memory_def@, self.cur().blocks.len() as nat)
            < usize::MAX
    }

    /// One step of the memory construction: well-formedness is kept, nothing
    /// outside the graph's memory phis and versions and the memory tables
    /// changes, and no memory version already recorded is lost or changed.
    pub open spec fn mem_step(old: Self, new: Self) -> bool {
        &&& new.ssa_wf()
        &&& new.same_frame(old)
        &&& cfg_mem_grows(old.cur(), new.cur())
        &&& mem_defs_kept(old.current_memory_def@, new.current_memory_def@)
        &&& pending_mem_grows(old.incomplete_memory_phis@, new.incomplete_memory_phis@, old.current_memory_def@)
        &&& new.current_def == old.current_def
        &&& new.incomplete_phis == old.incomplete_phis
        &&& new.cur().next_memory_id + mem_missing(new.current_memory_def@, new.cur().blocks.len() as nat)
            <= old.cur().next_memory_id + mem_missing(old.current_memory_def@, old.cur().blocks.len() as nat)
    }

    pub proof fn lemma_mem_step_trans(a: Self, b: Self, c: Self)
        requires
            a.ssa_wf(),
            Self::mem_step(a, b),
            Self::mem_step(b, c),
        ensures
            Self::mem_step(a, c),
    {
        Self::lemma_frame(a, b);
        Self::lemma_frame(b, c);
        assert forall|i: int| 0 <= i < a.program.cfgs.len() && i != a.pos() implies #[trigger] c.program.cfgs@[i] == a.program.cfgs@[i] by {
            assert(b.program.cfgs@[i] == a.program.cfgs@[i]);
        }
        let (ac, bc, cc) = (a.cur(), b.cur(), c.cur());
        assert forall|x: int| 0 <= x < ac.blocks.len() implies {
            &&& (#[trigger] cc.blocks@[x]).id == ac.blocks@[x].id
            &&& cc.blocks@[x].terminator == ac.blocks@[x].terminator
            &&& cc.blocks@[x].instructions == ac.blocks@[x].instructions
        } by {
            assert(bc.blocks@[x].id == ac.blocks@[x].id);
        }
    }

    /// A graph that differs from a well-formed one only in memory phis and the
    /// next memory version is well-formed.
    pub proof fn lemma_mem_only(old: FunctionCFG, new: FunctionCFG)
        requires
            old.wf(),
            new.blocks.len() == old.blocks.len(),
            forall|b: int| 0 <= b < old.blocks.len() ==> {
                &&& (#[trigger] new.blocks@[b]).id == old.blocks@[b].id
                &&& new.blocks@[b].instructions == old.blocks@[b].instructions
                &&& new.blocks@[b].predecessors == old.blocks@[b].predecessors
            },
            new.instructions == old.instructions,
            new.entry_block == old.entry_block,
            new.next_block_id == old.next_block_id,
            new.next_memory_id >= old.next_memory_id,
        ensures
            new.wf(),
    {
        assert forall|b: int, k: int| 0 <= b < new.blocks.len() && 0 <= k < new.blocks@[b].instructions.len()
            implies #[trigger] new.kind_at(b, k) == old.kind_at(b, k) by {
            assert(new.blocks@[b].instructions == old.blocks@[b].instructions);
        }
        assert(new.phis_first()) by {
            assert forall|b: int, k1: int, k2: int|
                0 <= b < new.blocks.len() && 0 <= k1 < k2 < new.blocks@[b].instructions.len()
                    && is_phi_kind(#[trigger] new.kind_at(b, k2)) implies is_phi_kind(
                    #[trigger] new.kind_at(b, k1),
                ) by {
                assert(new.kind_at(b, k1) == old.kind_at(b, k1));
                assert(new.kind_at(b, k2) == old.kind_at(b, k2));
                assert(new.blocks@[b].instructions == old.blocks@[b].instructions);
            }
        }
        assert forall|b: int, k: int|
            0 <= b < new.blocks.len() && 0 <= k < new.blocks@[b].instructions.len() implies {
                let id = #[trigger] new.blocks@[b].instructions@[k];
                &&& id.0 < new.instructions.len()
                &&& new.instructions@[id.0 as int].block.0 == b
            } by {
            assert(new.blocks@[b].instructions == old.blocks@[b].instructions);
            assert(new.blocks@[b].instructions@[k] == old.blocks@[b].instructions@[k]);
        }
        assert forall|b: int| 0 <= b < new.blocks.len() implies crate::hir::instructions::strictly_ascending(
            #[trigger] new.blocks@[b].predecessors@,
        ) by {
            assert(new.blocks@[b].predecessors == old.blocks@[b].predecessors);
        }
        assert forall|b: int, p: int|
            0 <= b < new.blocks.len() && 0 <= p < new.blocks@[b].predecessors.len()
                implies (#[trigger] new.blocks@[b].predecessors@[p]).0 < new.blocks.len() by {
            assert(new.blocks@[b].predecessors == old.blocks@[b].predecessors);
        }
    }

    /// `new` is `old` where the memory version at the end of `block` is
    /// `mem`.
    pub open spec fn memory_written(old: Self, new: Self, block: BasicBlockId, mem: MemoryId) -> bool {
        new.current_memory_def@ == old.current_memory_def@.insert(block, mem)
    }

    /// Reading the memory version at the end of `block` in `old` gave `mem`
    /// and left `new`: `new` records `mem` there, and where `old` already
    /// knew the version it is `mem` and nothing changed.
    /// Every memory version recorded for a block is one the graph has handed
    /// out.
    pub open spec fn mem_versions_issued(self) -> bool {
        forall|k: BasicBlockId| #[trigger] self.current_memory_def@.contains_key(k)
            ==> self.current_memory_def@[k].0 < self.cur().next_memory_id
    }

    pub open spec fn memory_read(old: Self, new: Self, block: BasicBlockId, mem: MemoryId) -> bool {
        &&& new.current_memory_def@.contains_key(block)
        &&& new.current_memory_def@[block] == mem
        &&& old.current_memory_def@.contains_key(block) ==> mem == old.current_memory_def@[block] && new == old
    }

    /// A read of the memory version gives back the version last written for
    /// that block, and changes nothing.
    pub proof fn law_read_memory_after_write(
        before: Self,
        written: Self,
        read: Self,
        block: BasicBlockId,
        mem: MemoryId,
        got: MemoryId,
    )
        requires
            Self::memory_written(before, written, block, mem),
            Self::memory_read(written, read, block, got),
        ensures
            got == mem,
            read == written,
    {
    }

    /// What a read of the memory version of `block`, where `old` records
    /// none, gives and does: in a block that is not sealed, a fresh version
    /// waiting as the block's memory phi; in a sealed block with one
    /// predecessor, the version read at that predecessor; otherwise a fresh
    /// version whose memory phi in the block has one source per predecessor,
    /// each the version read there.
    pub open spec fn memory_looked_up(old: Self, new: Self, block: BasicBlockId, mem: MemoryId) -> bool {
        let ob = old.cur().blocks@[block.0 as int];
        if !ob.sealed {
            &&& mem.0 == old.cur().next_memory_id
            &&& new.incomplete_memory_phis@ == old.incomplete_memory_phis@.insert(block, mem)
        } else if ob.predecessors@.len() == 1 {
            &&& new.current_memory_def@.contains_key(ob.predecessors@[0])
            &&& mem == new.current_memory_def@[ob.predecessors@[0]]
        } else {
            &&& mem.0 == old.cur().next_memory_id
            &&& memory_phi_filled(new.cur(), new.current_memory_def@, block, mem)
        }
    }

    /// Records `mem` as the memory version at the end of `block`.
    pub fn write_memory(&mut self, block: BasicBlockId, mem: MemoryId)
        requires
            old(self).current_memory_def.wf(),
        ensures
            final(self).current_memory_def.wf(),
            Self::memory_written(*old(self), *final(self), block, mem),
            final(self).context == old(self).context,
            final(self).program == old(self).program,
            final(self).errors == old(self).errors,
            final(self).current_scope == old(self).current_scope,
            final(self).globals == old(self).globals,
            final(self).current_def == old(self).current_def,
            final(self).incomplete_phis == old(self).incomplete_phis,
            final(self).incomplete_memory_phis == old(self).incomplete_memory_phis,
    {
        self.current_memory_def.insert(block, mem);
    }

    /// Looks up the memory version at the end of `block`, creating memory phis
    /// where control flow merges.
    pub fn read_memory(&mut self, block: BasicBlockId) -> (mem: MemoryId)
        requires
            old(self).ssa_wf(),
            old(self).mem_budget(),
            old(self).cur().has_block(block),
        ensures
            Self::mem_step(*old(self), *final(self)),
            Self::memory_read(*old(self), *final(self), block, mem),
            !old(self).current_memory_def@.contains_key(block) ==> Self::memory_looked_up(*old(self), *final(self), block, mem),
        decreases
            mem_missing(old(self).current_memory_def@, old(self).cur().blocks.len() as nat),
            depth(shape(old(self).cur()), block.0 as int),
            2nat,
    {
        if let Some(mem) = self.current_memory_def.get(block) {
            proof {
                Self::lemma_frame(*self, *self);
                assert(cfg_mem_grows(self.cur(), self.cur()));
            }
            return mem;
        }
        self.read_memory_recursive(block)
    }

    /// Looks up the memory version of `block`, which has none yet.
    fn read_memory_recursive(&mut self, block: BasicBlockId) -> (mem: MemoryId)
        requires
            old(self).ssa_wf(),
            old(self).mem_budget(),
            old(self).cur().has_block(block),
            !old(self).current_memory_def@.contains_key(block),
        ensures
            Self::mem_step(*old(self), *final(self)),
            final(self).current_memory_def@.contains_key(block),
            final(self).current_memory_def@[block] == mem,
            Self::memory_looked_up(*old(self), *final(self), block, mem),
        decreases
            mem_missing(old(self).current_memory_def@, old(self).cur().blocks.len() as nat),
            depth(shape(old(self).cur()), block.0 as int),
            1nat,
    {
        let ghost entry = *self;
        let ghost nblocks = entry.cur().blocks.len() as nat;
        proof {
            assert forall|k: BasicBlockId| #[trigger] entry.current_memory_def@.contains_key(k) implies
                entry.current_memory_def@.insert(block, MemoryId(0)).contains_key(k) by {}
            lemma_mem_missing_strict(
                entry.current_memory_def@,
                entry.current_memory_def@.insert(block, MemoryId(0)),
                nblocks,
                block.0 as int,
            );
        }
        let is_sealed = self.get_bb(block).sealed;
        if !is_sealed {
            let phi_id = self.cfg_mut().new_memory_id();
            self.incomplete_memory_phis.insert(block, phi_id);
            self.write_memory(block, phi_id);
            proof {
                Self::lemma_frame(entry, *self);
                Self::lemma_mem_only(entry.cur(), self.cur());
                lemma_shape_eq(self.cur(), entry.cur());
                assert(cfg_mem_grows(entry.cur(), self.cur()));
                lemma_mem_missing_strict(entry.current_memory_def@, self.current_memory_def@, nblocks, block.0 as int);
            }
            return phi_id;
        }
        let npreds = self.get_bb(block).predecessors.len();
        if npreds == 1 {
            let pred = self.get_bb(block).predecessors[0];
            proof {
                assert(forwards(shape(entry.cur()), block.0 as int));
                assert(shape(entry.cur())[block.0 as int].1[0] == pred);
                assert(pred.0 < entry.cur().blocks.len());
                lemma_depth_step(shape(entry.cur()), block.0 as int);
            }
            let mem = self.read_memory(pred);
            let ghost mid = *self;
            self.write_memory(block, mem);
            proof {
                Self::lemma_frame(entry, mid);
                Self::lemma_frame(mid, *self);
                assert forall|k: BasicBlockId| #[trigger] entry.current_memory_def@.contains_key(k) implies self.current_memory_def@.contains_key(k)
                    && self.current_memory_def@[k] == entry.current_memory_def@[k] by {
                    assert(mid.current_memory_def@.contains_key(k));
                }
                assert forall|k: BasicBlockId| #[trigger] mid.current_memory_def@.contains_key(k) implies
                    self.current_memory_def@.contains_key(k) by {}
                lemma_mem_missing_mono(mid.current_memory_def@, self.current_memory_def@, nblocks);
                assert(cfg_mem_grows(entry.cur(), self.cur()));
                assert(Self::mem_step(entry, *self));
            }
            return mem;
        }
        let phi_id = self.cfg_mut().new_memory_id();
        self.write_memory(block, phi_id);
        let ghost mid = *self;
        proof {
            Self::lemma_frame(entry, mid);
            Self::lemma_mem_only(entry.cur(), mid.cur());
            lemma_shape_eq(mid.cur(), entry.cur());
            lemma_mem_missing_strict(entry.current_memory_def@, mid.current_memory_def@, nblocks, block.0 as int);
            assert(Self::mem_step(entry, mid));
        }
        self.add_memory_phi_operands(block, phi_id);
        proof {
            Self::lemma_mem_step_trans(entry, mid, *self);
            assert(mid.current_memory_def@.contains_key(block));
        }
        phi_id
    }

    /// Records, as the sources of memory phi `phi_id` of `block`, the memory
    /// version at the end of each predecessor, ascending.
    fn add_memory_phi_operands(&mut self, block: BasicBlockId, phi_id: MemoryId)
        requires
            old(self).ssa_wf(),
            old(self).mem_budget(),
            old(self).cur().has_block(block),
        ensures
            Self::mem_step(*old(self), *final(self)),
            memory_phi_filled(final(self).cur(), final(self).current_memory_def@, block, phi_id),
        decreases
            mem_missing(old(self).current_memory_def@, old(self).cur().blocks.len() as nat) + 1,
            0nat,
            0nat,
    {
        let ghost entry = *self;
        let ghost nblocks = entry.cur().blocks.len() as nat;
        let ghost preds = entry.cur().blocks@[block.0 as int].predecessors@;
        let npreds = self.get_bb(block).predecessors.len();
        let mut sources: Vec<MemoryPhiSource> = Vec::new();
        let mut k: usize = 0;
        proof {
            Self::lemma_frame(entry, entry);
            assert(cfg_mem_grows(entry.cur(), entry.cur()));
        }
        while k < npreds
            invariant
                entry == *old(self),
                entry.ssa_wf(),
                entry.mem_budget(),
                Self::mem_step(entry, *self),
                entry.cur().has_block(block),
                nblocks == entry.cur().blocks.len(),
                preds == entry.cur().blocks@[block.0 as int].predecessors@,
                npreds == preds.len(),
                k <= npreds,
                sources@.len() == k,
                forall|j: int| 0 <= j < k ==> {
                    &&& (#[trigger] sources@[j]).block == preds[j]
                    &&& self.current_memory_def@.contains_key(preds[j])
                    &&& sources@[j].memory == self.current_memory_def@[preds[j]]
                },
            decreases npreds - k,
        {
            let ghost before = *self;
            proof {
                Self::lemma_frame(entry, before);
                assert(shape(before.cur()) == shape(entry.cur()));
                assert(shape(before.cur())[block.0 as int] == block_shape(before.cur().blocks@[block.0 as int]));
                assert(shape(entry.cur())[block.0 as int] == block_shape(entry.cur().blocks@[block.0 as int]));
                assert(before.cur().blocks@[block.0 as int].predecessors@ == preds);
                assert forall|key: BasicBlockId| #[trigger] entry.current_memory_def@.contains_key(key) implies before.current_memory_def@.contains_key(key) by {}
                lemma_mem_missing_mono(entry.current_memory_def@, before.current_memory_def@, nblocks);
                assert(before.cur().blocks.len() == nblocks);
            }
            let pred = self.get_bb(block).predecessors[k];
            proof {
                assert(pred == preds[k as int]);
                assert(pred.0 < before.cur().blocks.len());
            }
            let mem = self.read_memory(pred);
            let ghost old_sources = sources@;
            sources.push(MemoryPhiSource { block: pred, memory: mem });
            proof {
                Self::lemma_mem_step_trans(entry, before, *self);
                assert forall|j: int| 0 <= j < k + 1 implies {
                    &&& (#[trigger] sources@[j]).block == preds[j]
                    &&& self.current_memory_def@.contains_key(preds[j])
                    &&& sources@[j].memory == self.current_memory_def@[preds[j]]
                } by {
                    if j < k {
                        assert(sources@[j] == old_sources[j]);
                        assert(old_sources[j].block == preds[j]);
                        assert(before.current_memory_def@.contains_key(preds[j]));
                    }
                }
            }
            k = k + 1;
        }
        let ghost before = *self;
        let ghost final_sources = sources@;
        proof {
            Self::lemma_frame(entry, before);
        }
        self.get_bb_mut(block).insert_memory_phi(phi_id, sources);
        proof {
            Self::lemma_frame(before, *self);
            let (bc, nc) = (before.cur(), self.cur());
            assert forall|b: int| 0 <= b < bc.blocks.len() implies {
                &&& (#[trigger] nc.blocks@[b]).id == bc.blocks@[b].id
                &&& nc.blocks@[b].instructions == bc.blocks@[b].instructions
                &&& nc.blocks@[b].predecessors == bc.blocks@[b].predecessors
            } by {
                if b != block.0 {
                    assert(nc.blocks@[b] == bc.blocks@[b]);
                }
            }
            Self::lemma_mem_only(bc, nc);
            assert forall|i: int| 0 <= i < bc.blocks.len() implies (#[trigger] nc.blocks@[i]).sealed == bc.blocks@[i].sealed
                && nc.blocks@[i].predecessors@ == bc.blocks@[i].predecessors@ by {
                if i != block.0 {
                    assert(nc.blocks@[i] == bc.blocks@[i]);
                }
            }
            lemma_shape_eq(nc, bc);
            assert forall|b: int| 0 <= b < bc.blocks.len() implies {
                &&& (#[trigger] nc.blocks@[b]).id == bc.blocks@[b].id
                &&& nc.blocks@[b].terminator == bc.blocks@[b].terminator
                &&& nc.blocks@[b].instructions == bc.blocks@[b].instructions
            } by {
                if b != block.0 {
                    assert(nc.blocks@[b] == bc.blocks@[b]);
                }
            }
            assert(cfg_mem_grows(bc, nc));
            assert forall|key: (BasicBlockId, DeclarationId)| #[trigger] self.incomplete_phis@.contains_key(key) implies {
                &&& self.incomplete_phis@[key].0 < nc.instructions.len()
                &&& is_phi_kind(nc.instructions@[self.incomplete_phis@[key].0 as int].kind)
            } by {}
            assert(Self::mem_step(before, *self));
            Self::lemma_mem_step_trans(entry, before, *self);
            // The memory phi now holds the collected sources.
            let nb = nc.blocks@[block.0 as int];
            assert(nb.predecessors@ == preds) by {
                assert(shape(bc)[block.0 as int] == block_shape(bc.blocks@[block.0 as int]));
                assert(shape(entry.cur())[block.0 as int] == block_shape(entry.cur().blocks@[block.0 as int]));
            }
            let i = choose|i: int| #[trigger] nb.first_memory_phi(phi_id, i) && nb.memory_phis@[i].id == phi_id
                && nb.memory_phis@[i].sources@ == final_sources;
            assert(memory_phi_at(nb, phi_id, i, final_sources));
            assert(memory_phi_filled(nc, self.current_memory_def@, block, phi_id));
        }
    }
}

/// Position `i` is the first memory phi `id` of block `b`, and its sources
/// are `sources`.
pub open spec fn memory_phi_at(b: BasicBlock, id: MemoryId, i: int, sources: Seq<MemoryPhiSource>) -> bool {
    &&& b.first_memory_phi(id, i)
    &&& b.memory_phis@[i].sources@ == sources
}

/// Memory phi `phi` of `block` has one source per predecessor, in the order of
/// the predecessors, each the memory version at the end of that predecessor.
pub open spec fn memory_phi_filled(
    cfg: FunctionCFG,
    defs: Map<BasicBlockId, MemoryId>,
    block: BasicBlockId,
    phi: MemoryId,
) -> bool {
    let b = cfg.blocks@[block.0 as int];
    let preds = b.predecessors@;
    exists|i: int| {
        &&& #[trigger] b.first_memory_phi(phi, i)
        &&& b.memory_phis@[i].sources@.len() == preds.len()
        &&& forall|k: int| 0 <= k < preds.len() ==> {
            &&& (#[trigger] b.memory_phis@[i].sources@[k]).block == preds[k]
            &&& defs.contains_key(preds[k])
            &&& b.memory_phis@[i].sources@[k].memory == defs[preds[k]]
        }
    }
}

/// A phi whose operands are `sources`, one per predecessor of its block and
/// each the definition of `var` there, is filled.
pub proof fn lemma_phi_filled(
    cfg: FunctionCFG,
    defs: Map<(BasicBlockId, DeclarationId), InstrId>,
    block: BasicBlockId,
    var: DeclarationId,
    phi: InstrId,
    sources: Seq<PhiSource>,
)
    requires
        cfg.instructions@[phi.0 as int].kind matches InstructionKind::Phi(p) && p.sources@ == sources,
        sources.len() == cfg.blocks@[block.0 as int].predecessors@.len(),
        forall|j: int| 0 <= j < sources.len() ==> {
            let pred = cfg.blocks@[block.0 as int].predecessors@[j];
            &&& (#[trigger] sources[j]).block == pred
            &&& defs.contains_key((pred, var))
            &&& sources[j].value == defs[(pred, var)]
        },
    ensures
        phi_filled(cfg, defs, block, var, phi),
{
}

/// A filled phi stays filled while its instruction, the predecessors of its
/// block and the definitions it reads stay.
pub proof fn lemma_phi_filled_kept(
    c1: FunctionCFG,
    c2: FunctionCFG,
    d1: Map<(BasicBlockId, DeclarationId), InstrId>,
    d2: Map<(BasicBlockId, DeclarationId), InstrId>,
    block: BasicBlockId,
    var: DeclarationId,
    phi: InstrId,
)
    requires
        phi_filled(c1, d1, block, var, phi),
        c2.instructions@[phi.0 as int] == c1.instructions@[phi.0 as int],
        c2.blocks@[block.0 as int].predecessors@ == c1.blocks@[block.0 as int].predecessors@,
        defs_kept(d1, d2),
    ensures
        phi_filled(c2, d2, block, var, phi),
{
    let preds = c1.blocks@[block.0 as int].predecessors@;
    if let InstructionKind::Phi(p) = c1.instructions@[phi.0 as int].kind {
        assert forall|k: int| 0 <= k < preds.len() implies {
            &&& (#[trigger] p.sources@[k]).block == preds[k]
            &&& d2.contains_key((preds[k], var))
            &&& p.sources@[k].value == d2[(preds[k], var)]
        } by {
            assert(p.sources@[k].block == preds[k]);
            assert(d1.contains_key((preds[k], var)));
        }
    }
}

/// A filled memory phi stays filled while its block keeps its memory phis and
/// predecessors and the memory versions it reads stay.
pub proof fn lemma_memory_phi_filled_kept(
    c1: FunctionCFG,
    c2: FunctionCFG,
    d1: Map<BasicBlockId, MemoryId>,
    d2: Map<BasicBlockId, MemoryId>,
    block: BasicBlockId,
    phi: MemoryId,
)
    requires
        memory_phi_filled(c1, d1, block, phi),
        c2.blocks@[block.0 as int].memory_phis == c1.blocks@[block.0 as int].memory_phis,
        c2.blocks@[block.0 as int].predecessors@ == c1.blocks@[block.0 as int].predecessors@,
        mem_defs_kept(d1, d2),
    ensures
        memory_phi_filled(c2, d2, block, phi),
{
    let b1 = c1.blocks@[block.0 as int];
    let b2 = c2.blocks@[block.0 as int];
    let i = choose|i: int| {
        &&& #[trigger] b1.first_memory_phi(phi, i)
        &&& b1.memory_phis@[i].sources@.len() == b1.predecessors@.len()
        &&& forall|k: int| 0 <= k < b1.predecessors@.len() ==> {
            &&& (#[trigger] b1.memory_phis@[i].sources@[k]).block == b1.predecessors@[k]
            &&& d1.contains_key(b1.predecessors@[k])
            &&& b1.memory_phis@[i].sources@[k].memory == d1[b1.predecessors@[k]]
        }
    };
    assert(b2.first_memory_phi(phi, i));
    assert forall|k: int| 0 <= k < b2.predecessors@.len() implies {
        &&& (#[trigger] b2.memory_phis@[i].sources@[k]).block == b2.predecessors@[k]
        &&& d2.contains_key(b2.predecessors@[k])
        &&& b2.memory_phis@[i].sources@[k].memory == d2[b2.predecessors@[k]]
    } by {
        assert(b2.memory_phis@[i] == b1.memory_phis@[i]);
        assert(b1.memory_phis@[i].sources@[k].block == b1.predecessors@[k]);
        assert(d1.contains_key(b1.predecessors@[k]));
    }
}

/// Phi `phi` of `block` has one operand per predecessor, in the order of the
/// predecessors, each the definition of `var` at the end of that predecessor.
pub open spec fn phi_filled(
    cfg: FunctionCFG,
    defs: Map<(BasicBlockId, DeclarationId), InstrId>,
    block: BasicBlockId,
    var: DeclarationId,
    phi: InstrId,
) -> bool {
    let preds = cfg.blocks@[block.0 as int].predecessors@;
    &&& cfg.instructions@[phi.0 as int].kind matches InstructionKind::Phi(p)
    &&& p.sources@.len() == preds.len()
    &&& forall|k: int| 0 <= k < preds.len() ==> {
        &&& (#[trigger] p.sources@[k]).block == preds[k]
        &&& defs.contains_key((preds[k], var))
        &&& p.sources@[k].value == defs[(preds[k], var)]
    }
}

} // verus!
