use vstd::prelude::*;

use crate::ast::type_annotation::TypeAnnotation;
use crate::ast::Span;
use crate::hir::builders::ssa::{
    acyclic, block_shape, cfg_mem_grows, lemma_mem_missing_mono, mem_missing, pending_mem_grows, shape,
};
use crate::hir::builders::control_flow::{lemma_same_edges, preds_terminated};
use crate::hir::builders::{Builder, InBlock};
use crate::hir::instructions::{
    AllocationId, BasicBlockId, InstrDefinition, InstrId, InstructionKind, MemoryId, MemoryInstr, MemoryLocation,
};

verus! {

impl Builder<InBlock> {
    /// The memory versions needed by the construction so far, plus `extra`
    /// more, fit in a `usize`.
    pub open spec fn mem_room(self, extra: nat) -> bool {
        self.cur().next_memory_id + mem_missing(self.current_memory_def@, self.cur().blocks.len() as nat) + extra
            < usize::MAX
    }

    /// `mem_in` is the memory version that reading the current block of
    /// `old` gives, as far as the later state `new` shows it: the version
    /// recorded there if `old` has one; in a sealed block with one
    /// predecessor, the version `new` records at that predecessor; otherwise
    /// the next fresh version, which in a block that is not sealed waits as
    /// its memory phi, and in a sealed one is a memory phi of the block with
    /// one source per predecessor.
    pub open spec fn memory_in_read(old: Self, new: Self, mem_in: MemoryId) -> bool {
        let c = old.context.block_id;
        let b = old.cur().blocks@[c.0 as int];
        let nb = new.cur().blocks@[c.0 as int];
        if old.current_memory_def@.contains_key(c) {
            mem_in == old.current_memory_def@[c]
        } else if b.sealed && b.predecessors@.len() == 1 {
            &&& b.predecessors@[0] != c
            &&& new.current_memory_def@.contains_key(b.predecessors@[0])
            &&& mem_in == new.current_memory_def@[b.predecessors@[0]]
        } else {
            &&& mem_in.0 == old.cur().next_memory_id
            &&& !b.sealed ==> new.incomplete_memory_phis@.contains_key(c) && new.incomplete_memory_phis@[c] == mem_in
            &&& b.sealed ==> exists|i: int|
                #[trigger] nb.first_memory_phi(mem_in, i) && nb.memory_phis@[i].sources@.len() == nb.predecessors@.len()
                    && forall|k: int| 0 <= k < nb.predecessors@.len() ==> (#[trigger] nb.memory_phis@[i].sources@[k]).block
                    == nb.predecessors@[k]
        }
    }

    /// A read of the memory version of the current block of `old`, leaving
    /// `new`, gave `mem` as `memory_in_read` says of `new`.
    pub proof fn lemma_memory_in_read(old: Self, new: Self, mem: MemoryId)
        requires
            old.ssa_wf(),
            Self::memory_read(old, new, old.context.block_id, mem),
            !old.current_memory_def@.contains_key(old.context.block_id) ==> Self::memory_looked_up(
                old,
                new,
                old.context.block_id,
                mem,
            ),
            Self::mem_step(old, new),
        ensures
            Self::memory_in_read(old, new, mem),
    {
        let block = old.context.block_id;
        let c = block.0 as int;
        let (oc, nc) = (old.cur(), new.cur());
        let b = oc.blocks@[c];
        if !old.current_memory_def@.contains_key(block) {
            if b.sealed && b.predecessors@.len() == 1 {
                assert(shape(oc)[c] == block_shape(b));
                assert(crate::hir::builders::ssa::forwards(shape(oc), c));
                crate::hir::builders::ssa::lemma_depth_step(shape(oc), c);
            } else if b.sealed {
                assert(shape(nc)[c] == block_shape(nc.blocks@[c]));
                assert(shape(oc)[c] == block_shape(oc.blocks@[c]));
            }
        }
    }

    /// The memory effect of one instruction that reads and then changes
    /// memory: from `old` to `new`, the current block's memory version went
    /// from `mem_in` to the fresh version `mem_out`.
    pub open spec fn memory_advanced(old: Self, new: Self, mem_in: MemoryId, mem_out: MemoryId) -> bool {
        let c = old.context.block_id;
        &&& new.ssa_wf()
        &&& new.same_frame(old)
        &&& new.current_def == old.current_def
        &&& new.incomplete_phis == old.incomplete_phis
        &&& cfg_mem_grows(old.cur(), new.cur())
        &&& (old.current_memory_def@.contains_key(c) ==> mem_in == old.current_memory_def@[c])
        &&& mem_out.0 >= old.cur().next_memory_id
        &&& new.cur().next_memory_id == mem_out.0 + 1
        &&& new.current_memory_def@.contains_key(c)
        &&& new.current_memory_def@[c] == mem_out
        &&& forall|k: BasicBlockId| #[trigger] old.current_memory_def@.contains_key(k) && k != c
            ==> new.current_memory_def@.contains_key(k) && new.current_memory_def@[k] == old.current_memory_def@[k]
        &&& pending_mem_grows(old.incomplete_memory_phis@, new.incomplete_memory_phis@, old.current_memory_def@)
        &&& new.cur().next_memory_id + mem_missing(new.current_memory_def@, new.cur().blocks.len() as nat)
            <= old.cur().next_memory_id + mem_missing(old.current_memory_def@, old.cur().blocks.len() as nat) + 1
        &&& (old.build_wf() ==> new.build_wf())
        &&& (old.open_block() ==> new.open_block())
        &&& mem_in.0 < mem_out.0
        &&& Self::memory_in_read(old, new, mem_in)
    }

    /// Reads the memory version of the current block and replaces it by a
    /// fresh one; returns both.
    pub(crate) fn advance_memory(&mut self) -> (res: (MemoryId, MemoryId))
        requires
            old(self).ssa_wf(),
            old(self).mem_room(1),
        ensures
            Self::memory_advanced(*old(self), *final(self), res.0, res.1),
    {
        let ghost entry = *self;
        let block = self.context.block_id;
        let memory_in = self.read_memory(block);
        let ghost mid = *self;
        proof {
            Self::lemma_frame(entry, mid);
        }
        let memory_out = self.cfg_mut().new_memory_id();
        self.write_memory(block, memory_out);
        proof {
            Self::lemma_frame(mid, *self);
            let (oc, mc, nc) = (entry.cur(), mid.cur(), self.cur());
            Self::lemma_mem_only(mc, nc);
            assert forall|i: int| 0 <= i < mc.blocks.len() implies (#[trigger] nc.blocks@[i]).sealed == mc.blocks@[i].sealed
                && nc.blocks@[i].predecessors@ == mc.blocks@[i].predecessors@ by {}
            crate::hir::builders::ssa::lemma_shape_eq(nc, mc);
            assert forall|k: BasicBlockId| #[trigger] mid.current_memory_def@.contains_key(k) implies self.current_memory_def@.contains_key(k) by {}
            lemma_mem_missing_mono(mid.current_memory_def@, self.current_memory_def@, nc.blocks.len() as nat);
            assert forall|k: BasicBlockId| #[trigger] self.current_memory_def@.contains_key(k) implies mid.current_memory_def@.contains_key(k) by {}
            lemma_mem_missing_mono(self.current_memory_def@, mid.current_memory_def@, nc.blocks.len() as nat);
            assert forall|x: int| 0 <= x < oc.blocks.len() implies (#[trigger] nc.blocks@[x]).predecessors@ == oc.blocks@[x].predecessors@
                && nc.blocks@[x].terminator == oc.blocks@[x].terminator by {
                assert(shape(mc)[x] == block_shape(mc.blocks@[x]));
                assert(shape(oc)[x] == block_shape(oc.blocks@[x]));
            }
            lemma_same_edges(oc, nc);
            let c = block.0 as int;
            let b = oc.blocks@[c];
            if !entry.current_memory_def@.contains_key(block) {
                if b.sealed && b.predecessors@.len() == 1 {
                    assert(shape(oc)[c] == block_shape(b));
                    assert(crate::hir::builders::ssa::forwards(shape(oc), c));
                    crate::hir::builders::ssa::lemma_depth_step(shape(oc), c);
                    assert(b.predecessors@[0] != block);
                } else if b.sealed {
                    assert(shape(mc)[c] == block_shape(mc.blocks@[c]));
                    assert(shape(oc)[c] == block_shape(oc.blocks@[c]));
                    assert(nc.blocks@[c] == mc.blocks@[c]);
                }
            }
            assert(Self::memory_in_read(entry, *self, memory_in));
        }
        (memory_in, memory_out)
    }

    /// From `old` to `new`, instruction `instr` was appended to the current
    /// block as `id`; before that, the memory version of the block was read
    /// as `mem_in` and, where `changes`, replaced by the fresh `mem_out`.
    pub open spec fn memory_pushed(
        old: Self,
        new: Self,
        changes: bool,
        mem_in: MemoryId,
        mem_out: MemoryId,
        instr: InstrDefinition,
        id: InstrId,
    ) -> bool {
        let c = old.context.block_id;
        let oc = old.cur();
        let nc = new.cur();
        &&& new.ssa_wf()
        &&& new.same_frame(old)
        &&& new.current_def == old.current_def
        &&& new.incomplete_phis == old.incomplete_phis
        &&& (old.current_memory_def@.contains_key(c) ==> mem_in == old.current_memory_def@[c])
        &&& new.current_memory_def@.contains_key(c)
        &&& (changes ==> {
            &&& mem_out.0 >= oc.next_memory_id
            &&& nc.next_memory_id == mem_out.0 + 1
            &&& new.current_memory_def@[c] == mem_out
        })
        &&& (!changes ==> new.current_memory_def@[c] == mem_in)
        &&& (changes ==> mem_in.0 < mem_out.0)
        &&& Self::memory_in_read(old, new, mem_in)
        &&& nc.next_memory_id >= oc.next_memory_id
        &&& forall|k: BasicBlockId| #[trigger] old.current_memory_def@.contains_key(k) && k != c
            ==> new.current_memory_def@.contains_key(k) && new.current_memory_def@[k] == old.current_memory_def@[k]
        &&& pending_mem_grows(old.incomplete_memory_phis@, new.incomplete_memory_phis@, old.current_memory_def@)
        &&& nc.next_memory_id + mem_missing(new.current_memory_def@, nc.blocks.len() as nat)
            <= oc.next_memory_id + mem_missing(old.current_memory_def@, oc.blocks.len() as nat) + if changes { 1nat } else { 0nat }
        &&& id.0 == oc.instructions.len()
        &&& nc.instructions@ == oc.instructions@.push(instr)
        &&& nc.blocks.len() == oc.blocks.len()
        &&& forall|b: int| 0 <= b < oc.blocks.len() ==> {
            &&& (#[trigger] nc.blocks@[b]).id == oc.blocks@[b].id
            &&& nc.blocks@[b].predecessors@ == oc.blocks@[b].predecessors@
            &&& nc.blocks@[b].terminator == oc.blocks@[b].terminator
            &&& nc.blocks@[b].sealed == oc.blocks@[b].sealed
            &&& nc.blocks@[b].instructions@ == if b == c.0 {
                oc.blocks@[b].instructions@.push(id)
            } else {
                oc.blocks@[b].instructions@
            }
        }
        &&& nc.entry_block == oc.entry_block
        &&& nc.next_block_id == oc.next_block_id
        &&& (old.build_wf() ==> new.build_wf())
        &&& new.open_block()
    }

    /// Appends `kind` after reading the memory version of the current block,
    /// which the instruction consumes.
    pub(crate) proof fn lemma_memory_pushed(
        old: Self,
        mid: Self,
        new: Self,
        changes: bool,
        mem_in: MemoryId,
        mem_out: MemoryId,
        instr: InstrDefinition,
        id: InstrId,
    )
        requires
            old.ssa_wf(),
            old.open_block(),
            changes ==> Self::memory_advanced(old, mid, mem_in, mem_out),
            !changes ==> Self::memory_in_read(old, mid, mem_in),
            !changes ==> Self::mem_step(old, mid) && mid.current_memory_def@.contains_key(old.context.block_id)
                && mid.current_memory_def@[old.context.block_id] == mem_in && (old.current_memory_def@.contains_key(
                old.context.block_id,
            ) ==> mem_in == old.current_memory_def@[old.context.block_id]),
            mid.open_block(),
            mid.build_wf() || !old.build_wf(),
            Self::pushed(mid, new, instr, id),
        ensures
            Self::memory_pushed(old, new, changes, mem_in, mem_out, instr, id),
    {
        Self::lemma_frame(old, mid);
        Self::lemma_frame(mid, new);
        let (oc, mc, nc) = (old.cur(), mid.cur(), new.cur());
        assert(Self::memory_in_read(old, new, mem_in)) by {
            let cb = old.context.block_id;
            let c = cb.0 as int;
            let (b, mb, nb) = (oc.blocks@[c], mc.blocks@[c], nc.blocks@[c]);
            assert(nb.memory_phis == mb.memory_phis);
            assert(nb.predecessors == mb.predecessors);
            assert(Self::memory_in_read(old, mid, mem_in));
            if !old.current_memory_def@.contains_key(cb) && b.sealed && b.predecessors@.len() != 1 {
                let i = choose|i: int|
                    #[trigger] mb.first_memory_phi(mem_in, i) && mb.memory_phis@[i].sources@.len() == mb.predecessors@.len()
                        && forall|k: int| 0 <= k < mb.predecessors@.len() ==> (#[trigger] mb.memory_phis@[i].sources@[k]).block
                        == mb.predecessors@[k];
                assert(nb.first_memory_phi(mem_in, i));
            }
        }
        let c = old.context.block_id.0 as int;
        assert forall|b: int| 0 <= b < oc.blocks.len() implies {
            &&& (#[trigger] nc.blocks@[b]).id == oc.blocks@[b].id
            &&& nc.blocks@[b].predecessors@ == oc.blocks@[b].predecessors@
            &&& nc.blocks@[b].terminator == oc.blocks@[b].terminator
            &&& nc.blocks@[b].sealed == oc.blocks@[b].sealed
            &&& nc.blocks@[b].instructions@ == if b == c {
                oc.blocks@[b].instructions@.push(id)
            } else {
                oc.blocks@[b].instructions@
            }
        } by {
            assert(shape(mc)[b] == block_shape(mc.blocks@[b]));
            assert(shape(oc)[b] == block_shape(oc.blocks@[b]));
            if b != c {
                assert(nc.blocks@[b] == mc.blocks@[b]);
            }
        }
    }

    /// Allocates `count` values of type `ty` on the stack; the allocation is
    /// identified by the instruction that makes it.
    pub fn emit_stack_alloc(&mut self, ty: TypeAnnotation, count: usize, span: Span) -> (id: InstrId)
        requires
            old(self).ssa_wf(),
            old(self).open_block(),
        ensures
            Self::pushed(
                *old(self),
                *final(self),
                InstrDefinition {
                    kind: InstructionKind::Memory(
                        MemoryInstr::StackAlloc { id: AllocationId(old(self).cur().instructions.len()), ty, count },
                    ),
                    block: old(self).context.block_id,
                    span,
                },
                id,
            ),
    {
        let alloc = AllocationId(self.cfg().instructions.len());
        self.push_instruction(InstructionKind::Memory(MemoryInstr::StackAlloc { id: alloc, ty, count }), span)
    }

    /// Allocates `count` values of type `ty` on the heap; the allocation is
    /// identified by the instruction that makes it.
    pub fn emit_heap_alloc(&mut self, ty: TypeAnnotation, count: InstrId, span: Span) -> (id: InstrId)
        requires
            old(self).ssa_wf(),
            old(self).open_block(),
        ensures
            Self::pushed(
                *old(self),
                *final(self),
                InstrDefinition {
                    kind: InstructionKind::Memory(
                        MemoryInstr::HeapAlloc { id: AllocationId(old(self).cur().instructions.len()), ty, count },
                    ),
                    block: old(self).context.block_id,
                    span,
                },
                id,
            ),
    {
        let alloc = AllocationId(self.cfg().instructions.len());
        self.push_instruction(InstructionKind::Memory(MemoryInstr::HeapAlloc { id: alloc, ty, count }), span)
    }

    /// Frees the heap allocation `ptr` points to.
    pub fn emit_heap_free(&mut self, ptr: InstrId, span: Span) -> (id: InstrId)
        requires
            old(self).ssa_wf(),
            old(self).open_block(),
            old(self).mem_room(1),
        ensures
            final(self).cur().instructions@[id.0 as int].kind matches InstructionKind::Memory(
                MemoryInstr::HeapFree { ptr: p, memory_in, memory_out },
            ) && p == ptr && Self::memory_pushed(
                *old(self),
                *final(self),
                true,
                memory_in,
                memory_out,
                InstrDefinition {
                    kind: InstructionKind::Memory(MemoryInstr::HeapFree { ptr, memory_in, memory_out }),
                    block: old(self).context.block_id,
                    span,
                },
                id,
            ),
    {
        let ghost entry = *self;
        let (memory_in, memory_out) = self.advance_memory();
        let ghost mid = *self;
        let ghost instr = InstrDefinition {
            kind: InstructionKind::Memory(MemoryInstr::HeapFree { ptr, memory_in, memory_out }),
            block: entry.context.block_id,
            span,
        };
        proof {
            Self::lemma_frame(entry, mid);
        }
        let id = self.push_instruction(InstructionKind::Memory(MemoryInstr::HeapFree { ptr, memory_in, memory_out }), span);
        proof {
            Self::lemma_memory_pushed(entry, mid, *self, true, memory_in, memory_out, instr, id);
        }
        id
    }

    /// Copies the memory `from` points to into the memory `to` points to.
    pub fn emit_memcopy(&mut self, from: InstrId, to: InstrId, span: Span) -> (id: InstrId)
        requires
            old(self).ssa_wf(),
            old(self).open_block(),
            old(self).mem_room(1),
        ensures
            final(self).cur().instructions@[id.0 as int].kind matches InstructionKind::Memory(
                MemoryInstr::MemCopy { from: f, to: t, memory_in, memory_out },
            ) && f == from && t == to && Self::memory_pushed(
                *old(self),
                *final(self),
                true,
                memory_in,
                memory_out,
                InstrDefinition {
                    kind: InstructionKind::Memory(MemoryInstr::MemCopy { from, to, memory_in, memory_out }),
                    block: old(self).context.block_id,
                    span,
                },
                id,
            ),
    {
        let ghost entry = *self;
        let (memory_in, memory_out) = self.advance_memory();
        let ghost mid = *self;
        let ghost instr = InstrDefinition {
            kind: InstructionKind::Memory(MemoryInstr::MemCopy { from, to, memory_in, memory_out }),
            block: entry.context.block_id,
            span,
        };
        proof {
            Self::lemma_frame(entry, mid);
        }
        let id = self.push_instruction(
            InstructionKind::Memory(MemoryInstr::MemCopy { from, to, memory_in, memory_out }),
            span,
        );
        proof {
            Self::lemma_memory_pushed(entry, mid, *self, true, memory_in, memory_out, instr, id);
        }
        id
    }

    /// Reads the value stored at `place`.
    pub fn emit_read_place(&mut self, place: MemoryLocation, span: Span) -> (id: InstrId)
        requires
            old(self).ssa_wf(),
            old(self).open_block(),
            old(self).mem_budget(),
        ensures
            final(self).cur().instructions@[id.0 as int].kind matches InstructionKind::Memory(
                MemoryInstr::ReadPlace { place: p, memory_in },
            ) && p == place && Self::memory_pushed(
                *old(self),
                *final(self),
                false,
                memory_in,
                memory_in,
                InstrDefinition {
                    kind: InstructionKind::Memory(MemoryInstr::ReadPlace { place, memory_in }),
                    block: old(self).context.block_id,
                    span,
                },
                id,
            ),
            old(self).current_memory_def@.contains_key(old(self).context.block_id) ==> final(self).cur().next_memory_id
                == old(self).cur().next_memory_id && final(self).current_memory_def == old(self).current_memory_def,
    {
        let ghost entry = *self;
        let block = self.context.block_id;
        let memory_in = self.read_memory(block);
        let ghost mid = *self;
        let ghost instr = InstrDefinition {
            kind: InstructionKind::Memory(MemoryInstr::ReadPlace { place, memory_in }),
            block: entry.context.block_id,
            span,
        };
        proof {
            Self::lemma_frame(entry, mid);
            Self::lemma_memory_in_read(entry, mid, memory_in);
            let (oc, mc) = (entry.cur(), mid.cur());
            assert forall|x: int| 0 <= x < oc.blocks.len() implies (#[trigger] mc.blocks@[x]).predecessors@ == oc.blocks@[x].predecessors@
                && mc.blocks@[x].terminator == oc.blocks@[x].terminator by {
                assert(shape(mc)[x] == block_shape(mc.blocks@[x]));
                assert(shape(oc)[x] == block_shape(oc.blocks@[x]));
            }
            lemma_same_edges(oc, mc);
        }
        let id = self.push_instruction(InstructionKind::Memory(MemoryInstr::ReadPlace { place, memory_in }), span);
        proof {
            Self::lemma_memory_pushed(entry, mid, *self, false, memory_in, memory_in, instr, id);
        }
        id
    }

    /// Stores `value` at `place`.
    pub fn emit_write_place(&mut self, place: MemoryLocation, value: InstrId, span: Span) -> (id: InstrId)
        requires
            old(self).ssa_wf(),
            old(self).open_block(),
            old(self).mem_room(1),
        ensures
            final(self).cur().instructions@[id.0 as int].kind matches InstructionKind::Memory(
                MemoryInstr::WritePlace { place: p, value: v, memory_in, memory_out },
            ) && p == place && v == value && Self::memory_pushed(
                *old(self),
                *final(self),
                true,
                memory_in,
                memory_out,
                InstrDefinition {
                    kind: InstructionKind::Memory(MemoryInstr::WritePlace { place, value, memory_in, memory_out }),
                    block: old(self).context.block_id,
                    span,
                },
                id,
            ),
    {
        let ghost entry = *self;
        let (memory_in, memory_out) = self.advance_memory();
        let ghost mid = *self;
        let ghost instr = InstrDefinition {
            kind: InstructionKind::Memory(MemoryInstr::WritePlace { place, value, memory_in, memory_out }),
            block: entry.context.block_id,
            span,
        };
        proof {
            Self::lemma_frame(entry, mid);
        }
        let id = self.push_instruction(
            InstructionKind::Memory(MemoryInstr::WritePlace { place, value, memory_in, memory_out }),
            span,
        );
        proof {
            Self::lemma_memory_pushed(entry, mid, *self, true, memory_in, memory_out, instr, id);
        }
        id
    }

    /// The address `index` elements past `base_ptr`.
    pub fn emit_ptr_offset(&mut self, base_ptr: InstrId, index: InstrId, span: Span) -> (id: InstrId)
        requires
            old(self).ssa_wf(),
            old(self).open_block(),
        ensures
            Self::pushed(
                *old(self),
                *final(self),
                InstrDefinition {
                    kind: InstructionKind::Memory(MemoryInstr::PtrOffset { base_ptr, index }),
                    block: old(self).context.block_id,
                    span,
                },
                id,
            ),
    {
        self.push_instruction(InstructionKind::Memory(MemoryInstr::PtrOffset { base_ptr, index }), span)
    }
}

} // verus!
