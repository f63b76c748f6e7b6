use vstd::prelude::*;

use crate::ast::type_annotation::TypeAnnotation;
use crate::ast::{DeclarationId, IdentifierNode, NumberKind, Span};
use crate::compile::interner::StringId;

verus! {

/// A version of the whole memory state inside one function.
#[derive(Clone, Copy, Debug, PartialEq, Eq, Hash, PartialOrd, Ord)]
pub struct MemoryId(pub usize);

/// Identifies one allocation (stack or heap) of a function.
#[derive(Clone, Copy, Debug, PartialEq, Eq, Hash)]
pub struct AllocationId(pub usize);

/// One step from a memory location to a part of it.
#[derive(Debug)]
pub enum AccessKind {
    Field(usize),
    Index(InstrId),
    Deref,
}

/// An allocation together with the path of projections into it.
#[derive(Debug)]
pub struct MemoryLocation {
    pub base: AllocationId,
    pub projections: Vec<AccessKind>,
}

#[derive(Clone, Copy, Debug, PartialEq, Eq, Hash, PartialOrd, Ord)]
pub struct BasicBlockId(pub usize);

#[derive(Clone, Copy, Debug, PartialEq, Eq, Hash, PartialOrd, Ord)]
pub struct InstrId(pub usize);

#[derive(Debug)]
pub enum BinaryOpKind {
    Add,
    Sub,
    Mul,
    Div,
    Rem,
    Eq,
    Neq,
    Lt,
    Lte,
    Gt,
    Gte,
}

#[derive(Debug)]
pub struct BinaryInstr {
    pub lhs: InstrId,
    pub rhs: InstrId,
    pub op: BinaryOpKind,
}

#[derive(Debug)]
pub enum UnaryOpKind {
    Neg,
    Not,
}

#[derive(Debug)]
pub struct UnaryInstr {
    pub value: InstrId,
    pub op: UnaryOpKind,
}

#[derive(Debug)]
pub struct CastInstr {
    pub src: InstrId,
    pub target: TypeAnnotation,
}

#[derive(Debug)]
pub enum MemoryInstr {
    StackAlloc { id: AllocationId, ty: TypeAnnotation, count: usize },
    HeapAlloc { id: AllocationId, ty: TypeAnnotation, count: InstrId },
    HeapFree { ptr: InstrId, memory_in: MemoryId, memory_out: MemoryId },
    MemCopy { from: InstrId, to: InstrId, memory_in: MemoryId, memory_out: MemoryId },
    ProjectPtr { base_ptr: InstrId, access: AccessKind },
    Load { ptr: InstrId, memory_in: MemoryId },
    Store { ptr: InstrId, value: InstrId, memory_in: MemoryId, memory_out: MemoryId },
    ReadPlace { place: MemoryLocation, memory_in: MemoryId },
    WritePlace { place: MemoryLocation, value: InstrId, memory_in: MemoryId, memory_out: MemoryId },
    PtrOffset { base_ptr: InstrId, index: InstrId },
}

#[derive(Debug)]
pub struct CallInstr {
    pub func: InstrId,
    pub args: Vec<InstrId>,
    pub memory_in: MemoryId,
    pub memory_out: MemoryId,
}

#[derive(Debug)]
pub struct SelectInstr {
    pub cond: InstrId,
    pub true_val: InstrId,
    pub false_val: InstrId,
}

#[derive(Clone, Copy, Debug)]
pub struct PhiSource {
    pub block: BasicBlockId,
    pub value: InstrId,
}

#[derive(Debug)]
pub struct PhiInstr {
    pub sources: Vec<PhiSource>,
}

#[derive(Clone, Copy, Debug, PartialEq, Eq, PartialOrd, Ord)]
pub struct MemoryPhiSource {
    pub block: BasicBlockId,
    pub memory: MemoryId,
}

/// A memory phi of a block: the memory version `id` merges `sources`.
#[derive(Debug)]
pub struct MemoryPhi {
    pub id: MemoryId,
    pub sources: Vec<MemoryPhiSource>,
}

#[derive(Debug)]
pub enum MakeLiteralKind {
    Number(NumberKind),
    Bool(bool),
    String(StringId),
    Fn(DeclarationId),
    Null,
    Void,
    Unknown,
    Never,
}

#[derive(Debug)]
pub struct StructInitInstr {
    pub fields: Vec<(IdentifierNode, InstrId)>,
    pub by_value: bool,
}

#[derive(Debug)]
pub struct GenericApplyInstr {
    pub func: InstrId,
    pub type_args: Vec<TypeAnnotation>,
}

#[derive(Debug)]
pub struct IsTypeInstr {
    pub src: InstrId,
    pub target: TypeAnnotation,
}

#[derive(Debug)]
pub struct ListInitInstr {
    pub items: Vec<InstrId>,
}

#[derive(Clone, Debug, PartialEq, Eq)]
pub enum BuiltinFunction {
    StringConcat,
}

#[derive(Debug)]
pub struct CallBuiltinInstr {
    pub builtin: BuiltinFunction,
    pub args: Vec<InstrId>,
    pub memory_in: MemoryId,
    pub memory_out: MemoryId,
}

#[derive(Debug)]
pub enum InstructionKind {
    Unary(UnaryInstr),
    Binary(BinaryInstr),
    Cast(CastInstr),
    Memory(MemoryInstr),
    Call(CallInstr),
    Select(SelectInstr),
    Phi(PhiInstr),
    Param(usize),
    StructInit(StructInitInstr),
    GenericApply(GenericApplyInstr),
    CallBuiltin(CallBuiltinInstr),
    MakeLiteral(MakeLiteralKind),
    IsType(IsTypeInstr),
    ListInit(ListInitInstr),
}

#[derive(Debug)]
pub enum Terminator {
    Jump { target: BasicBlockId },
    CondJump { condition: InstrId, true_target: BasicBlockId, false_target: BasicBlockId },
    Return { value: InstrId },
    Unreachable,
}

#[derive(Debug)]
pub struct BasicBlock {
    pub id: BasicBlockId,
    pub memory_phis: Vec<MemoryPhi>,
    pub instructions: Vec<InstrId>,
    pub terminator: Option<Terminator>,
    /// Ascending and without repetition: a set of blocks.
    pub predecessors: Vec<BasicBlockId>,
    pub sealed: bool,
}

#[derive(Debug)]
pub struct InstrDefinition {
    pub kind: InstructionKind,
    pub block: BasicBlockId,
    pub span: Span,
}

#[derive(Debug)]
pub struct FunctionCFG {
    pub entry_block: BasicBlockId,
    /// The block with id `i` is stored at position `i`.
    pub blocks: Vec<BasicBlock>,
    pub instructions: Vec<InstrDefinition>,
    pub next_block_id: usize,
    pub next_memory_id: usize,
}

impl BasicBlock {
    /// Adds `pred` to the predecessors, which stay ascending and without
    /// repetition.
    pub fn add_predecessor(&mut self, pred: BasicBlockId)
        requires
            strictly_ascending(old(self).predecessors@),
        ensures
            strictly_ascending(final(self).predecessors@),
            forall|x: BasicBlockId| #[trigger] final(self).predecessors@.contains(x) <==> (old(self).predecessors@.contains(x)
                || x == pred),
            old(self).predecessors@.contains(pred) ==> final(self).predecessors@ == old(self).predecessors@,
            !old(self).predecessors@.contains(pred) ==> final(self).predecessors@.len() == old(self).predecessors@.len() + 1,
            final(self).id == old(self).id,
            final(self).memory_phis == old(self).memory_phis,
            final(self).instructions == old(self).instructions,
            final(self).terminator == old(self).terminator,
            final(self).sealed == old(self).sealed,
    {
        let n = self.predecessors.len();
        let mut i: usize = 0;
        while i < n && self.predecessors[i].0 < pred.0
            invariant
                n == self.predecessors.len(),
                i <= n,
                forall|j: int| 0 <= j < i ==> (#[trigger] self.predecessors@[j]).0 < pred.0,
            decreases n - i,
        {
            i = i + 1;
        }
        let ghost before = self.predecessors@;
        if i < n && self.predecessors[i].0 == pred.0 {
            proof {
                assert(before[i as int] == pred);
            }
            return;
        }
        self.predecessors.insert(i, pred);
        proof {
            let after = self.predecessors@;
            assert(after == before.insert(i as int, pred));
            assert forall|a: int, b: int| 0 <= a < b < after.len() implies (#[trigger] after[a]).0 < (#[trigger] after[b]).0 by {
                if b < i {
                } else if b == i {
                } else if a < i {
                    assert(after[b] == before[b - 1]);
                    if i < n {
                        assert(before[i as int].0 >= pred.0);
                    }
                } else if a == i {
                    assert(after[b] == before[b - 1]);
                    assert(before[i as int].0 > pred.0);
                    if b - 1 > i {
                        assert(before[i as int].0 < before[b - 1].0);
                    }
                } else {
                    assert(after[a] == before[a - 1]);
                    assert(after[b] == before[b - 1]);
                }
            }
            assert forall|x: BasicBlockId| #[trigger] after.contains(x) <==> (before.contains(x) || x == pred) by {
                if after.contains(x) {
                    let k = choose|k: int| 0 <= k < after.len() && after[k] == x;
                    if k < i {
                        assert(before[k] == x);
                    } else if k > i {
                        assert(before[k - 1] == x);
                    }
                }
                if before.contains(x) {
                    let k = choose|k: int| 0 <= k < before.len() && before[k] == x;
                    if k < i {
                        assert(after[k] == x);
                    } else {
                        assert(after[k + 1] == x);
                    }
                }
                if x == pred {
                    assert(after[i as int] == pred);
                }
            }
            assert(!before.contains(pred)) by {
                if before.contains(pred) {
                    let k = choose|k: int| 0 <= k < before.len() && before[k] == pred;
                    if k < i {
                    } else if k == i {
                    } else {
                        assert(before[i as int].0 < before[k].0);
                    }
                }
            }
        }
    }

    /// Position of the memory phi `id` among the block's memory phis.
    pub open spec fn memory_phi_index(self, id: MemoryId) -> Option<int> {
        if exists|i: int| self.first_memory_phi(id, i) {
            Some(choose|i: int| self.first_memory_phi(id, i))
        } else {
            None
        }
    }

    /// `i` is the first position of memory phi `id`.
    pub open spec fn first_memory_phi(self, id: MemoryId, i: int) -> bool {
        &&& 0 <= i < self.memory_phis.len()
        &&& self.memory_phis@[i].id == id
        &&& forall|j: int| 0 <= j < i ==> (#[trigger] self.memory_phis@[j]).id != id
    }

    /// Sets the sources of memory phi `id`, adding the phi when the block has
    /// none with that id.
    pub fn insert_memory_phi(&mut self, id: MemoryId, sources: Vec<MemoryPhiSource>)
        ensures
            final(self).id == old(self).id,
            final(self).instructions == old(self).instructions,
            final(self).terminator == old(self).terminator,
            final(self).predecessors == old(self).predecessors,
            final(self).sealed == old(self).sealed,
            match old(self).memory_phi_index(id) {
                Some(i) => final(self).memory_phis@ == old(self).memory_phis@.update(i, MemoryPhi { id, sources }),
                None => final(self).memory_phis@ == old(self).memory_phis@.push(MemoryPhi { id, sources }),
            },
            exists|i: int| #[trigger] final(self).first_memory_phi(id, i) && final(self).memory_phis@[i] == (MemoryPhi {
                id,
                sources,
            }),
    {
        let n = self.memory_phis.len();
        let mut i: usize = 0;
        let mut found: Option<usize> = None;
        while i < n
            invariant_except_break
                found is None,
            invariant
                n == self.memory_phis.len(),
                i <= n,
                forall|j: int| 0 <= j < i ==> (#[trigger] self.memory_phis@[j]).id != id,
            ensures
                match found {
                    Some(f) => self.first_memory_phi(id, f as int),
                    None => forall|j: int| 0 <= j < n ==> (#[trigger] self.memory_phis@[j]).id != id,
                },
            decreases n - i,
        {
            if self.memory_phis[i].id.0 == id.0 {
                found = Some(i);
                break;
            }
            i = i + 1;
        }
        match found {
            Some(f) => {
                proof {
                    let c = choose|j: int| self.first_memory_phi(id, j);
                    if c < f {
                        assert(self.memory_phis@[c].id == id);
                    } else if c > f {
                        assert(self.memory_phis@[f as int].id != id);
                    }
                }
                let ghost before = self.memory_phis@;
                self.memory_phis.set(f, MemoryPhi { id, sources });
                proof {
                    assert forall|j: int| 0 <= j < f implies (#[trigger] self.memory_phis@[j]).id != id by {
                        assert(self.memory_phis@[j] == before[j]);
                    }
                    assert(self.first_memory_phi(id, f as int));
                }
            },
            None => {
                proof {
                    assert forall|c: int| !self.first_memory_phi(id, c) by {
                        if 0 <= c < n {
                            assert(self.memory_phis@[c].id != id);
                        }
                    }
                }
                let ghost before = self.memory_phis@;
                self.memory_phis.push(MemoryPhi { id, sources });
                proof {
                    assert forall|j: int| 0 <= j < n implies (#[trigger] self.memory_phis@[j]).id != id by {
                        assert(self.memory_phis@[j] == before[j]);
                    }
                    assert(self.first_memory_phi(id, n as int));
                }
            },
        }
    }
}

pub open spec fn is_phi_kind(k: InstructionKind) -> bool {
    k is Phi
}

/// The ids of `preds` are strictly ascending, so they form a set.
pub open spec fn strictly_ascending(preds: Seq<BasicBlockId>) -> bool {
    forall|i: int, j: int| 0 <= i < j < preds.len() ==> (#[trigger] preds[i]).0 < (#[trigger] preds[j]).0
}

impl FunctionCFG {
    /// Block `b` exists.
    pub open spec fn has_block(self, b: BasicBlockId) -> bool {
        b.0 < self.blocks.len()
    }

    /// Instruction `i` exists.
    pub open spec fn has_instr(self, i: InstrId) -> bool {
        i.0 < self.instructions.len()
    }

    /// The kind of the instruction listed at position `k` of block `b`.
    pub open spec fn kind_at(self, b: int, k: int) -> InstructionKind {
        self.instructions@[self.blocks@[b].instructions@[k].0 as int].kind
    }

    /// Every block's instruction list starts with its phis and holds no phi after
    /// its first other instruction.
    pub open spec fn phis_first(self) -> bool {
        forall|b: int, k1: int, k2: int|
            0 <= b < self.blocks.len() && 0 <= k1 < k2 < self.blocks@[b].instructions.len()
                && is_phi_kind(#[trigger] self.kind_at(b, k2)) ==> is_phi_kind(
                #[trigger] self.kind_at(b, k1),
            )
    }

    /// Well-formedness of the blocks and instructions of a control-flow graph,
    /// whatever its entry block.
    pub open spec fn graph_wf(self) -> bool {
        &&& self.blocks.len() == self.next_block_id
        &&& forall|b: int| 0 <= b < self.blocks.len() ==> (#[trigger] self.blocks@[b]).id.0 == b
        &&& forall|b: int, k: int|
            0 <= b < self.blocks.len() && 0 <= k < self.blocks@[b].instructions.len() ==> {
                let id = #[trigger] self.blocks@[b].instructions@[k];
                &&& id.0 < self.instructions.len()
                &&& self.instructions@[id.0 as int].block.0 == b
            }
        &&& forall|b: int| 0 <= b < self.blocks.len() ==> strictly_ascending(
            #[trigger] self.blocks@[b].predecessors@,
        )
        &&& forall|b: int, p: int|
            0 <= b < self.blocks.len() && 0 <= p < self.blocks@[b].predecessors.len()
                ==> (#[trigger] self.blocks@[b].predecessors@[p]).0 < self.blocks.len()
        &&& forall|i: int| 0 <= i < self.instructions.len() ==> (#[trigger] self.instructions@[i]).block.0 < self.blocks.len()
        &&& self.next_memory_id >= 1
        &&& self.phis_first()
    }

    /// Well-formedness of a control-flow graph.
    pub open spec fn wf(self) -> bool {
        &&& self.graph_wf()
        &&& self.entry_block.0 < self.blocks.len()
    }

    /// Block `b` of the graph is fresh: no instruction, memory phi, terminator or
    /// predecessor, and not sealed.
    pub open spec fn block_is_fresh(self, b: int) -> bool {
        &&& self.blocks@[b].instructions@.len() == 0
        &&& self.blocks@[b].memory_phis@.len() == 0
        &&& self.blocks@[b].predecessors@.len() == 0
        &&& self.blocks@[b].terminator is None
        &&& !self.blocks@[b].sealed
    }

    /// Pushing a phi into block `b` keeps its phis first: all it holds are phis.
    pub open spec fn only_phis_in(self, b: int) -> bool {
        forall|k: int| 0 <= k < self.blocks@[b].instructions.len() ==> is_phi_kind(
            #[trigger] self.kind_at(b, k),
        )
    }

    /// A graph with one fresh block, its entry.
    pub fn new() -> (cfg: Self)
        ensures
            cfg.wf(),
            cfg.entry_block.0 == 0,
            cfg.blocks.len() == 1,
            cfg.block_is_fresh(0),
            cfg.instructions@.len() == 0,
            cfg.next_memory_id == 1,
    {
        let mut cfg = FunctionCFG {
            entry_block: BasicBlockId(0),
            blocks: Vec::new(),
            instructions: Vec::new(),
            next_block_id: 0,
            next_memory_id: 1,
        };
        cfg.entry_block = cfg.new_block();
        cfg
    }

    /// Adds a fresh block and returns its id.
    pub fn new_block(&mut self) -> (id: BasicBlockId)
        requires
            old(self).graph_wf(),
            old(self).next_block_id < usize::MAX,
        ensures
            final(self).graph_wf(),
            id.0 == old(self).next_block_id,
            final(self).next_block_id == old(self).next_block_id + 1,
            final(self).blocks.len() == old(self).blocks.len() + 1,
            forall|b: int| 0 <= b < old(self).blocks.len() ==> #[trigger] final(self).blocks@[b] == old(self).blocks@[b],
            final(self).blocks@[id.0 as int].id == id,
            final(self).block_is_fresh(id.0 as int),
            final(self).instructions == old(self).instructions,
            final(self).entry_block == old(self).entry_block,
            final(self).next_memory_id == old(self).next_memory_id,
            old(self).wf() ==> final(self).wf(),
    {
        let ghost old_cfg = *self;
        let id_num = self.next_block_id;
        self.next_block_id = self.next_block_id + 1;
        let id = BasicBlockId(id_num);
        let block = BasicBlock {
            id,
            memory_phis: Vec::new(),
            instructions: Vec::new(),
            terminator: None,
            predecessors: Vec::new(),
            sealed: false,
        };
        let ghost before = self.blocks@;
        self.blocks.push(block);
        proof {
            assert(self.blocks@ == before.push(block));
            assert forall|b: int| 0 <= b < self.blocks.len() implies strictly_ascending(
                #[trigger] self.blocks@[b].predecessors@,
            ) by {
                if b < before.len() {
                    assert(self.blocks@[b] == before[b]);
                }
            }
            assert(self.phis_first()) by {
                assert forall|b: int, k1: int, k2: int|
                    0 <= b < self.blocks.len() && 0 <= k1 < k2 < self.blocks@[b].instructions.len()
                        && is_phi_kind(#[trigger] self.kind_at(b, k2)) implies is_phi_kind(
                        #[trigger] self.kind_at(b, k1),
                    ) by {
                    assert(b < before.len());
                    assert(self.blocks@[b] == before[b]);
                    assert(self.kind_at(b, k1) == old_cfg.kind_at(b, k1));
                    assert(self.kind_at(b, k2) == old_cfg.kind_at(b, k2));
                }
            }
        }
        id
    }

    /// Returns a memory version never handed out before.
    pub fn new_memory_id(&mut self) -> (id: MemoryId)
        requires
            old(self).next_memory_id < usize::MAX,
        ensures
            id.0 == old(self).next_memory_id,
            final(self).next_memory_id == old(self).next_memory_id + 1,
            final(self).blocks == old(self).blocks,
            final(self).instructions == old(self).instructions,
            final(self).entry_block == old(self).entry_block,
            final(self).next_block_id == old(self).next_block_id,
    {
        let id = MemoryId(self.next_memory_id);
        self.next_memory_id = self.next_memory_id + 1;
        id
    }

    /// Appends `instr` to the instruction table and to the end of its block.
    pub fn push_instruction(&mut self, instr: InstrDefinition) -> (id: InstrId)
        requires
            old(self).wf(),
            old(self).has_block(instr.block),
            old(self).blocks@[instr.block.0 as int].terminator is None,
            is_phi_kind(instr.kind) ==> old(self).only_phis_in(instr.block.0 as int),
        ensures
            final(self).wf(),
            id.0 == old(self).instructions.len(),
            final(self).instructions@ == old(self).instructions@.push(instr),
            final(self).blocks.len() == old(self).blocks.len(),
            final(self).blocks@[instr.block.0 as int].instructions@ == old(
                self,
            ).blocks@[instr.block.0 as int].instructions@.push(id),
            final(self).blocks@[instr.block.0 as int].id == old(self).blocks@[instr.block.0 as int].id,
            final(self).blocks@[instr.block.0 as int].memory_phis == old(self).blocks@[instr.block.0 as int].memory_phis,
            final(self).blocks@[instr.block.0 as int].terminator == old(self).blocks@[instr.block.0 as int].terminator,
            final(self).blocks@[instr.block.0 as int].predecessors == old(self).blocks@[instr.block.0 as int].predecessors,
            final(self).blocks@[instr.block.0 as int].sealed == old(self).blocks@[instr.block.0 as int].sealed,
            forall|b: int| 0 <= b < old(self).blocks.len() && b != instr.block.0 ==> #[trigger] final(self).blocks@[b] == old(self).blocks@[b],
            final(self).entry_block == old(self).entry_block,
            final(self).next_block_id == old(self).next_block_id,
            final(self).next_memory_id == old(self).next_memory_id,
    {
        let block_id = instr.block;
        self.check_no_terminator(block_id);
        let is_phi = match &instr.kind {
            InstructionKind::Phi(_) => true,
            _ => false,
        };
        if is_phi {
            self.validate_phi_push(block_id);
        }
        let id = InstrId(self.instructions.len());
        let ghost old_cfg = *self;
        self.instructions.push(instr);
        let ghost mid = *self;
        let blk = self.get_block_mut(block_id);
        blk.instructions.push(id);
        proof {
            let bi = block_id.0 as int;
            assert(self.instructions@ == old_cfg.instructions@.push(instr));
            assert forall|b: int, k: int|
                0 <= b < self.blocks.len() && 0 <= k < self.blocks@[b].instructions.len() implies {
                    let x = #[trigger] self.blocks@[b].instructions@[k];
                    &&& x.0 < self.instructions.len()
                    &&& self.instructions@[x.0 as int].block.0 == b
                } by {
                if b != bi {
                    assert(self.blocks@[b] == old_cfg.blocks@[b]);
                    let x = old_cfg.blocks@[b].instructions@[k];
                    assert(old_cfg.instructions@[x.0 as int] == self.instructions@[x.0 as int]);
                } else if k < old_cfg.blocks@[b].instructions.len() {
                    let x = old_cfg.blocks@[b].instructions@[k];
                    assert(self.blocks@[b].instructions@[k] == x);
                    assert(old_cfg.instructions@[x.0 as int] == self.instructions@[x.0 as int]);
                } else {
                    assert(self.blocks@[b].instructions@[k] == id);
                }
            }
            assert forall|b: int| 0 <= b < self.blocks.len() implies (#[trigger] self.blocks@[b]).id.0 == b by {
                if b != bi {
                    assert(self.blocks@[b] == old_cfg.blocks@[b]);
                }
            }
            assert forall|b: int| 0 <= b < self.blocks.len() implies strictly_ascending(
                #[trigger] self.blocks@[b].predecessors@,
            ) by {
                if b != bi {
                    assert(self.blocks@[b] == old_cfg.blocks@[b]);
                }
            }
            assert forall|b: int, p: int|
                0 <= b < self.blocks.len() && 0 <= p < self.blocks@[b].predecessors.len()
                    implies (#[trigger] self.blocks@[b].predecessors@[p]).0 < self.blocks.len() by {
                if b != bi {
                    assert(self.blocks@[b] == old_cfg.blocks@[b]);
                }
            }
            assert forall|i: int| 0 <= i < self.instructions.len() implies (#[trigger] self.instructions@[i]).block.0 < self.blocks.len() by {
                if i < old_cfg.instructions.len() {
                    assert(self.instructions@[i] == old_cfg.instructions@[i]);
                }
            }
            assert forall|b: int, k: int| 0 <= b < self.blocks.len() && 0 <= k < old_cfg.blocks@[b].instructions.len()
                implies #[trigger] self.kind_at(b, k) == old_cfg.kind_at(b, k) by {
                if b != bi {
                    assert(self.blocks@[b] == old_cfg.blocks@[b]);
                } else {
                    assert(self.blocks@[b].instructions@[k] == old_cfg.blocks@[b].instructions@[k]);
                }
                let x = old_cfg.blocks@[b].instructions@[k];
                assert(old_cfg.instructions@[x.0 as int] == self.instructions@[x.0 as int]);
            }
            assert(self.phis_first()) by {
                assert forall|b: int, k1: int, k2: int|
                    0 <= b < self.blocks.len() && 0 <= k1 < k2 < self.blocks@[b].instructions.len()
                        && is_phi_kind(#[trigger] self.kind_at(b, k2)) implies is_phi_kind(
                        #[trigger] self.kind_at(b, k1),
                    ) by {
                    if b != bi {
                        assert(self.blocks@[b] == old_cfg.blocks@[b]);
                        assert(self.kind_at(b, k1) == old_cfg.kind_at(b, k1));
                        assert(self.kind_at(b, k2) == old_cfg.kind_at(b, k2));
                    } else {
                        assert(self.kind_at(b, k1) == old_cfg.kind_at(b, k1));
                        if k2 < old_cfg.blocks@[b].instructions.len() {
                            assert(self.kind_at(b, k2) == old_cfg.kind_at(b, k2));
                            assert(old_cfg.phis_first());
                            assert(is_phi_kind(old_cfg.kind_at(b, k1)));
                        } else {
                            assert(self.blocks@[b].instructions@[k2] == id);
                            assert(self.kind_at(b, k2) == instr.kind);
                            assert(is_phi_kind(instr.kind));
                            assert(old_cfg.only_phis_in(b));
                            assert(is_phi_kind(old_cfg.kind_at(b, k1)));
                        }
                    }
                }
            }
        }
        id
    }

    /// Adds a phi without operands to block `block`, placed after the phis the
    /// block already starts with.
    pub fn insert_phi(&mut self, block: BasicBlockId, span: Span) -> (id: InstrId)
        requires
            old(self).wf(),
            old(self).has_block(block),
        ensures
            final(self).wf(),
            id.0 == old(self).instructions.len(),
            final(self).instructions@.len() == old(self).instructions@.len() + 1,
            forall|i: int| 0 <= i < old(self).instructions.len() ==> #[trigger] final(self).instructions@[i] == old(self).instructions@[i],
            final(self).instructions@[id.0 as int].block == block,
            final(self).instructions@[id.0 as int].span == span,
            final(self).instructions@[id.0 as int].kind matches InstructionKind::Phi(p) && p.sources@.len() == 0,
            final(self).blocks.len() == old(self).blocks.len(),
            forall|b: int| 0 <= b < old(self).blocks.len() && b != block.0 ==> #[trigger] final(self).blocks@[b] == old(self).blocks@[b],
            final(self).blocks@[block.0 as int].id == old(self).blocks@[block.0 as int].id,
            final(self).blocks@[block.0 as int].memory_phis == old(self).blocks@[block.0 as int].memory_phis,
            final(self).blocks@[block.0 as int].terminator == old(self).blocks@[block.0 as int].terminator,
            final(self).blocks@[block.0 as int].predecessors == old(self).blocks@[block.0 as int].predecessors,
            final(self).blocks@[block.0 as int].sealed == old(self).blocks@[block.0 as int].sealed,
            exists|idx: int|
                0 <= idx <= old(self).blocks@[block.0 as int].instructions.len() && final(self).blocks@[block.0 as int].instructions@
                    == old(self).blocks@[block.0 as int].instructions@.insert(idx, id) && (forall|j: int|
                    0 <= j < idx ==> is_phi_kind(#[trigger] old(self).kind_at(block.0 as int, j))) && (idx
                    < old(self).blocks@[block.0 as int].instructions.len() ==> !is_phi_kind(
                    old(self).kind_at(block.0 as int, idx),
                )),
            final(self).entry_block == old(self).entry_block,
            final(self).next_block_id == old(self).next_block_id,
            final(self).next_memory_id == old(self).next_memory_id,
    {
        let ghost old_cfg = *self;
        let bi = block.0;
        let id = InstrId(self.instructions.len());
        self.instructions.push(
            InstrDefinition {
                kind: InstructionKind::Phi(PhiInstr { sources: Vec::new() }),
                block,
                span,
            },
        );
        let ghost mid = *self;
        assert forall|b: int, k: int| 0 <= b < old_cfg.blocks.len() && 0 <= k < old_cfg.blocks@[b].instructions.len()
            implies #[trigger] mid.kind_at(b, k) == old_cfg.kind_at(b, k) by {
            let x = old_cfg.blocks@[b].instructions@[k];
            assert(mid.instructions@[x.0 as int] == old_cfg.instructions@[x.0 as int]);
        }
        let mut insert_idx: usize = 0;
        let n = self.blocks[bi].instructions.len();
        while insert_idx < n
            invariant
                *self == mid,
                bi < self.blocks.len(),
                n == self.blocks@[bi as int].instructions.len(),
                insert_idx <= n,
                old_cfg.wf(),
                forall|b: int, k: int| 0 <= b < old_cfg.blocks.len() && 0 <= k < old_cfg.blocks@[b].instructions.len()
                    ==> #[trigger] mid.kind_at(b, k) == old_cfg.kind_at(b, k),
                forall|j: int| 0 <= j < insert_idx ==> is_phi_kind(#[trigger] old_cfg.kind_at(bi as int, j)),
                old_cfg.blocks == mid.blocks,
                mid.instructions@.len() == old_cfg.instructions@.len() + 1,
            ensures
                insert_idx <= n,
                forall|j: int| 0 <= j < insert_idx ==> is_phi_kind(#[trigger] old_cfg.kind_at(bi as int, j)),
                insert_idx < n ==> !is_phi_kind(old_cfg.kind_at(bi as int, insert_idx as int)),
            decreases n - insert_idx,
        {
            let existing = self.blocks[bi].instructions[insert_idx];
            assert(old_cfg.blocks@[bi as int].instructions@[insert_idx as int] == existing);
            assert(existing.0 < old_cfg.instructions.len());
            let is_phi = match &self.instructions[existing.0].kind {
                InstructionKind::Phi(_) => true,
                _ => false,
            };
            assert(is_phi == is_phi_kind(mid.kind_at(bi as int, insert_idx as int)));
            if is_phi {
                insert_idx = insert_idx + 1;
            } else {
                break;
            }
        }
        let ghost idx = insert_idx as int;
        self.blocks[bi].instructions.insert(insert_idx, id);
        proof {
            let old_list = old_cfg.blocks@[bi as int].instructions@;
            let new_list = self.blocks@[bi as int].instructions@;
            assert(new_list == old_list.insert(idx, id));
            assert forall|b: int| 0 <= b < self.blocks.len() && b != bi implies #[trigger] self.blocks@[b] == old_cfg.blocks@[b] by {}
            // Kinds in the new graph, by position.
            assert forall|k: int| 0 <= k < new_list.len() implies {
                &&& (k < idx ==> #[trigger] self.kind_at(bi as int, k) == old_cfg.kind_at(bi as int, k))
                &&& (k == idx ==> is_phi_kind(self.kind_at(bi as int, k)))
                &&& (k > idx ==> self.kind_at(bi as int, k) == old_cfg.kind_at(bi as int, k - 1))
            } by {
                if k < idx {
                    assert(new_list[k] == old_list[k]);
                    assert(mid.kind_at(bi as int, k) == old_cfg.kind_at(bi as int, k));
                } else if k == idx {
                    assert(new_list[k] == id);
                } else {
                    assert(new_list[k] == old_list[k - 1]);
                    assert(mid.kind_at(bi as int, k - 1) == old_cfg.kind_at(bi as int, k - 1));
                }
            }
            // After the inserted phi, no phi follows in the old list.
            assert forall|j: int| idx <= j < old_list.len() implies !is_phi_kind(#[trigger] old_cfg.kind_at(bi as int, j)) by {
                if j == idx {
                } else if is_phi_kind(old_cfg.kind_at(bi as int, j)) {
                    assert(old_cfg.phis_first());
                    assert(is_phi_kind(old_cfg.kind_at(bi as int, idx)));
                }
            }
            assert(self.phis_first()) by {
                assert forall|b: int, k1: int, k2: int|
                    0 <= b < self.blocks.len() && 0 <= k1 < k2 < self.blocks@[b].instructions.len()
                        && is_phi_kind(#[trigger] self.kind_at(b, k2)) implies is_phi_kind(
                        #[trigger] self.kind_at(b, k1),
                    ) by {
                    if b != bi {
                        assert(self.blocks@[b] == old_cfg.blocks@[b]);
                        assert(self.kind_at(b, k1) == mid.kind_at(b, k1));
                        assert(self.kind_at(b, k2) == mid.kind_at(b, k2));
                        assert(old_cfg.phis_first());
                        assert(old_cfg.kind_at(b, k1) == mid.kind_at(b, k1));
                        assert(old_cfg.kind_at(b, k2) == mid.kind_at(b, k2));
                    } else {
                        if k2 > idx {
                            assert(self.kind_at(bi as int, k2) == old_cfg.kind_at(bi as int, k2 - 1));
                            assert(!is_phi_kind(old_cfg.kind_at(bi as int, k2 - 1)));
                        }
                        if k1 < idx {
                            assert(self.kind_at(bi as int, k1) == old_cfg.kind_at(bi as int, k1));
                        }
                    }
                }
            }
            assert forall|b: int, k: int|
                0 <= b < self.blocks.len() && 0 <= k < self.blocks@[b].instructions.len() implies {
                    let x = #[trigger] self.blocks@[b].instructions@[k];
                    &&& x.0 < self.instructions.len()
                    &&& self.instructions@[x.0 as int].block.0 == b
                } by {
                if b != bi {
                    let x = old_cfg.blocks@[b].instructions@[k];
                    assert(self.instructions@[x.0 as int] == old_cfg.instructions@[x.0 as int]);
                } else if k < idx {
                    assert(new_list[k] == old_list[k]);
                    assert(self.instructions@[old_list[k].0 as int] == old_cfg.instructions@[old_list[k].0 as int]);
                } else if k > idx {
                    assert(new_list[k] == old_list[k - 1]);
                    assert(self.instructions@[old_list[k - 1].0 as int] == old_cfg.instructions@[old_list[k - 1].0 as int]);
                }
            }
            assert forall|b: int| 0 <= b < self.blocks.len() implies (#[trigger] self.blocks@[b]).id.0 == b by {
                if b != bi {
                    assert(self.blocks@[b] == old_cfg.blocks@[b]);
                }
            }
            assert forall|b: int| 0 <= b < self.blocks.len() implies strictly_ascending(
                #[trigger] self.blocks@[b].predecessors@,
            ) by {
                if b != bi {
                    assert(self.blocks@[b] == old_cfg.blocks@[b]);
                }
            }
            assert forall|b: int, p: int|
                0 <= b < self.blocks.len() && 0 <= p < self.blocks@[b].predecessors.len()
                    implies (#[trigger] self.blocks@[b].predecessors@[p]).0 < self.blocks.len() by {
                if b != bi {
                    assert(self.blocks@[b] == old_cfg.blocks@[b]);
                }
            }
            assert forall|i: int| 0 <= i < self.instructions.len() implies (#[trigger] self.instructions@[i]).block.0 < self.blocks.len() by {
                if i < old_cfg.instructions.len() {
                    assert(self.instructions@[i] == old_cfg.instructions@[i]);
                }
            }
            assert(0 <= idx <= old_list.len() && new_list == old_list.insert(idx, id));
        }
        id
    }

    pub fn get_block_mut(&mut self, block_id: BasicBlockId) -> (block: &mut BasicBlock)
        requires
            old(self).has_block(block_id),
        ensures
            *block == old(self).blocks@[block_id.0 as int],
            final(self).blocks@ == old(self).blocks@.update(block_id.0 as int, *final(block)),
            final(self).instructions == old(self).instructions,
            final(self).entry_block == old(self).entry_block,
            final(self).next_block_id == old(self).next_block_id,
            final(self).next_memory_id == old(self).next_memory_id,
    {
        &mut self.blocks[block_id.0]
    }

    pub fn get_block(&self, block_id: BasicBlockId) -> (block: &BasicBlock)
        requires
            self.has_block(block_id),
        ensures
            *block == self.blocks@[block_id.0 as int],
    {
        &self.blocks[block_id.0]
    }

    pub fn get_instr_mut(&mut self, instr_id: InstrId) -> (instr: &mut InstrDefinition)
        requires
            old(self).has_instr(instr_id),
        ensures
            *instr == old(self).instructions@[instr_id.0 as int],
            final(self).instructions@ == old(self).instructions@.update(instr_id.0 as int, *final(instr)),
            final(self).blocks == old(self).blocks,
            final(self).entry_block == old(self).entry_block,
            final(self).next_block_id == old(self).next_block_id,
            final(self).next_memory_id == old(self).next_memory_id,
    {
        &mut self.instructions[instr_id.0]
    }

    pub fn get_instr(&self, instr_id: InstrId) -> (instr: &InstrDefinition)
        requires
            self.has_instr(instr_id),
        ensures
            *instr == self.instructions@[instr_id.0 as int],
    {
        &self.instructions[instr_id.0]
    }

    /// A phi may only be pushed into a block that holds nothing but phis.
    fn validate_phi_push(&self, block_id: BasicBlockId)
        requires
            self.wf(),
            self.has_block(block_id),
            self.only_phis_in(block_id.0 as int),
    {
        let block = self.get_block(block_id);
        let n = block.instructions.len();
        let mut k: usize = 0;
        while k < n
            invariant
                n == block.instructions.len(),
                block_id.0 < self.blocks.len(),
                k <= n,
                *block == self.blocks@[block_id.0 as int],
                self.wf(),
                self.only_phis_in(block_id.0 as int),
            decreases n - k,
        {
            let instr_id = block.instructions[k];
            let instr = self.get_instr(instr_id);
            assert(is_phi_kind(self.kind_at(block_id.0 as int, k as int)));
            k = k + 1;
        }
    }

    /// Instructions may only be added to a block that is not yet terminated.
    pub fn check_no_terminator(&self, block_id: BasicBlockId)
        requires
            self.has_block(block_id),
            self.blocks@[block_id.0 as int].terminator is None,
    {
        let block = self.get_block(block_id);
        assert(block.terminator.is_none());
    }
}

} // verus!
