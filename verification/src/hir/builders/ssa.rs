use vstd::prelude::*;

use crate::ast::DeclarationId;
use crate::hir::instructions::{BasicBlock, BasicBlockId, FunctionCFG, InstrId, MemoryId, is_phi_kind};

verus! {

/// What of a block decides how a variable's value is looked up through it:
/// whether it is sealed, and its predecessors.
pub open spec fn block_shape(b: BasicBlock) -> (bool, Seq<BasicBlockId>) {
    (b.sealed, b.predecessors@)
}

/// The shape of every block of a graph.
pub open spec fn shape(cfg: FunctionCFG) -> Seq<(bool, Seq<BasicBlockId>)> {
    cfg.blocks@.map_values(|b: BasicBlock| block_shape(b))
}

/// Block `b` is sealed and has exactly one predecessor, so a lookup that
/// misses in `b` continues in that predecessor without creating a phi.
pub open spec fn forwards(sh: Seq<(bool, Seq<BasicBlockId>)>, b: int) -> bool {
    0 <= b < sh.len() && sh[b].0 && sh[b].1.len() == 1
}

/// `r` decreases along every forwarding step of `sh`.
pub open spec fn forward_rank(sh: Seq<(bool, Seq<BasicBlockId>)>, r: spec_fn(int) -> nat) -> bool {
    forall|b: int| #[trigger] forwards(sh, b) ==> r(sh[b].1[0].0 as int) < r(b)
}

/// The shape `sh` once block `b` is sealed.
pub open spec fn sealed_shape(sh: Seq<(bool, Seq<BasicBlockId>)>, b: int) -> Seq<(bool, Seq<BasicBlockId>)> {
    sh.update(b, (true, sh[b].1))
}

/// No cycle of forwarding blocks: some rank decreases along every forwarding
/// step, so every chain of them ends.
pub open spec fn chains_acyclic(sh: Seq<(bool, Seq<BasicBlockId>)>) -> bool {
    exists|r: spec_fn(int) -> nat| forward_rank(sh, r)
}

/// A bound on the length of the forwarding chain from `b`.
pub open spec fn depth(sh: Seq<(bool, Seq<BasicBlockId>)>, b: int) -> nat {
    (choose|r: spec_fn(int) -> nat| forward_rank(sh, r))(b)
}

/// `r` is larger at every block than at each of its predecessors.
pub open spec fn pred_rank(cfg: FunctionCFG, r: spec_fn(int) -> nat) -> bool {
    forall|b: int, k: int|
        0 <= b < cfg.blocks.len() && 0 <= k < cfg.blocks@[b].predecessors.len() ==> r(
            (#[trigger] cfg.blocks@[b].predecessors@[k]).0 as int,
        ) < r(b)
}

/// The control-flow graph has no cycle.
pub open spec fn acyclic(cfg: FunctionCFG) -> bool {
    exists|r: spec_fn(int) -> nat| pred_rank(cfg, r)
}

/// In a graph without cycles, forwarding chains end however the blocks are
/// sealed.
pub proof fn lemma_acyclic_chains(cfg: FunctionCFG, sh: Seq<(bool, Seq<BasicBlockId>)>)
    requires
        acyclic(cfg),
        sh.len() == cfg.blocks.len(),
        forall|b: int| 0 <= b < sh.len() ==> (#[trigger] sh[b]).1 == cfg.blocks@[b].predecessors@,
    ensures
        chains_acyclic(sh),
{
    let r = choose|r: spec_fn(int) -> nat| pred_rank(cfg, r);
    assert forall|b: int| #[trigger] forwards(sh, b) implies r(sh[b].1[0].0 as int) < r(b) by {
        assert(sh[b].1[0] == cfg.blocks@[b].predecessors@[0]);
    }
    assert(forward_rank(sh, r));
}

/// The number of blocks among the first `n` in which `var` has no definition.
pub open spec fn var_missing(
    defs: Map<(BasicBlockId, DeclarationId), InstrId>,
    var: DeclarationId,
    n: nat,
) -> nat
    decreases n,
{
    if n == 0 {
        0
    } else {
        var_missing(defs, var, (n - 1) as nat) + if defs.contains_key(
            (BasicBlockId((n - 1) as usize), var),
        ) {
            0nat
        } else {
            1nat
        }
    }
}

/// The number of blocks among the first `n` without a memory version.
pub open spec fn mem_missing(defs: Map<BasicBlockId, MemoryId>, n: nat) -> nat
    decreases n,
{
    if n == 0 {
        0
    } else {
        mem_missing(defs, (n - 1) as nat) + if defs.contains_key(BasicBlockId((n - 1) as usize)) {
            0nat
        } else {
            1nat
        }
    }
}

/// Every definition of `old` is kept, with its value, in `new`.
pub open spec fn defs_kept(
    old: Map<(BasicBlockId, DeclarationId), InstrId>,
    new: Map<(BasicBlockId, DeclarationId), InstrId>,
) -> bool {
    forall|k: (BasicBlockId, DeclarationId)| #[trigger] old.contains_key(k) ==> new.contains_key(k)
        && new[k] == old[k]
}

/// Every memory version of `old` is kept in `new`.
pub open spec fn mem_defs_kept(old: Map<BasicBlockId, MemoryId>, new: Map<BasicBlockId, MemoryId>) -> bool {
    forall|k: BasicBlockId| #[trigger] old.contains_key(k) ==> new.contains_key(k) && new[k] == old[k]
}

/// `new` keeps every pending phi of `old`, and each pending phi it adds is in
/// a block where its variable had no definition in `defs`.
pub open spec fn pending_grows(
    old: Map<(BasicBlockId, DeclarationId), InstrId>,
    new: Map<(BasicBlockId, DeclarationId), InstrId>,
    defs: Map<(BasicBlockId, DeclarationId), InstrId>,
) -> bool {
    &&& defs_kept(old, new)
    &&& forall|k: (BasicBlockId, DeclarationId)| #[trigger] new.contains_key(k) && !old.contains_key(k) ==> !defs.contains_key(k)
}

/// Each pending phi that `new` adds to `old` is one for variable `var`.
pub open spec fn pending_only_for(
    old: Map<(BasicBlockId, DeclarationId), InstrId>,
    new: Map<(BasicBlockId, DeclarationId), InstrId>,
    var: DeclarationId,
) -> bool {
    forall|k: (BasicBlockId, DeclarationId)| #[trigger] new.contains_key(k) && !old.contains_key(k) ==> k.1 == var
}

/// `new` keeps every pending memory phi of `old`, and each one it adds is in
/// a block that had no memory version in `defs`.
pub open spec fn pending_mem_grows(
    old: Map<BasicBlockId, MemoryId>,
    new: Map<BasicBlockId, MemoryId>,
    defs: Map<BasicBlockId, MemoryId>,
) -> bool {
    &&& mem_defs_kept(old, new)
    &&& forall|k: BasicBlockId| #[trigger] new.contains_key(k) && !old.contains_key(k) ==> !defs.contains_key(k)
}

/// `new` differs from `old` only in instructions added at the end, phis
/// inserted into blocks, and the operands of phis: the blocks keep their
/// shape, terminator and memory phis, and no other instruction changes.
pub open spec fn cfg_grows(old: FunctionCFG, new: FunctionCFG) -> bool {
    &&& new.blocks.len() == old.blocks.len()
    &&& shape(new) == shape(old)
    &&& forall|b: int| 0 <= b < old.blocks.len() ==> {
        &&& (#[trigger] new.blocks@[b]).id == old.blocks@[b].id
        &&& new.blocks@[b].terminator == old.blocks@[b].terminator
        &&& new.blocks@[b].memory_phis == old.blocks@[b].memory_phis
    }
    &&& new.instructions.len() >= old.instructions.len()
    &&& forall|i: int| 0 <= i < old.instructions.len() ==> {
        &&& (#[trigger] new.instructions@[i]).block == old.instructions@[i].block
        &&& is_phi_kind(old.instructions@[i].kind) ==> is_phi_kind(new.instructions@[i].kind)
        &&& !is_phi_kind(old.instructions@[i].kind) ==> new.instructions@[i].kind == old.instructions@[i].kind
    }
    &&& forall|b: int| #![trigger new.only_phis_in(b)] 0 <= b < old.blocks.len() && old.only_phis_in(b) ==> new.only_phis_in(b)
    &&& new.entry_block == old.entry_block
    &&& new.next_block_id == old.next_block_id
    &&& new.next_memory_id == old.next_memory_id
}

/// `new` differs from `old` only in fresh memory versions and memory phis.
pub open spec fn cfg_mem_grows(old: FunctionCFG, new: FunctionCFG) -> bool {
    &&& new.blocks.len() == old.blocks.len()
    &&& shape(new) == shape(old)
    &&& forall|b: int| 0 <= b < old.blocks.len() ==> {
        &&& (#[trigger] new.blocks@[b]).id == old.blocks@[b].id
        &&& new.blocks@[b].terminator == old.blocks@[b].terminator
        &&& new.blocks@[b].instructions == old.blocks@[b].instructions
    }
    &&& new.instructions == old.instructions
    &&& new.entry_block == old.entry_block
    &&& new.next_block_id == old.next_block_id
    &&& new.next_memory_id >= old.next_memory_id
}

/// Every instruction of `old` but the one at position `skip` is unchanged in
/// `new`.
pub open spec fn instrs_kept_but(old: FunctionCFG, new: FunctionCFG, skip: int) -> bool {
    forall|i: int| 0 <= i < old.instructions.len() && i != skip ==> #[trigger] new.instructions@[i] == old.instructions@[i]
}

/// A block made of phis stays so while its instruction list stays and phis
/// stay phis.
pub proof fn lemma_only_phis_kept(c1: FunctionCFG, c2: FunctionCFG, x: int)
    requires
        c1.wf(),
        0 <= x < c1.blocks.len(),
        c1.only_phis_in(x),
        x < c2.blocks.len(),
        c2.blocks@[x].instructions@ == c1.blocks@[x].instructions@,
        c2.instructions.len() >= c1.instructions.len(),
        forall|i: int| 0 <= i < c1.instructions.len() && is_phi_kind(c1.instructions@[i].kind) ==> is_phi_kind(
            #[trigger] c2.instructions@[i].kind,
        ),
    ensures
        c2.only_phis_in(x),
{
    assert forall|k: int| 0 <= k < c2.blocks@[x].instructions.len() implies is_phi_kind(#[trigger] c2.kind_at(x, k)) by {
        let id = c1.blocks@[x].instructions@[k];
        assert(c2.blocks@[x].instructions@[k] == id);
        assert(is_phi_kind(c1.kind_at(x, k)));
        assert(id.0 < c1.instructions.len());
    }
}

pub proof fn lemma_shape_eq(a: FunctionCFG, b: FunctionCFG)
    requires
        a.blocks.len() == b.blocks.len(),
        forall|i: int| 0 <= i < a.blocks.len() ==> (#[trigger] a.blocks@[i]).sealed == b.blocks@[i].sealed
            && a.blocks@[i].predecessors@ == b.blocks@[i].predecessors@,
    ensures
        shape(a) == shape(b),
{
    assert forall|i: int| 0 <= i < a.blocks.len() implies #[trigger] shape(a)[i] == shape(b)[i] by {
        assert(a.blocks@[i].sealed == b.blocks@[i].sealed);
    }
    assert(shape(a) =~= shape(b));
}

/// Along a forwarding block the chain gets shorter.
pub proof fn lemma_depth_step(sh: Seq<(bool, Seq<BasicBlockId>)>, b: int)
    requires
        chains_acyclic(sh),
        forwards(sh, b),
    ensures
        depth(sh, sh[b].1[0].0 as int) < depth(sh, b),
{
    let r = choose|r: spec_fn(int) -> nat| forward_rank(sh, r);
    assert(forward_rank(sh, r));
}

pub proof fn lemma_var_missing_mono(
    d1: Map<(BasicBlockId, DeclarationId), InstrId>,
    d2: Map<(BasicBlockId, DeclarationId), InstrId>,
    var: DeclarationId,
    n: nat,
)
    requires
        forall|k: (BasicBlockId, DeclarationId)| #[trigger] d1.contains_key(k) ==> d2.contains_key(k),
    ensures
        var_missing(d2, var, n) <= var_missing(d1, var, n),
        var_missing(d1, var, n) <= n,
    decreases n,
{
    if n > 0 {
        lemma_var_missing_mono(d1, d2, var, (n - 1) as nat);
    }
}

pub proof fn lemma_var_missing_strict(
    d1: Map<(BasicBlockId, DeclarationId), InstrId>,
    d2: Map<(BasicBlockId, DeclarationId), InstrId>,
    var: DeclarationId,
    n: nat,
    b: int,
)
    requires
        forall|k: (BasicBlockId, DeclarationId)| #[trigger] d1.contains_key(k) ==> d2.contains_key(k),
        0 <= b < n,
        n <= usize::MAX + 1,
        !d1.contains_key((BasicBlockId(b as usize), var)),
        d2.contains_key((BasicBlockId(b as usize), var)),
    ensures
        var_missing(d2, var, n) < var_missing(d1, var, n),
    decreases n,
{
    if b == n - 1 {
        lemma_var_missing_mono(d1, d2, var, (n - 1) as nat);
    } else {
        lemma_var_missing_strict(d1, d2, var, (n - 1) as nat, b);
    }
}

pub proof fn lemma_mem_missing_mono(d1: Map<BasicBlockId, MemoryId>, d2: Map<BasicBlockId, MemoryId>, n: nat)
    requires
        forall|k: BasicBlockId| #[trigger] d1.contains_key(k) ==> d2.contains_key(k),
    ensures
        mem_missing(d2, n) <= mem_missing(d1, n),
        mem_missing(d1, n) <= n,
    decreases n,
{
    if n > 0 {
        lemma_mem_missing_mono(d1, d2, (n - 1) as nat);
    }
}

pub proof fn lemma_mem_missing_strict(
    d1: Map<BasicBlockId, MemoryId>,
    d2: Map<BasicBlockId, MemoryId>,
    n: nat,
    b: int,
)
    requires
        forall|k: BasicBlockId| #[trigger] d1.contains_key(k) ==> d2.contains_key(k),
        0 <= b < n,
        n <= usize::MAX + 1,
        !d1.contains_key(BasicBlockId(b as usize)),
        d2.contains_key(BasicBlockId(b as usize)),
    ensures
        mem_missing(d2, n) < mem_missing(d1, n),
    decreases n,
{
    if b == n - 1 {
        lemma_mem_missing_mono(d1, d2, (n - 1) as nat);
    } else {
        lemma_mem_missing_strict(d1, d2, (n - 1) as nat, b);
    }
}

/// Replacing the instructions of a graph by ones of the same phi-ness and
/// block keeps the graph well-formed.
pub proof fn lemma_same_phi_shape(old: FunctionCFG, new: FunctionCFG)
    requires
        old.wf(),
        new.blocks == old.blocks,
        new.entry_block == old.entry_block,
        new.next_block_id == old.next_block_id,
        new.next_memory_id == old.next_memory_id,
        new.instructions.len() == old.instructions.len(),
        forall|i: int| 0 <= i < old.instructions.len() ==> (#[trigger] new.instructions@[i]).block
            == old.instructions@[i].block && is_phi_kind(new.instructions@[i].kind) == is_phi_kind(
            old.instructions@[i].kind,
        ),
    ensures
        new.wf(),
{
    assert forall|b: int, k: int|
        0 <= b < new.blocks.len() && 0 <= k < new.blocks@[b].instructions.len() implies {
            let id = #[trigger] new.blocks@[b].instructions@[k];
            &&& id.0 < new.instructions.len()
            &&& new.instructions@[id.0 as int].block.0 == b
        } by {
        let id = old.blocks@[b].instructions@[k];
        assert(new.instructions@[id.0 as int].block == old.instructions@[id.0 as int].block);
    }
    assert forall|i: int| 0 <= i < new.instructions.len() implies (#[trigger] new.instructions@[i]).block.0 < new.blocks.len() by {
        assert(new.instructions@[i].block == old.instructions@[i].block);
    }
    assert forall|b: int, k: int| 0 <= b < new.blocks.len() && 0 <= k < new.blocks@[b].instructions.len()
        implies is_phi_kind(#[trigger] new.kind_at(b, k)) == is_phi_kind(old.kind_at(b, k)) by {
        let id = old.blocks@[b].instructions@[k];
        assert(new.instructions@[id.0 as int].block == old.instructions@[id.0 as int].block);
    }
    assert(new.phis_first()) by {
        assert forall|b: int, k1: int, k2: int|
            0 <= b < new.blocks.len() && 0 <= k1 < k2 < new.blocks@[b].instructions.len()
                && is_phi_kind(#[trigger] new.kind_at(b, k2)) implies is_phi_kind(
                #[trigger] new.kind_at(b, k1),
            ) by {
            assert(is_phi_kind(new.kind_at(b, k2)) == is_phi_kind(old.kind_at(b, k2)));
            assert(is_phi_kind(new.kind_at(b, k1)) == is_phi_kind(old.kind_at(b, k1)));
        }
    }
}

} // verus!
