use vstd::prelude::*;

use crate::ast::expr::{BlockContents, Expr};
use crate::ast::measure::{block_info, branches_info, expr_info, if_info, join, no_info, node, opt_block_info, SyntaxInfo};
use crate::ast::DeclarationId;
use crate::hir::builders::control_flow::{is_target, jump_shape};
use crate::hir::builders::ssa::{block_shape, lemma_only_phis_kept, shape};
use crate::hir::builders::{Builder, InBlock};
use crate::hir::expressions::{
    block_value_shape, in_sealed_block, lemma_block_value_shape_kept, lemma_value_shape_kept, lemma_values_kept_trans, value_shape,
    values_kept,
};
use crate::hir::instructions::FunctionCFG;
use crate::hir::instructions::{BasicBlockId, InstrDefinition, InstrId, InstructionKind, MakeLiteralKind, PhiInstr, PhiSource, Terminator, is_phi_kind};

verus! {

/// Whether an `if` is used for its value or only for its effects.
#[derive(Clone, Copy, Debug, PartialEq, Eq, Structural)]
pub enum IfContext {
    Expression,
    Statement,
}

/// How one branch `if condition { body }` of an `if` was laid out: it started
/// in block `start`; the condition ended in `cond_end` with the value
/// `cond_value`; the body starts in `body_start`, and the rest of the `if`
/// in `next`.
pub struct BranchWire {
    pub start: BasicBlockId,
    pub cond_end: BasicBlockId,
    pub cond_value: InstrId,
    pub body_start: BasicBlockId,
    pub next: BasicBlockId,
}

/// In `cfg`, the branch laid out as `w` decides on `condition`: the block
/// where the condition ended (the starting block, or one made while building
/// the condition) ends with a conditional jump on the condition's value, to
/// the body's block when it holds and to the block of the rest otherwise.
/// Those two blocks were made right after the condition, in that order; each
/// has that block as its only predecessor, and both are sealed.
pub open spec fn branch_wired(cfg: FunctionCFG, condition: Expr, w: BranchWire) -> bool {
    &&& w.cond_end == w.start || w.cond_end.0 > w.start.0
    &&& w.body_start.0 > w.cond_end.0
    &&& w.next.0 == w.body_start.0 + 1
    &&& w.next.0 < cfg.blocks.len()
    &&& cfg.blocks@[w.cond_end.0 as int].terminator == Some(
        Terminator::CondJump { condition: w.cond_value, true_target: w.body_start, false_target: w.next },
    )
    &&& w.cond_value.0 < cfg.instructions.len()
    &&& value_shape(cfg, condition, w.cond_value)
    &&& cfg.blocks@[w.body_start.0 as int].sealed
    &&& cfg.blocks@[w.next.0 as int].sealed
    &&& forall|x: BasicBlockId| #[trigger] cfg.blocks@[w.body_start.0 as int].predecessors@.contains(x) <==> x == w.cond_end
    &&& forall|x: BasicBlockId| #[trigger] cfg.blocks@[w.next.0 as int].predecessors@.contains(x) <==> x == w.cond_end
}

/// A branch stays wired while what was built is kept and the three blocks
/// of its decision keep their terminator and predecessors.
pub proof fn lemma_branch_wired_kept(c1: FunctionCFG, c2: FunctionCFG, condition: Expr, w: BranchWire)
    requires
        c1.wf(),
        branch_wired(c1, condition, w),
        values_kept(c1, c2),
        c2.blocks@[w.cond_end.0 as int].terminator == c1.blocks@[w.cond_end.0 as int].terminator,
        c2.blocks@[w.body_start.0 as int].predecessors@ == c1.blocks@[w.body_start.0 as int].predecessors@,
        c2.blocks@[w.next.0 as int].predecessors@ == c1.blocks@[w.next.0 as int].predecessors@,
    ensures
        branch_wired(c2, condition, w),
{
    lemma_value_shape_kept(c1, c2, condition, w.cond_value);
}

/// The branches of an `if` starting in block `start` were laid out as
/// `wires`, one after the other, and their values reached the merge as
/// `sources`: each branch starts where the previous one's condition failed,
/// each decides on its condition, each body's value comes from the body's
/// block or one made after it, and the `else` body's from the block where
/// the last condition failed or one made after it.
pub open spec fn if_wired(
    cfg: FunctionCFG,
    start: BasicBlockId,
    branches: Seq<(Box<Expr>, BlockContents)>,
    wires: Seq<BranchWire>,
    sources: Seq<PhiSource>,
) -> bool {
    let n = branches.len() as int;
    &&& wires.len() == n
    &&& sources.len() == n + 1
    &&& n > 0
    &&& wires[0].start == start
    &&& forall|k: int| #![trigger wires[k]] 0 <= k < n - 1 ==> wires[k + 1].start == wires[k].next
    &&& forall|k: int| #![trigger wires[k]] 0 <= k < n ==> branch_wired(cfg, *branches[k].0, wires[k])
    &&& forall|k: int| #![trigger sources[k]] 0 <= k < n ==> (sources[k].block == wires[k].body_start
        || sources[k].block.0 > wires[k].next.0)
    &&& sources[n].block == wires[n - 1].next || sources[n].block.0 > wires[n - 1].next.0
}

/// The first branches of an `if` that started in block `start`, laid out as
/// `wires` with values reaching the merge block `m` as `sources`, while
/// building goes on in block `cur`.
pub open spec fn wires_laid(
    cfg: FunctionCFG,
    start: BasicBlockId,
    cur: BasicBlockId,
    m: int,
    branches: Seq<(Box<Expr>, BlockContents)>,
    wires: Seq<BranchWire>,
    sources: Seq<PhiSource>,
) -> bool {
    &&& wires.len() == sources.len()
    &&& wires.len() <= branches.len()
    &&& wires.len() == 0 ==> cur == start
    &&& wires.len() > 0 ==> wires[0].start == start && wires.last().next == cur
    &&& forall|k: int| #![trigger wires[k]] 0 <= k < wires.len() - 1 ==> wires[k + 1].start == wires[k].next
    &&& forall|k: int| #![trigger wires[k]] 0 <= k < wires.len() ==> {
        &&& branch_wired(cfg, *branches[k].0, wires[k])
        &&& wires[k].next.0 <= cur.0
        &&& wires[k].body_start.0 > m
        &&& (sources[k].block == wires[k].body_start || sources[k].block.0 > wires[k].next.0)
    }
}

/// Laid-out branches stay so while what was built is kept, no block but
/// `cur` and ones made later gets a new terminator, and no block but the
/// merge block gets new predecessors.
pub proof fn lemma_wires_kept(
    c1: FunctionCFG,
    c2: FunctionCFG,
    start: BasicBlockId,
    cur: BasicBlockId,
    m: int,
    branches: Seq<(Box<Expr>, BlockContents)>,
    wires: Seq<BranchWire>,
    sources: Seq<PhiSource>,
)
    requires
        c1.wf(),
        wires_laid(c1, start, cur, m, branches, wires, sources),
        values_kept(c1, c2),
        forall|x: int| 0 <= x < c1.blocks.len() && x != cur.0 ==> (#[trigger] c2.blocks@[x]).terminator == c1.blocks@[x].terminator,
        forall|x: int| 0 <= x < c1.blocks.len() && x != m ==> (#[trigger] c2.blocks@[x]).predecessors@ == c1.blocks@[x].predecessors@,
    ensures
        wires_laid(c2, start, cur, m, branches, wires, sources),
{
    assert forall|k: int| #![trigger wires[k]] 0 <= k < wires.len() implies branch_wired(c2, *branches[k].0, wires[k]) by {
        let w = wires[k];
        assert(branch_wired(c1, *branches[k].0, w));
        assert(c2.blocks@[w.cond_end.0 as int].terminator == c1.blocks@[w.cond_end.0 as int].terminator);
        assert(c2.blocks@[w.body_start.0 as int].predecessors@ == c1.blocks@[w.body_start.0 as int].predecessors@);
        assert(c2.blocks@[w.next.0 as int].predecessors@ == c1.blocks@[w.next.0 as int].predecessors@);
        lemma_branch_wired_kept(c1, c2, *branches[k].0, w);
    }
}

/// One more branch laid out as `w`, after which building goes on in
/// `w.next`.
pub proof fn lemma_wires_extended(
    cfg: FunctionCFG,
    start: BasicBlockId,
    cur: BasicBlockId,
    m: int,
    branches: Seq<(Box<Expr>, BlockContents)>,
    wires: Seq<BranchWire>,
    sources: Seq<PhiSource>,
    w: BranchWire,
    src: PhiSource,
)
    requires
        wires_laid(cfg, start, cur, m, branches, wires, sources),
        wires.len() < branches.len(),
        branch_wired(cfg, *branches[wires.len() as int].0, w),
        w.start == cur,
        w.body_start.0 > m,
        w.body_start.0 > cur.0,
        src.block == w.body_start || src.block.0 > w.next.0,
    ensures
        wires_laid(cfg, start, w.next, m, branches, wires.push(w), sources.push(src)),
{
    let (w2, s2) = (wires.push(w), sources.push(src));
    let k0 = wires.len() as int;
    assert forall|k: int| #![trigger w2[k]] 0 <= k < w2.len() implies {
        &&& branch_wired(cfg, *branches[k].0, w2[k])
        &&& w2[k].next.0 <= w.next.0
        &&& w2[k].body_start.0 > m
        &&& (s2[k].block == w2[k].body_start || s2[k].block.0 > w2[k].next.0)
    } by {
        if k < k0 {
            assert(w2[k] == wires[k]);
            assert(s2[k] == sources[k]);
        }
    }
    assert forall|k: int| #![trigger w2[k]] 0 <= k < w2.len() - 1 implies w2[k + 1].start == w2[k].next by {
        if k + 1 < k0 {
            assert(w2[k + 1] == wires[k + 1]);
            assert(w2[k] == wires[k]);
        } else {
            assert(w2[k] == wires[k]);
        }
    }
}

impl Builder<InBlock> {
    /// Block `m` is still open for jumps into it: not sealed, not left, and
    /// made of phis only.
    pub open spec fn merge_open(self, m: BasicBlockId) -> bool {
        &&& m.0 < self.cur().blocks.len()
        &&& !self.cur().blocks@[m.0 as int].sealed
        &&& self.cur().blocks@[m.0 as int].terminator is None
        &&& self.cur().only_phis_in(m.0 as int)
    }

    /// Builds one branch `if condition { body }` of an `if`, from the current
    /// block: the condition is built there, and the block ends with a jump to
    /// a new block for `body` when it holds and to a new block for the rest
    /// otherwise. The body's end jumps to `merge`, giving the source of the
    /// merge's phi; building goes on in the block for the rest.
    #[verifier::rlimit(40)]
    fn build_if_branch(&mut self, condition: Expr, body: BlockContents, merge: BasicBlockId) -> (source: Option<PhiSource>)
        requires
            old(self).ready(node(join(expr_info(condition), block_info(body)))),
            old(self).merge_open(merge),
            merge != old(self).context.block_id,
        ensures
            Self::progressed_except_in(*old(self), *final(self), node(join(expr_info(condition), block_info(body))), merge.0 as int),
            final(self).current_scope == old(self).current_scope,
            final(self).merge_open(merge),
            final(self).context.block_id.0 >= old(self).cur().blocks.len(),
            final(self).context.block_id != merge,
            source matches Some(src) && final(self).cur().has_instr(src.value) && src.block.0 < final(self).cur().blocks.len()
                && forall|x: BasicBlockId| #[trigger] final(self).cur().blocks@[merge.0 as int].predecessors@.contains(x) <==> (
                old(self).cur().blocks@[merge.0 as int].predecessors@.contains(x) || x == src.block),
            source matches Some(src) && src.block != final(self).context.block_id && src.block != merge
                && final(self).cur().blocks@[src.block.0 as int].terminator == Some(Terminator::Jump { target: merge })
                && block_value_shape(final(self).cur(), body, src.value),
            exists|w: BranchWire|
                #[trigger] branch_wired(final(self).cur(), condition, w) && w.start == old(self).context.block_id && w.next
                    == final(self).context.block_id && w.body_start.0 >= old(self).cur().blocks.len() && (source matches Some(
                    src,
                ) && (src.block == w.body_start || src.block.0 > w.next.0)),
        decreases expr_info(condition).size + block_info(body).size + 1, 3nat,
    {
        let ghost s0 = *self;
        let ghost cond_g = condition;
        let ghost ic = expr_info(condition);
        let ghost ib = block_info(body);
        let ghost info = node(join(ic, ib));
        let ghost m = merge.0 as int;
        let cond_id = self.build_expr(condition);
        let ghost s1 = *self;
        let cond_block = self.context.block_id;
        let then_block_id = self.new_block();
        let next_cond_block_id = self.new_block();
        let ghost s3 = *self;
        proof {
            Self::lemma_frame(s1, s3);
            assert(shape(s3.cur())[then_block_id.0 as int] == block_shape(s3.cur().blocks@[then_block_id.0 as int]));
            assert(shape(s3.cur())[next_cond_block_id.0 as int] == block_shape(s3.cur().blocks@[next_cond_block_id.0 as int]));
        }
        self.emit_cond_jmp(cond_id, then_block_id, next_cond_block_id);
        let ghost s4 = *self;
        proof {
            Self::lemma_frame(s3, s4);
            assert(!is_target(seq![then_block_id, next_cond_block_id], cond_block.0 as int));
        }
        self.use_basic_block(then_block_id);
        proof {
            assert(self.cur() == s4.cur());
            Self::lemma_seal_ok(self.cur(), then_block_id.0 as int);
        }
        let ghost s5 = *self;
        self.seal_block(then_block_id);
        let ghost s6 = *self;
        proof {
            Self::lemma_frame(s5, s6);
            assert(s6.scope_ok()) by {
                assert forall|i: int, j: int|
                    0 <= i < s6.current_scope@.len() && 0 <= j < s6.current_scope@[i].1.len() implies s6.program.has_decl(
                        (#[trigger] s6.current_scope@[i].1[j]).decl,
                    ) by {
                    assert(s0.program.has_decl(s0.current_scope@[i].1[j].decl));
                }
            }
            assert(s6.ready(ib));
        }
        let then_val = self.build_codeblock_expr(body);
        let ghost s7 = *self;
        let then_end = self.context.block_id;
        let mut source: Option<PhiSource> = None;
        if self.bb().terminator.is_none() {
            proof {
                assert(!s1.cur().blocks@[m].sealed);
                assert(s3.cur().blocks@[m] == s1.cur().blocks@[m]);
                assert(!s4.cur().blocks@[m].sealed);
                assert(shape(s6.cur())[m] == block_shape(s6.cur().blocks@[m]));
                assert(shape(s5.cur())[m] == block_shape(s5.cur().blocks@[m]));
                assert(!s6.cur().blocks@[m].sealed);
                assert(!s7.cur().blocks@[m].sealed);
                assert(s1.cur().blocks@[m].terminator is None);
                assert(s4.cur().blocks@[m].terminator is None);
                assert(s6.cur().blocks@[m].terminator is None);
                assert(s7.cur().blocks@[m].terminator is None);
                assert(shape(s7.cur())[m] == block_shape(s7.cur().blocks@[m]));
                assert(jump_shape(shape(s7.cur()), m, then_end) == shape(s7.cur()));
            }
            self.emit_jmp(merge);
            source = Some(PhiSource { block: then_end, value: then_val });
        }
        let ghost s8 = *self;
        proof {
            Self::lemma_frame(s7, s8);
        }
        self.use_basic_block(next_cond_block_id);
        proof {
            assert(self.cur() == s8.cur());
            Self::lemma_seal_ok(self.cur(), next_cond_block_id.0 as int);
        }
        let ghost s9 = *self;
        self.seal_block(next_cond_block_id);
        proof {
            Self::lemma_frame(s9, *self);
            let f = *self;
            let (ac, fc) = (s0.cur(), f.cur());
            let c0 = s0.context.block_id.0 as int;
            let tb = then_block_id.0 as int;
            let nb = next_cond_block_id.0 as int;
            assert(s7.cur().blocks@[m].sealed == s6.cur().blocks@[m].sealed);
            assert(shape(s6.cur())[m] == block_shape(s6.cur().blocks@[m]));
            assert(shape(s5.cur())[m] == block_shape(s5.cur().blocks@[m]));
            assert(shape(f.cur())[m] == block_shape(f.cur().blocks@[m]));
            assert(shape(s9.cur())[m] == block_shape(s9.cur().blocks@[m]));
            assert(s4.cur().blocks@[m].predecessors == s3.cur().blocks@[m].predecessors);
            // The merge block.
            assert(f.merge_open(merge)) by {
                lemma_only_phis_kept(s1.cur(), s3.cur(), m);
                lemma_only_phis_kept(s3.cur(), s4.cur(), m);
                assert(s6.cur().only_phis_in(m));
                assert(s7.cur().only_phis_in(m));
                lemma_only_phis_kept(s7.cur(), s8.cur(), m);
            }
            assert forall|x: BasicBlockId| #[trigger] fc.blocks@[m].predecessors@.contains(x) <==> (
                ac.blocks@[m].predecessors@.contains(x) || x == then_end) by {
                assert(s1.cur().blocks@[m].predecessors@ == ac.blocks@[m].predecessors@);
                assert(s3.cur().blocks@[m].predecessors == s1.cur().blocks@[m].predecessors);
                assert(s6.cur().blocks@[m].predecessors@ == s4.cur().blocks@[m].predecessors@);
                assert(s7.cur().blocks@[m].predecessors@ == s6.cur().blocks@[m].predecessors@);
                assert(seq![merge][0].0 == m);
                assert(is_target(seq![merge], m));
                assert(f.cur().blocks@[m].predecessors@ == s8.cur().blocks@[m].predecessors@);
            }
            // The blocks that existed before.
            assert forall|x: int| 0 <= x < ac.blocks.len() implies {
                &&& (#[trigger] fc.blocks@[x]).sealed == ac.blocks@[x].sealed
                &&& (x != m ==> fc.blocks@[x].predecessors@ == ac.blocks@[x].predecessors@)
                &&& (x != c0 ==> fc.blocks@[x].terminator == ac.blocks@[x].terminator)
                &&& (x != c0 && ac.only_phis_in(x) ==> fc.only_phis_in(x))
            } by {
                assert(x != tb && x != nb);
                assert(x != then_end.0);
                assert(s3.cur().blocks@[x] == s1.cur().blocks@[x]);
                assert(s4.cur().blocks@[x].sealed == s3.cur().blocks@[x].sealed);
                assert(!is_target(seq![then_block_id, next_cond_block_id], x));
                assert(s4.cur().blocks@[x].predecessors == s3.cur().blocks@[x].predecessors);
                assert(shape(s6.cur())[x] == block_shape(s6.cur().blocks@[x]));
                assert(shape(s5.cur())[x] == block_shape(s5.cur().blocks@[x]));
                assert(s7.cur().blocks@[x].sealed == s6.cur().blocks@[x].sealed);
                assert(shape(f.cur())[x] == block_shape(f.cur().blocks@[x]));
                assert(shape(s9.cur())[x] == block_shape(s9.cur().blocks@[x]));
                if x != m {
                    assert(!is_target(seq![merge], x));
                    assert(s8.cur().blocks@[x].predecessors == s7.cur().blocks@[x].predecessors);
                }
                if x != c0 {
                    if x != cond_block.0 {
                        assert(s4.cur().blocks@[x].terminator == s3.cur().blocks@[x].terminator);
                    }
                    if ac.only_phis_in(x) {
                        assert(s1.cur().only_phis_in(x));
                        if x != cond_block.0 {
                            lemma_only_phis_kept(s1.cur(), s3.cur(), x);
                            lemma_only_phis_kept(s3.cur(), s4.cur(), x);
                            assert(s6.cur().only_phis_in(x));
                            assert(s7.cur().only_phis_in(x));
                            lemma_only_phis_kept(s7.cur(), s8.cur(), x);
                        }
                    }
                }
            }
            // Instructions stay in their blocks.
            assert forall|i: int| 0 <= i < ac.instructions.len() implies (#[trigger] fc.instructions@[i]).block
                == ac.instructions@[i].block by {
                assert(s1.cur().instructions@[i].block == ac.instructions@[i].block);
                assert(s3.cur().instructions == s1.cur().instructions);
                assert(s6.cur().instructions@[i].block == s5.cur().instructions@[i].block);
                assert(s7.cur().instructions@[i].block == s6.cur().instructions@[i].block);
                assert(fc.instructions@[i].block == s9.cur().instructions@[i].block);
            }
            // Instructions that are not phis keep their kind.
            assert forall|i: int| 0 <= i < ac.instructions.len() && !is_phi_kind(ac.instructions@[i].kind) implies (
            #[trigger] fc.instructions@[i]).kind == ac.instructions@[i].kind by {
                assert(s1.cur().instructions@[i].kind == ac.instructions@[i].kind);
                assert(s3.cur().instructions == s1.cur().instructions);
                assert(s6.cur().instructions@[i].kind == s5.cur().instructions@[i].kind);
                assert(s7.cur().instructions@[i].kind == s6.cur().instructions@[i].kind);
                assert(fc.instructions@[i].kind == s9.cur().instructions@[i].kind);
            }
            assert forall|i: int|
                0 <= i < ac.instructions.len() && ac.blocks@[ac.instructions@[i].block.0 as int].sealed
                    implies #[trigger] fc.instructions@[i] == ac.instructions@[i] by {
                let bk = ac.instructions@[i].block.0 as int;
                assert(s1.cur().instructions@[i] == ac.instructions@[i]);
                assert(s1.cur().blocks@[bk].sealed);
                assert(s3.cur().instructions == s1.cur().instructions);
                assert(s3.cur().blocks@[bk] == s1.cur().blocks@[bk]);
                assert(s4.cur().instructions == s3.cur().instructions);
                assert(s4.cur().blocks@[bk].sealed);
                assert(s6.cur().instructions@[i] == s5.cur().instructions@[i]);
                assert(shape(s6.cur())[bk] == block_shape(s6.cur().blocks@[bk]));
                assert(shape(s5.cur())[bk] == block_shape(s5.cur().blocks@[bk]));
                assert(s6.cur().blocks@[bk].sealed);
                assert(s7.cur().instructions@[i] == s6.cur().instructions@[i]);
                assert(s7.cur().blocks@[bk].sealed);
                assert(s8.cur().instructions == s7.cur().instructions);
                assert(s8.cur().blocks@[bk].sealed);
                assert(fc.instructions@[i] == s9.cur().instructions@[i]);
            }
            assert forall|d: DeclarationId| #[trigger] s0.program.has_decl(d) implies f.program.has_decl(d) by {
                assert(s1.program.has_decl(d));
                assert(s6.program.has_decl(d));
                assert(s7.program.has_decl(d));
            }
            assert(f.errors@.subrange(0, s0.errors@.len() as int) =~= s0.errors@) by {
                assert(f.errors == s7.errors);
                assert(s6.errors == s1.errors);
                assert(s7.errors@.subrange(0, s1.errors@.len() as int) == s1.errors@);
                assert forall|k: int| 0 <= k < s0.errors@.len() implies f.errors@[k] == s0.errors@[k] by {
                    assert(s7.errors@.subrange(0, s1.errors@.len() as int)[k] == s7.errors@[k]);
                    assert(s1.errors@.subrange(0, s0.errors@.len() as int)[k] == s1.errors@[k]);
                }
            }
            assert forall|i: int|
                0 <= i < s0.program.cfgs.len() && i != s0.pos() && !info.fns.contains((#[trigger] s0.program.cfgs@[i]).id)
                    implies f.program.cfgs@[i] == s0.program.cfgs@[i] by {
                assert(s1.program.cfgs@[i] == s0.program.cfgs@[i]);
                assert(s6.program.cfgs@[i] == s1.program.cfgs@[i]);
                assert(s7.program.cfgs@[i] == s6.program.cfgs@[i]);
            }
            assert(f.cost() <= s0.cost() + 5 * info.size);
            assert(Self::progressed_except_in(s0, f, info, m));
            assert(source matches Some(src) && src.block != f.context.block_id && src.block != merge
                && f.cur().blocks@[src.block.0 as int].terminator == Some(Terminator::Jump { target: merge })
                && block_value_shape(f.cur(), body, src.value)) by {
                let e = then_end.0 as int;
                assert(then_end != next_cond_block_id);
                assert(s8.cur().blocks@[e].terminator == Some(Terminator::Jump { target: merge }));
                assert(shape(f.cur())[e] == block_shape(f.cur().blocks@[e]));
                assert(fc.blocks@[e].terminator == s9.cur().blocks@[e].terminator);
                assert(values_kept(s7.cur(), s8.cur())) by {
                    assert forall|b: int| 0 <= b < s7.cur().blocks.len() && (#[trigger] s7.cur().blocks@[b]).sealed implies s8.cur().blocks@[
                        b].sealed by {}
                }
                assert(values_kept(s9.cur(), fc)) by {
                    assert forall|b: int| 0 <= b < s9.cur().blocks.len() && (#[trigger] s9.cur().blocks@[b]).sealed implies fc.blocks@[
                        b].sealed by {
                        assert(shape(fc)[b] == block_shape(fc.blocks@[b]));
                        assert(shape(s9.cur())[b] == block_shape(s9.cur().blocks@[b]));
                    }
                }
                lemma_values_kept_trans(s7.cur(), s8.cur(), fc);
                lemma_block_value_shape_kept(s7.cur(), fc, body, then_val);
            }
            // How the branch decides.
            let w = BranchWire {
                start: s0.context.block_id,
                cond_end: cond_block,
                cond_value: cond_id,
                body_start: then_block_id,
                next: next_cond_block_id,
            };
            assert(branch_wired(fc, cond_g, w)) by {
                let cb = cond_block.0 as int;
                let ts = seq![then_block_id, next_cond_block_id];
                assert(s4.cur().blocks@[cb].terminator == Some(
                    Terminator::CondJump { condition: cond_id, true_target: then_block_id, false_target: next_cond_block_id },
                ));
                assert(shape(s6.cur())[cb] == block_shape(s6.cur().blocks@[cb]));
                assert(shape(s5.cur())[cb] == block_shape(s5.cur().blocks@[cb]));
                assert(s7.cur().blocks@[cb].terminator == s6.cur().blocks@[cb].terminator);
                assert(then_end != cond_block);
                assert(s8.cur().blocks@[cb].terminator == s7.cur().blocks@[cb].terminator);
                assert(fc.blocks@[cb].terminator == s9.cur().blocks@[cb].terminator);
                assert(is_target(ts, tb)) by {
                    assert(ts[0].0 == tb);
                }
                assert(is_target(ts, nb)) by {
                    assert(ts[1].0 == nb);
                }
                assert(s3.cur().blocks@[tb].predecessors@.len() == 0);
                assert(s3.cur().blocks@[nb].predecessors@.len() == 0);
                assert(shape(s6.cur())[tb] == block_shape(s6.cur().blocks@[tb]));
                assert(shape(s5.cur())[tb] == block_shape(s5.cur().blocks@[tb]));
                assert(shape(s6.cur())[nb] == block_shape(s6.cur().blocks@[nb]));
                assert(shape(s5.cur())[nb] == block_shape(s5.cur().blocks@[nb]));
                assert(s7.cur().blocks@[tb].predecessors@ == s6.cur().blocks@[tb].predecessors@);
                assert(s7.cur().blocks@[nb].predecessors@ == s6.cur().blocks@[nb].predecessors@);
                assert(s8.cur().blocks@[tb].predecessors == s7.cur().blocks@[tb].predecessors) by {
                    assert(!is_target(seq![merge], tb));
                }
                assert(s8.cur().blocks@[nb].predecessors == s7.cur().blocks@[nb].predecessors) by {
                    assert(!is_target(seq![merge], nb));
                }
                assert(shape(fc)[tb] == block_shape(fc.blocks@[tb]));
                assert(shape(s9.cur())[tb] == block_shape(s9.cur().blocks@[tb]));
                assert(shape(fc)[nb] == block_shape(fc.blocks@[nb]));
                assert(shape(s9.cur())[nb] == block_shape(s9.cur().blocks@[nb]));
                assert(s7.cur().blocks@[tb].sealed);
                // The condition's value.
                assert(values_kept(s1.cur(), s3.cur())) by {
                    assert forall|b: int| 0 <= b < s1.cur().blocks.len() && (#[trigger] s1.cur().blocks@[b]).sealed implies s3.cur().blocks@[
                        b].sealed by {}
                }
                assert(values_kept(s3.cur(), s4.cur())) by {
                    assert forall|b: int| 0 <= b < s3.cur().blocks.len() && (#[trigger] s3.cur().blocks@[b]).sealed implies s4.cur().blocks@[
                        b].sealed by {}
                }
                assert(values_kept(s5.cur(), s6.cur())) by {
                    assert forall|b: int| 0 <= b < s5.cur().blocks.len() && (#[trigger] s5.cur().blocks@[b]).sealed implies s6.cur().blocks@[
                        b].sealed by {
                        assert(shape(s6.cur())[b] == block_shape(s6.cur().blocks@[b]));
                        assert(shape(s5.cur())[b] == block_shape(s5.cur().blocks@[b]));
                    }
                }
                Self::lemma_progress_values_kept(s6, s7, ib, -1);
                assert(values_kept(s7.cur(), s8.cur())) by {
                    assert forall|b: int| 0 <= b < s7.cur().blocks.len() && (#[trigger] s7.cur().blocks@[b]).sealed implies s8.cur().blocks@[
                        b].sealed by {}
                }
                assert(values_kept(s9.cur(), fc)) by {
                    assert forall|b: int| 0 <= b < s9.cur().blocks.len() && (#[trigger] s9.cur().blocks@[b]).sealed implies fc.blocks@[
                        b].sealed by {
                        assert(shape(fc)[b] == block_shape(fc.blocks@[b]));
                        assert(shape(s9.cur())[b] == block_shape(s9.cur().blocks@[b]));
                    }
                }
                lemma_values_kept_trans(s1.cur(), s3.cur(), s4.cur());
                lemma_values_kept_trans(s1.cur(), s4.cur(), s6.cur());
                lemma_values_kept_trans(s1.cur(), s6.cur(), s7.cur());
                lemma_values_kept_trans(s1.cur(), s7.cur(), s8.cur());
                lemma_values_kept_trans(s1.cur(), s8.cur(), fc);
                lemma_value_shape_kept(s1.cur(), fc, cond_g, cond_id);
            }
            assert(source matches Some(src) && (src.block == w.body_start || src.block.0 > w.next.0));
        }
        source
    }

    /// After progress where block `m` may gain predecessors, within part of
    /// a budget, the builder is ready for syntax that fits in the rest.
    pub proof fn lemma_ready_after_except(a: Self, c: Self, info: SyntaxInfo, used: SyntaxInfo, rest: SyntaxInfo, m: int)
        requires
            a.ready(info),
            Self::progressed_except_in(a, c, used, m),
            c.current_scope == a.current_scope,
            used.size + rest.size <= info.size,
            rest.fns.subset_of(info.fns),
            rest.name_bound <= info.name_bound,
            rest.fns_ok,
            rest.ifs_complete,
        ensures
            c.ready(rest),
    {
        assert forall|i: int, j: int|
            0 <= i < c.current_scope@.len() && 0 <= j < c.current_scope@[i].1.len() implies c.program.has_decl(
                (#[trigger] c.current_scope@[i].1[j]).decl,
            ) by {
            assert(a.program.has_decl(a.current_scope@[i].1[j].decl));
        }
    }

    /// How the branches of an `if` met in the current block of `new`: the
    /// phi's sources are, in order, where each body ended and its value,
    /// then where the `else` body ended and its value; each of those blocks
    /// ends with a jump to the current block, and they are its only
    /// predecessors.
    pub open spec fn if_merged(
        new: Self,
        branches: Seq<(Box<Expr>, BlockContents)>,
        else_branch: Option<BlockContents>,
        sources: Seq<PhiSource>,
    ) -> bool {
        let nc = new.cur();
        let m = new.context.block_id;
        &&& sources.len() == branches.len() + 1
        &&& forall|k: int| #![trigger sources[k]] 0 <= k < branches.len() ==> block_value_shape(nc, branches[k].1, sources[k].value)
        &&& else_branch matches Some(eb) && block_value_shape(nc, eb, sources[branches.len() as int].value)
        &&& forall|k: int| 0 <= k < sources.len() ==> nc.blocks@[(#[trigger] sources[k]).block.0 as int].terminator == Some(
            Terminator::Jump { target: m },
        )
        &&& forall|x: BasicBlockId| #[trigger] nc.blocks@[m.0 as int].predecessors@.contains(x) <==> exists|k: int|
            0 <= k < sources.len() && sources[k].block == x
    }

    /// Builds `if c1 { b1 } else if c2 { b2 } ... else { e }`: each
    /// condition in turn, in the block where the previous one failed; each
    /// body in a block of its own, which then jumps to a new merge block;
    /// the `else` body where the last condition failed. In an expression,
    /// the value is a phi of the bodies' values in the merge block; in a
    /// statement, it is `void`. An `if` without `else` is refused: the value
    /// for the missing branch would be added to a block that was just ended.
    #[verifier::rlimit(80)]
    pub fn build_if(
        &mut self,
        branches: Vec<(Box<Expr>, BlockContents)>,
        else_branch: Option<BlockContents>,
        context: IfContext,
    ) -> (id: InstrId)
        requires
            branches@.len() > 0,
            old(self).ready(if_info(branches@, else_branch)),
        ensures
            Self::built(*old(self), *final(self), if_info(branches@, else_branch), id),
            context == IfContext::Expression ==> (final(self).cur().instructions@[id.0 as int].kind matches InstructionKind::Phi(p)
                && p.sources@.len() == branches@.len() + 1 && forall|k: int|
                0 <= k < p.sources@.len() ==> final(self).cur().has_instr(#[trigger] p.sources@[k].value)),
            context == IfContext::Statement ==> final(self).cur().instructions@[id.0 as int].kind == InstructionKind::MakeLiteral(
                MakeLiteralKind::Void,
            ),
            final(self).cur().blocks@[final(self).context.block_id.0 as int].sealed,
            final(self).cur().instructions@[id.0 as int].block == final(self).context.block_id,
            context == IfContext::Expression ==> (final(self).cur().instructions@[id.0 as int].kind matches InstructionKind::Phi(p)
                && Self::if_merged(*final(self), branches@, else_branch, p.sources@)),
            exists|wires: Seq<BranchWire>, srcs: Seq<PhiSource>|
                #![trigger if_wired(final(self).cur(), old(self).context.block_id, branches@, wires, srcs)]
                if_wired(final(self).cur(), old(self).context.block_id, branches@, wires, srcs) && Self::if_merged(
                    *final(self),
                    branches@,
                    else_branch,
                    srcs,
                ) && (context == IfContext::Expression ==> (final(self).cur().instructions@[id.0 as int].kind matches InstructionKind::Phi(
                    p,
                ) && p.sources@ == srcs)),
        decreases if_info(branches@, else_branch).size, 2nat,
    {
        let ghost a = *self;
        let ghost total = if_info(branches@, else_branch);
        let ghost else_info = opt_block_info(else_branch);
        let ghost n = branches@.len();
        let expr_span = branches[0].0.span.clone();
        let merge_block_id = self.new_block();
        let ghost m = merge_block_id.0 as int;
        let ghost mut used = node(no_info());
        let mut phi_sources: Vec<PhiSource> = Vec::new();
        let ghost mut wires: Seq<BranchWire> = Seq::empty();
        let mut remaining = branches;
        proof {
            Self::lemma_frame(a, *self);
            let (ac, fc) = (a.cur(), self.cur());
            assert(fc.only_phis_in(m));
            assert forall|i: int| 0 <= i < a.program.cfgs.len() && i != a.pos() implies #[trigger] self.program.cfgs@[i] == a.program.cfgs@[i] by {}
            assert forall|d: DeclarationId| #[trigger] a.program.has_decl(d) implies self.program.has_decl(d) by {}
            assert(self.errors@.subrange(0, a.errors@.len() as int) =~= a.errors@);
            assert forall|x: int| 0 <= x < ac.blocks.len() && ac.only_phis_in(x) implies fc.only_phis_in(x) by {
                lemma_only_phis_kept(ac, fc, x);
            }
            assert(Self::progressed_except_in(a, *self, used, m));
            assert(remaining@ =~= branches@.subrange(0, n as int));
        }
        while remaining.len() > 0
            invariant
                a.ready(total),
                total == if_info(branches@, else_branch),
                m == a.cur().blocks.len(),
                merge_block_id.0 == m,
                Self::progressed_except_in(a, *self, used, m),
                self.current_scope == a.current_scope,
                self.merge_open(merge_block_id),
                self.context.block_id != merge_block_id,
                else_branch is Some,
                used.size + branches_info(remaining@).size + else_info.size == total.size,
                used.size >= 1,
                else_info.fns.subset_of(total.fns),
                else_info.name_bound <= total.name_bound,
                else_info.fns_ok,
                else_info.ifs_complete,
                used.fns.subset_of(total.fns),
                used.name_bound <= total.name_bound,
                branches_info(remaining@).fns.subset_of(total.fns),
                branches_info(remaining@).name_bound <= total.name_bound,
                branches_info(remaining@).fns_ok,
                branches_info(remaining@).ifs_complete,
                phi_sources@.len() + remaining@.len() == n,
                n == branches@.len(),
                remaining@ == branches@.subrange(phi_sources@.len() as int, n as int),
                forall|k: int| 0 <= k < phi_sources@.len() ==> {
                    &&& self.cur().blocks@[(#[trigger] phi_sources@[k]).block.0 as int].terminator == Some(
                        Terminator::Jump { target: merge_block_id },
                    )
                    &&& phi_sources@[k].block != self.context.block_id
                    &&& phi_sources@[k].block.0 < self.cur().blocks.len()
                    &&& block_value_shape(self.cur(), branches@[k].1, phi_sources@[k].value)
                },
                forall|k: int| 0 <= k < phi_sources@.len() ==> self.cur().has_instr(#[trigger] phi_sources@[k].value),
                forall|x: BasicBlockId| #[trigger] self.cur().blocks@[m].predecessors@.contains(x) <==> exists|k: int|
                    0 <= k < phi_sources@.len() && phi_sources@[k].block == x,
                wires_laid(self.cur(), a.context.block_id, self.context.block_id, m, branches@, wires, phi_sources@),
            decreases remaining@.len(),
        {
            let ghost before_items = remaining@;
            let ghost k_start = phi_sources@.len() as int;
            assert(before_items == branches@.subrange(k_start, n as int));
            assert(before_items[0] == branches@[k_start]);
            let (condition, body) = remaining.remove(0);
            let ghost bv = body;
            let ghost bi = node(join(expr_info(*condition), block_info(body)));
            proof {
                assert(remaining@ =~= before_items.subrange(1, before_items.len() as int));
                assert(branches_info(before_items) == join(bi, branches_info(remaining@)));
            }
            let ghost before = *self;
            proof {
                Self::lemma_ready_after_except(a, before, total, used, bi, m);
            }
            let ghost cg = *condition;
            let source = self.build_if_branch(*condition, body, merge_block_id);
            proof {
                Self::lemma_progress_except_trans(a, before, *self, used, bi, join(used, bi), m);
                used = join(used, bi);
            }
            let ghost sources_before = phi_sources@;
            if let Some(src) = source {
                phi_sources.push(src);
            }
            proof {
                // Wiring of the branch just built, and of those before.
                let w = choose|w: BranchWire|
                    #[trigger] branch_wired(self.cur(), cg, w) && w.start == before.context.block_id && w.next
                        == self.context.block_id && w.body_start.0 >= before.cur().blocks.len() && (source matches Some(src)
                        && (src.block == w.body_start || src.block.0 > w.next.0));
                assert(cg == *branches@[wires.len() as int].0);
                Self::lemma_progress_values_kept(before, *self, bi, m);
                lemma_wires_kept(before.cur(), self.cur(), a.context.block_id, before.context.block_id, m, branches@, wires, sources_before);
                lemma_wires_extended(self.cur(), a.context.block_id, before.context.block_id, m, branches@, wires, sources_before, w, source->Some_0);
                wires = wires.push(w);
            }
            proof {
                let k0 = sources_before.len() as int;
                assert(k0 == k_start);
                assert(bv == branches@[k0].1);
                assert(remaining@ =~= branches@.subrange(phi_sources@.len() as int, n as int));
                Self::lemma_progress_values_kept(before, *self, bi, m);
                assert forall|k: int| 0 <= k < phi_sources@.len() implies {
                    &&& self.cur().blocks@[(#[trigger] phi_sources@[k]).block.0 as int].terminator == Some(
                        Terminator::Jump { target: merge_block_id },
                    )
                    &&& phi_sources@[k].block != self.context.block_id
                    &&& phi_sources@[k].block.0 < self.cur().blocks.len()
                    &&& block_value_shape(self.cur(), branches@[k].1, phi_sources@[k].value)
                } by {
                    if k < k0 {
                        let x = sources_before[k];
                        assert(phi_sources@[k] == x);
                        assert(before.cur().blocks@[x.block.0 as int].terminator == Some(Terminator::Jump { target: merge_block_id }));
                        assert(x.block != before.context.block_id);
                        assert(self.cur().blocks@[x.block.0 as int].terminator == before.cur().blocks@[x.block.0 as int].terminator);
                        assert(before.cur().has_instr(x.value));
                        lemma_block_value_shape_kept(before.cur(), self.cur(), branches@[k].1, x.value);
                    }
                }
                assert forall|k: int| 0 <= k < phi_sources@.len() implies self.cur().has_instr(#[trigger] phi_sources@[k].value) by {
                    if k < sources_before.len() {
                        assert(phi_sources@[k] == sources_before[k]);
                    }
                }
                assert forall|x: BasicBlockId| #[trigger] self.cur().blocks@[m].predecessors@.contains(x) <==> exists|k: int|
                    0 <= k < phi_sources@.len() && phi_sources@[k].block == x by {
                    if self.cur().blocks@[m].predecessors@.contains(x) {
                        if before.cur().blocks@[m].predecessors@.contains(x) {
                            let k = choose|k: int| 0 <= k < sources_before.len() && sources_before[k].block == x;
                            assert(phi_sources@[k] == sources_before[k]);
                        } else {
                            assert(phi_sources@[sources_before.len() as int].block == x);
                        }
                    }
                    if exists|k: int| 0 <= k < phi_sources@.len() && phi_sources@[k].block == x {
                        let k = choose|k: int| 0 <= k < phi_sources@.len() && phi_sources@[k].block == x;
                        if k < sources_before.len() {
                            assert(phi_sources@[k] == sources_before[k]);
                            assert(before.cur().blocks@[m].predecessors@.contains(x));
                        }
                    }
                }
            }
        }
        let ghost b = *self;
        let ghost b_sources = phi_sources@;
        let ghost c = *self;
        match else_branch {
            Some(else_body) => {
                proof {
                    Self::lemma_ready_after_except(a, b, total, used, else_info, m);
                }
                let else_val = self.build_codeblock_expr(else_body);
                proof {
                    c = *self;
                    Self::lemma_except_equiv(b, c, else_info, m);
                    Self::lemma_progress_except_trans(a, b, c, used, else_info, join(used, else_info), m);
                    used = join(used, else_info);
                    assert(c.cur().blocks@[m].terminator is None);
                    assert(!c.cur().blocks@[m].sealed);
                    assert(shape(c.cur())[m] == block_shape(c.cur().blocks@[m]));
                    assert(jump_shape(shape(c.cur()), m, c.context.block_id) == shape(c.cur()));
                    assert(c.context.block_id != merge_block_id);
                    assert(c.merge_open(merge_block_id)) by {
                        assert(c.cur().only_phis_in(m));
                    }
                }
                if self.bb().terminator.is_none() {
                    let else_end = self.context.block_id;
                    self.emit_jmp(merge_block_id);
                    phi_sources.push(PhiSource { block: else_end, value: else_val });
                    proof {
                        assert(phi_sources@.last().block == c.context.block_id);
                    }
                }
            },
            None => {},
        }
        let ghost d = *self;
        proof {
            Self::lemma_frame(c, d);
            assert(phi_sources@.len() == n + 1);
            assert(d.cur().blocks@[m].terminator is None);
            assert(d.cur().only_phis_in(m)) by {
                lemma_only_phis_kept(c.cur(), d.cur(), m);
            }
        }
        self.use_basic_block(merge_block_id);
        proof {
            assert(self.cur() == d.cur());
            Self::lemma_seal_ok(self.cur(), m);
        }
        let ghost d2 = *self;
        self.seal_block(merge_block_id);
        let ghost e = *self;
        proof {
            Self::lemma_frame(d2, e);
            assert(e.cur().only_phis_in(m));
            assert(e.cur().blocks@[m].terminator is None);
        }
        let ghost sources = phi_sources@;
        let id = if context == IfContext::Expression {
            if phi_sources.len() == 0 {
                self.push_instruction(InstructionKind::MakeLiteral(MakeLiteralKind::Never), expr_span)
            } else {
                self.push_instruction(InstructionKind::Phi(PhiInstr { sources: phi_sources }), expr_span)
            }
        } else {
            self.push_instruction(InstructionKind::MakeLiteral(MakeLiteralKind::Void), expr_span)
        };
        proof {
            Self::lemma_frame(e, *self);
            let f = *self;
            let (ac, fc) = (a.cur(), f.cur());
            let c0 = a.context.block_id.0 as int;
            assert(fc.instructions@[id.0 as int] == fc.instructions@.last());
            assert forall|k: int| 0 <= k < sources.len() implies fc.has_instr(#[trigger] sources[k].value) by {
                assert(c.cur().has_instr(sources[k].value) || k == n);
            }
            // The blocks that existed before.
            assert forall|x: int| 0 <= x < ac.blocks.len() implies {
                &&& (#[trigger] fc.blocks@[x]).sealed == ac.blocks@[x].sealed
                &&& fc.blocks@[x].predecessors@ == ac.blocks@[x].predecessors@
                &&& (x != c0 ==> fc.blocks@[x].terminator == ac.blocks@[x].terminator)
                &&& (x != c0 && ac.only_phis_in(x) ==> fc.only_phis_in(x))
            } by {
                assert(x != m);
                assert(x != c.context.block_id.0 || x == c0);
                if x != c.context.block_id.0 {
                    assert(!is_target(seq![merge_block_id], x) ==> d.cur().blocks@[x].predecessors == c.cur().blocks@[x].predecessors);
                }
                assert(seq![merge_block_id][0].0 == m);
                assert(!is_target(seq![merge_block_id], x));
                assert(d.cur().blocks@[x].predecessors@ == c.cur().blocks@[x].predecessors@);
                assert(d.cur().blocks@[x].sealed == c.cur().blocks@[x].sealed);
                assert(shape(e.cur())[x] == block_shape(e.cur().blocks@[x]));
                assert(shape(d2.cur())[x] == block_shape(d2.cur().blocks@[x]));
                assert(fc.blocks@[x] == e.cur().blocks@[x]);
                if x != c0 {
                    assert(c.cur().blocks@[x].terminator == ac.blocks@[x].terminator);
                    if ac.only_phis_in(x) {
                        assert(c.cur().only_phis_in(x));
                        lemma_only_phis_kept(c.cur(), d.cur(), x);
                        assert(e.cur().only_phis_in(x));
                        lemma_only_phis_kept(e.cur(), fc, x);
                    }
                }
            }
            assert forall|i: int| 0 <= i < ac.instructions.len() implies (#[trigger] fc.instructions@[i]).block
                == ac.instructions@[i].block by {
                assert(c.cur().instructions@[i].block == ac.instructions@[i].block);
                assert(d.cur().instructions == c.cur().instructions);
                assert(e.cur().instructions@[i].block == d2.cur().instructions@[i].block);
            }
            assert forall|i: int| 0 <= i < ac.instructions.len() && !is_phi_kind(ac.instructions@[i].kind) implies (
            #[trigger] fc.instructions@[i]).kind == ac.instructions@[i].kind by {
                assert(c.cur().instructions@[i].kind == ac.instructions@[i].kind);
                assert(d.cur().instructions == c.cur().instructions);
                assert(e.cur().instructions@[i].kind == d2.cur().instructions@[i].kind);
            }
            assert forall|dd: DeclarationId| #[trigger] a.program.has_decl(dd) implies f.program.has_decl(dd) by {
                assert(c.program.has_decl(dd));
            }
            assert(f.errors@.subrange(0, a.errors@.len() as int) =~= a.errors@) by {
                assert(f.errors == c.errors);
            }
            assert forall|i: int|
                0 <= i < a.program.cfgs.len() && i != a.pos() && !total.fns.contains((#[trigger] a.program.cfgs@[i]).id)
                    implies f.program.cfgs@[i] == a.program.cfgs@[i] by {
                assert(c.program.cfgs@[i] == a.program.cfgs@[i]);
            }
            assert(f.cost() <= a.cost() + 5 * total.size);
            assert(Self::progressed(a, f, total));
            assert(shape(e.cur())[m] == block_shape(e.cur().blocks@[m]));
            assert(shape(d2.cur())[m] == block_shape(d2.cur().blocks@[m]));
            assert(fc.blocks@[m].sealed);
            assert(Self::if_merged(f, branches@, else_branch, sources)) by {
                assert(values_kept(c.cur(), d.cur())) by {
                    assert forall|bb: int| 0 <= bb < c.cur().blocks.len() && (#[trigger] c.cur().blocks@[bb]).sealed implies d.cur().blocks@[
                        bb].sealed by {}
                }
                assert(values_kept(d2.cur(), e.cur())) by {
                    assert forall|bb: int| 0 <= bb < d2.cur().blocks.len() && (#[trigger] d2.cur().blocks@[bb]).sealed implies e.cur().blocks@[
                        bb].sealed by {
                        assert(shape(e.cur())[bb] == block_shape(e.cur().blocks@[bb]));
                        assert(shape(d2.cur())[bb] == block_shape(d2.cur().blocks@[bb]));
                    }
                }
                assert(values_kept(e.cur(), fc)) by {
                    assert forall|bb: int| 0 <= bb < e.cur().blocks.len() && (#[trigger] e.cur().blocks@[bb]).sealed implies fc.blocks@[
                        bb].sealed by {}
                }
                lemma_values_kept_trans(c.cur(), d.cur(), e.cur());
                lemma_values_kept_trans(c.cur(), e.cur(), fc);
                Self::lemma_progress_values_kept(b, c, else_info, m);
                lemma_values_kept_trans(b.cur(), c.cur(), fc);
                let eb = else_branch->Some_0;
                assert forall|k: int| #![trigger sources[k]] 0 <= k < n implies block_value_shape(fc, branches@[k].1, sources[k].value) by {
                    assert(sources[k] == b_sources[k]);
                    assert(b.cur().has_instr(sources[k].value));
                    lemma_block_value_shape_kept(b.cur(), fc, branches@[k].1, sources[k].value);
                }
                assert(block_value_shape(fc, eb, sources[n as int].value)) by {
                    lemma_block_value_shape_kept(c.cur(), fc, eb, sources[n as int].value);
                }
                assert forall|k: int| 0 <= k < sources.len() implies fc.blocks@[(#[trigger] sources[k]).block.0 as int].terminator
                    == Some(Terminator::Jump { target: merge_block_id }) by {
                    let x = sources[k].block.0 as int;
                    assert(shape(e.cur())[x] == block_shape(e.cur().blocks@[x]));
                    assert(e.cur().blocks@[x].terminator == d2.cur().blocks@[x].terminator);
                    if k < n {
                        assert(sources[k] == b_sources[k]);
                        assert(c.cur().blocks@[x].terminator == b.cur().blocks@[x].terminator);
                    }
                }
                assert forall|x: BasicBlockId| #[trigger] fc.blocks@[m].predecessors@.contains(x) <==> exists|k: int|
                    0 <= k < sources.len() && sources[k].block == x by {
                    assert(fc.blocks@[m].predecessors == e.cur().blocks@[m].predecessors);
                    assert(e.cur().blocks@[m].predecessors@ == d2.cur().blocks@[m].predecessors@);
                    assert(seq![merge_block_id][0].0 == m);
                    assert(is_target(seq![merge_block_id], m));
                    assert(c.cur().blocks@[m].predecessors@ == b.cur().blocks@[m].predecessors@);
                    if exists|k: int| 0 <= k < sources.len() && sources[k].block == x {
                        let k = choose|k: int| 0 <= k < sources.len() && sources[k].block == x;
                        if k < n {
                            assert(sources[k] == b_sources[k]);
                        }
                    }
                    if fc.blocks@[m].predecessors@.contains(x) && x != sources[n as int].block {
                        assert(b.cur().blocks@[m].predecessors@.contains(x));
                        let k = choose|k: int| 0 <= k < b_sources.len() && b_sources[k].block == x;
                        assert(sources[k] == b_sources[k]);
                    }
                }
            }
            // How the conditions lead to the bodies.
            assert(wires_laid(fc, a.context.block_id, b.context.block_id, m, branches@, wires, b_sources)) by {
                let cb = b.context.block_id.0 as int;
                Self::lemma_progress_values_kept(b, c, else_info, m);
                assert(values_kept(c.cur(), d.cur())) by {
                    assert forall|bb: int| 0 <= bb < c.cur().blocks.len() && (#[trigger] c.cur().blocks@[bb]).sealed implies d.cur().blocks@[
                        bb].sealed by {}
                }
                assert(values_kept(d2.cur(), e.cur())) by {
                    assert forall|bb: int| 0 <= bb < d2.cur().blocks.len() && (#[trigger] d2.cur().blocks@[bb]).sealed implies e.cur().blocks@[
                        bb].sealed by {
                        assert(shape(e.cur())[bb] == block_shape(e.cur().blocks@[bb]));
                        assert(shape(d2.cur())[bb] == block_shape(d2.cur().blocks@[bb]));
                    }
                }
                assert(values_kept(e.cur(), fc)) by {
                    assert forall|bb: int| 0 <= bb < e.cur().blocks.len() && (#[trigger] e.cur().blocks@[bb]).sealed implies fc.blocks@[
                        bb].sealed by {}
                }
                lemma_values_kept_trans(b.cur(), c.cur(), d.cur());
                lemma_values_kept_trans(b.cur(), d.cur(), e.cur());
                lemma_values_kept_trans(b.cur(), e.cur(), fc);
                assert forall|x: int| 0 <= x < b.cur().blocks.len() && x != cb implies (#[trigger] fc.blocks@[x]).terminator
                    == b.cur().blocks@[x].terminator by {
                    assert(c.cur().blocks@[x].terminator == b.cur().blocks@[x].terminator);
                    assert(x != c.context.block_id.0);
                    assert(d.cur().blocks@[x].terminator == c.cur().blocks@[x].terminator);
                    assert(shape(e.cur())[x] == block_shape(e.cur().blocks@[x]));
                    assert(shape(d2.cur())[x] == block_shape(d2.cur().blocks@[x]));
                    assert(e.cur().blocks@[x].terminator == d2.cur().blocks@[x].terminator);
                }
                assert forall|x: int| 0 <= x < b.cur().blocks.len() && x != m implies (#[trigger] fc.blocks@[x]).predecessors@
                    == b.cur().blocks@[x].predecessors@ by {
                    assert(c.cur().blocks@[x].predecessors@ == b.cur().blocks@[x].predecessors@);
                    assert(seq![merge_block_id][0].0 == m);
                    assert(!is_target(seq![merge_block_id], x));
                    assert(d.cur().blocks@[x].predecessors@ == c.cur().blocks@[x].predecessors@);
                    assert(shape(e.cur())[x] == block_shape(e.cur().blocks@[x]));
                    assert(shape(d2.cur())[x] == block_shape(d2.cur().blocks@[x]));
                    assert(e.cur().blocks@[x].predecessors@ == d2.cur().blocks@[x].predecessors@);
                    assert(fc.blocks@[x].predecessors == e.cur().blocks@[x].predecessors);
                }
                assert(b.cur().wf());
                lemma_wires_kept(b.cur(), fc, a.context.block_id, b.context.block_id, m, branches@, wires, b_sources);
            }
            assert(if_wired(fc, a.context.block_id, branches@, wires, sources)) by {
                assert(wires.len() == n);
                assert(sources[n as int].block == c.context.block_id);
                assert(wires.last().next == b.context.block_id);
                assert forall|k: int| #![trigger sources[k]] 0 <= k < n implies (sources[k].block == wires[k].body_start
                    || sources[k].block.0 > wires[k].next.0) by {
                    assert(sources[k] == b_sources[k]);
                    assert(wires_laid(fc, a.context.block_id, b.context.block_id, m, branches@, wires, b_sources));
                    let wk = wires[k];
                    assert(b_sources[k].block == wk.body_start || b_sources[k].block.0 > wk.next.0);
                }
                assert forall|k: int| #![trigger wires[k]] 0 <= k < n implies branch_wired(fc, *branches@[k].0, wires[k]) by {}
                assert forall|k: int| #![trigger wires[k]] 0 <= k < n - 1 implies wires[k + 1].start == wires[k].next by {}
            }
            assert(context == IfContext::Expression ==> (fc.instructions@[id.0 as int].kind matches InstructionKind::Phi(p) && p.sources@
                == sources));
        }
        id
    }
}

} // verus!
