use vstd::prelude::*;

use crate::ast::copy::{same_expr, same_opt_type, same_type, same_var};
use crate::ast::decl::{Declaration, VarDecl};
use crate::ast::expr::{BlockContents, ExprKind, Stmt};
use crate::ast::measure::{block_info, expr_info, join, no_info, node, opt_expr_info, stmt_info, stmts_info, SyntaxInfo};
use crate::ast::DeclarationId;
use crate::hir::builders::{Builder, InBlock};
use crate::hir::instructions::{InstrDefinition, InstrId, InstructionKind, MakeLiteralKind};
use crate::hir::scope::{bound, lookup_in_frame, lookup_in_frames, ScopeKind};
use crate::hir::expressions::values_kept;

verus! {

impl Builder<InBlock> {
    /// After progress inside a block of code, within part of a budget, the
    /// builder is ready for syntax that fits in the rest.
    pub proof fn lemma_ready_after_in(a: Self, c: Self, info: SyntaxInfo, used: SyntaxInfo, rest: SyntaxInfo)
        requires
            a.ready(info),
            Self::progressed_in(a, c, used),
            c.scope_ok(),
            used.size + rest.size <= info.size,
            rest.fns.subset_of(info.fns),
            rest.name_bound <= info.name_bound,
            rest.fns_ok,
            rest.ifs_complete,
        ensures
            c.ready(rest),
    {
    }

    /// Declares the local variable `v` in the current block of code: builds
    /// its initializer, binds the variable to the initializer's value from
    /// here on, records the declaration as written (its type annotation and
    /// initializer included) and binds its name in the innermost scope.
    pub fn build_var_decl(&mut self, v: VarDecl) -> (value: InstrId)
        requires
            old(self).ready(expr_info(v.value)),
            old(self).current_scope@.len() > 0,
        ensures
            Self::progressed_in(*old(self), *final(self), node(expr_info(v.value))),
            final(self).scope_ok(),
            final(self).cur().has_instr(value),
            crate::hir::expressions::value_shape(final(self).cur(), v.value, value),
            final(self).current_def@.contains_key((final(self).context.block_id, v.id)),
            final(self).current_def@[(final(self).context.block_id, v.id)] == value,
            final(self).program.has_decl(v.id),
            final(self).current_scope@ == bound(old(self).current_scope@, v.identifier.name, v.id),
            final(self).program.decl_of(v.id) matches Declaration::Var(w) && same_var(v, w),
            final(self).program.decl_of(v.id) matches Declaration::Var(w) && w.id == v.id && w.identifier == v.identifier
                && w.documentation == v.documentation && same_opt_type(v.constraint, w.constraint)
                && (v.constraint is None <==> w.constraint is None) && (v.constraint matches Some(x) ==> w.constraint matches Some(y)
                && same_type(x, y)) && same_expr(v.value, w.value),
        decreases expr_info(v.value).size, 5nat,
    {
        let ghost old_self = *self;
        let ghost vi = expr_info(v.value);
        let stored = v.duplicate();
        let var_id = v.id;
        let name = v.identifier.name;
        let value = self.build_expr(v.value);
        let ghost mid = *self;
        let block_id = self.context.block_id;
        self.write_variable(block_id, var_id, value);
        self.program.insert_declaration(var_id, Declaration::Var(stored));
        self.current_scope.map_name_to_symbol(name, var_id);
        proof {
            Self::lemma_frame(mid, mid);
            assert(self.cur() == mid.cur()) by {
                assert(self.program.cfgs == mid.program.cfgs);
            }
            assert(self.program.cfg_ids_unique());
            assert(self.ssa_wf());
            assert(Self::progressed_in(mid, *self, no_info())) by {
                assert forall|d: DeclarationId| #[trigger] mid.program.has_decl(d) implies self.program.has_decl(d) by {
                    if d != var_id {
                    }
                }
                assert(self.errors@.subrange(0, mid.errors@.len() as int) =~= mid.errors@);
                assert forall|i: int| 0 <= i < mid.program.cfgs.len() && i != mid.pos() implies #[trigger] self.program.cfgs@[i]
                    == mid.program.cfgs@[i] by {}
            }
            assert(self.scope_ok()) by {
                assert forall|i: int, j: int|
                    0 <= i < self.current_scope@.len() && 0 <= j < self.current_scope@[i].1.len() implies self.program.has_decl(
                        (#[trigger] self.current_scope@[i].1[j]).decl,
                    ) by {
                    let last = self.current_scope@.len() - 1;
                    if i == last && j == mid.current_scope@[i].1.len() {
                        assert(self.current_scope@[i].1[j].decl == var_id);
                    } else {
                        assert(self.current_scope@[i].1[j] == mid.current_scope@[i].1[j]);
                        assert(mid.program.has_decl(mid.current_scope@[i].1[j].decl));
                    }
                }
            }
            Self::lemma_progress_in_trans(old_self, mid, *self, vi, no_info(), node(vi));
        }
        value
    }

    /// Builds a block of code: its statements in order, in a scope of its
    /// own, then its final expression, whose value is the block's (`void`
    /// when it has none). A variable declaration binds the variable, from
    /// the end of its initializer on, to the initializer's value.
    pub fn build_codeblock_expr(&mut self, block: BlockContents) -> (id: InstrId)
        requires
            old(self).ready(block_info(block)),
        ensures
            Self::built(*old(self), *final(self), block_info(block), id),
            crate::hir::expressions::block_value_shape(final(self).cur(), block, id),
            forall|k: int|
                0 <= k < block.statements@.len() ==> (#[trigger] block.statements@[k] matches Stmt::VarDecl(v)
                    ==> final(self).program.has_decl(v.id)),
            block.statements@.len() == 0 && (block.final_expr matches Some(e) && e.kind matches ExprKind::Identifier(i)) ==> (
            final(self).context.block_id == old(self).context.block_id && Self::name_value(
                *old(self),
                final(self).cur(),
                block.final_expr->Some_0.kind->Identifier_0,
                old(self).context.block_id,
                id,
            )),
        decreases block_info(block).size, 1nat,
    {
        let ghost a = *self;
        let ghost whole = block;
        let ghost total = block_info(block);
        let ghost final_info = opt_expr_info(block.final_expr);
        let BlockContents { statements, final_expr, span } = block;
        let mut scope = self.current_scope.enter(ScopeKind::CodeBlock, span.start);
        core::mem::swap(&mut self.current_scope, &mut scope);
        let ghost a1 = *self;
        let ghost mut used = no_info();
        let ghost all_stmts = statements@;
        let ghost mut done: int = 0;
        let mut remaining = statements;
        proof {
            Self::lemma_frame(a, a);
            assert(a1.scope_ok()) by {
                assert forall|i: int, j: int|
                    0 <= i < a1.current_scope@.len() && 0 <= j < a1.current_scope@[i].1.len() implies a1.program.has_decl(
                        (#[trigger] a1.current_scope@[i].1[j]).decl,
                    ) by {
                    assert(a1.current_scope@[i] == a.current_scope@[i]);
                    assert(a.program.has_decl(a.current_scope@[i].1[j].decl));
                }
            }
            assert(a1.ready(total));
            Self::lemma_progress_refl(a1, total);
        }
        while remaining.len() > 0
            invariant
                a1.ready(total),
                total == block_info(block),
                scope@ == a.current_scope@,
                scope == a.current_scope,
                a1.current_scope@ == a.current_scope@.push((ScopeKind::CodeBlock, Seq::empty())),
                Self::progressed_in(a1, *self, used),
                self.scope_ok(),
                self.current_scope@.len() == a1.current_scope@.len(),
                forall|i: int| 0 <= i < a.current_scope@.len() ==> #[trigger] self.current_scope@[i] == a.current_scope@[i],
                used.size + stmts_info(remaining@).size + final_info.size + 1 == total.size,
                used.fns.subset_of(total.fns),
                used.name_bound <= total.name_bound,
                stmts_info(remaining@).fns.subset_of(total.fns),
                stmts_info(remaining@).name_bound <= total.name_bound,
                stmts_info(remaining@).fns_ok,
                stmts_info(remaining@).ifs_complete,
                0 <= done <= all_stmts.len(),
                remaining@ == all_stmts.subrange(done, all_stmts.len() as int),
                forall|k: int|
                    0 <= k < done ==> (#[trigger] all_stmts[k] matches Stmt::VarDecl(v) ==> self.program.has_decl(v.id)),
                done == 0 ==> *self == a1,
            decreases remaining@.len(),
        {
            let ghost before_items = remaining@;
            let stmt = remaining.remove(0);
            let ghost sv = stmt;
            proof {
                assert(all_stmts[done] == sv);
                assert(remaining@ =~= before_items.subrange(1, before_items.len() as int));
                assert(stmts_info(before_items) == join(stmt_info(stmt), stmts_info(remaining@)));
            }
            let ghost before = *self;
            match stmt {
                Stmt::Expression(e) => {
                    proof {
                        Self::lemma_ready_after_in(a1, before, total, used, expr_info(e));
                    }
                    let _value = self.build_expr(e);
                    proof {
                        Self::lemma_progress_in_trans(a1, before, *self, used, expr_info(e), join(used, expr_info(e)));
                        used = join(used, expr_info(e));
                    }
                },
                Stmt::VarDecl(v) => {
                    let ghost vi = expr_info(v.value);
                    proof {
                        Self::lemma_ready_after_in(a1, before, total, used, vi);
                    }
                    let _value = self.build_var_decl(v);
                    proof {
                        Self::lemma_progress_in_trans(a1, before, *self, used, node(vi), join(used, node(vi)));
                        used = join(used, node(vi));
                    }
                },
            }
            proof {
                assert forall|k: int|
                    0 <= k < done + 1 implies (#[trigger] all_stmts[k] matches Stmt::VarDecl(v) ==> self.program.has_decl(
                        v.id,
                    )) by {
                    if k < done {
                        match all_stmts[k] {
                            Stmt::VarDecl(v) => {
                                assert(before.program.has_decl(v.id));
                            },
                            _ => {},
                        }
                    }
                }
                done = done + 1;
                assert(remaining@ =~= all_stmts.subrange(done, all_stmts.len() as int));
            }
        }
        let ghost before_final = *self;
        let result = match final_expr {
            Some(e) => {
                proof {
                    Self::lemma_ready_after_in(a1, before_final, total, used, expr_info(*e));
                }
                self.build_expr(*e)
            },
            None => {
                proof {
                    Self::lemma_ready_after_in(a1, before_final, total, used, no_info());
                }
                let id = self.emit_void(span);
                proof {
                    Self::lemma_pushed_built(before_final, *self, InstrDefinition {
                        kind: InstructionKind::MakeLiteral(MakeLiteralKind::Void),
                        block: before_final.context.block_id,
                        span,
                    }, id);
                }
                id
            },
        };
        let ghost after_read = *self;
        proof {
            Self::lemma_progress_in_trans(a1, before_final, *self, used, final_info, join(used, final_info));
        }
        let ghost after_final = *self;
        core::mem::swap(&mut self.current_scope, &mut scope);
        proof {
            assert(self.cur() == after_final.cur());
            assert(crate::hir::expressions::block_value_shape(self.cur(), whole, result));
            assert(all_stmts == whole.statements@);
            assert forall|k: int|
                0 <= k < all_stmts.len() implies (#[trigger] all_stmts[k] matches Stmt::VarDecl(v) ==> self.program.has_decl(
                    v.id,
                )) by {
                match all_stmts[k] {
                    Stmt::VarDecl(v) => {
                        assert(before_final.program.has_decl(v.id));
                    },
                    _ => {},
                }
            }
            assert(self.current_scope == a.current_scope);
            Self::lemma_built_weaken_progress(a, *self, join(used, final_info), total);
            if all_stmts.len() == 0 {
                if let Some(fe) = whole.final_expr {
                    if let ExprKind::Identifier(i) = fe.kind {
                        assert(before_final == a1);
                        assert(values_kept(after_read.cur(), self.cur())) by {
                            assert(self.cur() == after_read.cur());
                        }
                        Self::lemma_name_value_of_read(a1, after_read, i, result, self.cur());
                        assert(a1.current_scope@.drop_last() =~= a.current_scope@);
                        assert(lookup_in_frame(a1.current_scope@.last().1, i.name) is None);
                        assert(lookup_in_frames(a1.current_scope@, i.name) == lookup_in_frames(a.current_scope@, i.name));
                    }
                }
            }
        }
        result
    }
}

} // verus!
