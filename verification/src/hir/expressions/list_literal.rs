use vstd::prelude::*;

use crate::ast::expr::Expr;
use crate::ast::measure::{expr_info, exprs_info, join, no_info, node, SyntaxInfo};
use crate::ast::Span;
use crate::hir::builders::{Builder, InBlock};
use crate::hir::expressions::value_shape;
use crate::hir::instructions::{InstrDefinition, InstrId, InstructionKind, ListInitInstr};

verus! {

impl Builder<InBlock> {
    /// Builds each of `items`, in order; returns their values.
    pub fn build_exprs(&mut self, items: Vec<Expr>) -> (values: Vec<InstrId>)
        requires
            old(self).ready(exprs_info(items@)),
        ensures
            Self::progressed(*old(self), *final(self), exprs_info(items@)),
            values@.len() == items@.len(),
            forall|k: int| 0 <= k < values@.len() ==> final(self).cur().has_instr(#[trigger] values@[k]),
            forall|k: int| 0 <= k < values@.len() ==> value_shape(final(self).cur(), items@[k], #[trigger] values@[k]),
        decreases exprs_info(items@).size, 5nat,
    {
        let ghost a = *self;
        let ghost total = exprs_info(items@);
        let ghost n = items@.len();
        let mut remaining = items;
        let mut values: Vec<InstrId> = Vec::new();
        let ghost mut used = no_info();
        proof {
            Self::lemma_progress_refl(a, total);
            assert(remaining@ =~= items@.subrange(0, n as int));
        }
        while remaining.len() > 0
            invariant
                a.ready(total),
                total == exprs_info(items@),
                Self::progressed(a, *self, used),
                used.size + exprs_info(remaining@).size == total.size,
                used.fns.subset_of(total.fns),
                used.name_bound <= total.name_bound,
                exprs_info(remaining@).fns.subset_of(total.fns),
                exprs_info(remaining@).name_bound <= total.name_bound,
                exprs_info(remaining@).fns_ok,
                exprs_info(remaining@).ifs_complete,
                values@.len() + remaining@.len() == n,
                forall|k: int| 0 <= k < values@.len() ==> self.cur().has_instr(#[trigger] values@[k]),
                n == items@.len(),
                remaining@ == items@.subrange(values@.len() as int, n as int),
                forall|k: int| 0 <= k < values@.len() ==> value_shape(self.cur(), items@[k], #[trigger] values@[k]),
            decreases remaining@.len(),
        {
            let ghost before_items = remaining@;
            let ghost k0 = values@.len() as int;
            assert(before_items[0] == items@[k0]);
            let item = remaining.remove(0);
            proof {
                assert(remaining@ =~= before_items.subrange(1, before_items.len() as int));
                assert(exprs_info(before_items) == join(expr_info(item), exprs_info(remaining@)));
            }
            let ghost before = *self;
            proof {
                Self::lemma_ready_after(a, before, total, used, expr_info(item));
            }
            let ghost iv = item;
            let value = self.build_expr(item);
            proof {
                Self::lemma_progress_trans(a, before, *self, used, expr_info(iv), join(used, expr_info(iv)));
                used = join(used, expr_info(iv));
                assert forall|k: int| 0 <= k < k0 implies value_shape(self.cur(), items@[k], #[trigger] values@[k]) by {
                    Self::lemma_value_after_progress(before, *self, expr_info(iv), -1, items@[k], values@[k]);
                }
            }
            let ghost vb = values@;
            values.push(value);
            proof {
                assert forall|k: int| 0 <= k < values@.len() implies value_shape(self.cur(), items@[k], #[trigger] values@[k]) by {
                    if k < k0 {
                        assert(values@[k] == vb[k]);
                    }
                }
                assert(remaining@ =~= items@.subrange(values@.len() as int, n as int));
            }
        }
        proof {
            Self::lemma_built_weaken_progress(a, *self, used, total);
        }
        values
    }

    /// Builds the list literal of `items`: each item in order, then the list.
    pub fn build_list_literal_expr(&mut self, span: Span, items: Vec<Expr>) -> (id: InstrId)
        requires
            old(self).ready(node(exprs_info(items@))),
        ensures
            Self::built(*old(self), *final(self), node(exprs_info(items@)), id),
            final(self).cur().instructions@[id.0 as int].kind matches InstructionKind::ListInit(li) && li.items@.len()
                == items@.len() && (forall|k: int| 0 <= k < li.items@.len() ==> final(self).cur().has_instr(
                #[trigger] li.items@[k],
            )) && forall|k: int| 0 <= k < li.items@.len() ==> value_shape(final(self).cur(), items@[k], #[trigger] li.items@[k]),
        decreases exprs_info(items@).size + 1, 2nat,
    {
        let ghost a = *self;
        let ghost ii = exprs_info(items@);
        let ghost info = node(ii);
        let ghost its = items@;
        let evaluated_items = self.build_exprs(items);
        let ghost b = *self;
        let ghost instr = InstrDefinition {
            kind: InstructionKind::ListInit(ListInitInstr { items: evaluated_items }),
            block: b.context.block_id,
            span,
        };
        proof {
            Self::lemma_progress_refl(b, no_info());
            Self::lemma_ready_after(a, b, info, ii, no_info());
        }
        let ghost ev = evaluated_items@;
        let id = self.push_instruction(InstructionKind::ListInit(ListInitInstr { items: evaluated_items }), span);
        proof {
            Self::lemma_node_built(a, b, b, *self, ii, no_info(), info, instr, id);
            assert forall|k: int| 0 <= k < ev.len() implies value_shape(self.cur(), its[k], #[trigger] ev[k]) by {
                Self::lemma_value_after_push(b, *self, instr, id, its[k], ev[k]);
            }
        }
        id
    }
}

} // verus!
