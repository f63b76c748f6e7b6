use vstd::prelude::*;

use crate::ast::expr::{Expr, ExprKind};
use crate::ast::measure::{expr_info, exprs_info, join, no_info, node};
use crate::ast::Span;
use crate::hir::builders::{Builder, InBlock};
use crate::hir::expressions::{lemma_values_kept_trans, value_shape};
use crate::hir::instructions::{CallInstr, InstrDefinition, InstrId, InstructionKind};

verus! {

impl Builder<InBlock> {
    /// Builds the call `left(args)`: the callee, then each argument in order,
    /// then the call.
    pub fn build_fn_call_expr(&mut self, left: Expr, args: Vec<Expr>, span: Span) -> (id: InstrId)
        requires
            old(self).ready(node(join(expr_info(left), exprs_info(args@)))),
        ensures
            Self::built(*old(self), *final(self), node(join(expr_info(left), exprs_info(args@))), id),
            final(self).cur().instructions@[id.0 as int].kind matches InstructionKind::Call(ci) && ci.args@.len()
                == args@.len() && final(self).cur().has_instr(ci.func) && forall|k: int|
                0 <= k < ci.args@.len() ==> final(self).cur().has_instr(#[trigger] ci.args@[k]),
            final(self).cur().instructions@[id.0 as int].kind matches InstructionKind::Call(ci) && value_shape(
                final(self).cur(),
                left,
                ci.func,
            ) && forall|k: int| 0 <= k < ci.args@.len() ==> value_shape(final(self).cur(), args@[k], #[trigger] ci.args@[k]),
            left.kind matches ExprKind::Identifier(i) ==> (final(self).cur().instructions@[id.0 as int].kind matches InstructionKind::Call(
                ci,
            ) && Self::name_value(*old(self), final(self).cur(), i, old(self).context.block_id, ci.func)),
        decreases expr_info(left).size + exprs_info(args@).size + 1, 2nat,
    {
        let ghost a = *self;
        let ghost il = expr_info(left);
        let ghost ia = exprs_info(args@);
        let ghost info = node(join(il, ia));
        let ghost lv = left;
        let ghost avs = args@;
        let func_id = self.build_expr(left);
        let ghost b = *self;
        proof {
            Self::lemma_ready_after(a, b, info, il, ia);
        }
        let arg_ids = self.build_exprs(args);
        let ghost c = *self;
        let ghost aids = arg_ids@;
        proof {
            Self::lemma_progress_trans(a, b, c, il, ia, join(il, ia));
            Self::lemma_ready_after(a, c, info, join(il, ia), node(no_info()));
        }
        let id = self.emit_call(func_id, arg_ids, span);
        proof {
            let ci = match self.cur().instructions@[id.0 as int].kind {
                InstructionKind::Call(ci) => ci,
                _ => arbitrary(),
            };
            Self::lemma_memory_pushed_built(c, *self, ci.memory_in, ci.memory_out, InstrDefinition {
                kind: InstructionKind::Call(CallInstr { func: func_id, args: arg_ids, memory_in: ci.memory_in, memory_out: ci.memory_out }),
                block: c.context.block_id,
                span,
            }, id);
            Self::lemma_progress_trans(a, c, *self, join(il, ia), node(no_info()), info);
            Self::lemma_value_after_progress(b, c, ia, -1, lv, func_id);
            Self::lemma_value_after_progress(c, *self, node(no_info()), -1, lv, func_id);
            if let ExprKind::Identifier(i) = lv.kind {
                Self::lemma_progress_values_kept(b, c, ia, -1);
                Self::lemma_progress_values_kept(c, *self, node(no_info()), -1);
                lemma_values_kept_trans(b.cur(), c.cur(), self.cur());
                Self::lemma_name_value_of_read(a, b, i, func_id, self.cur());
            }
            assert forall|k: int| 0 <= k < ci.args@.len() implies value_shape(self.cur(), avs[k], #[trigger] ci.args@[k]) by {
                assert(ci.args@[k] == aids[k]);
                Self::lemma_value_after_progress(c, *self, node(no_info()), -1, avs[k], aids[k]);
            }
        }
        id
    }
}

} // verus!
