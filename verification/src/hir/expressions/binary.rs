use vstd::prelude::*;

use crate::ast::expr::{Expr, ExprKind};
use crate::ast::measure::{expr_info, join, no_info, node};
use crate::hir::builders::{Builder, InBlock};
use crate::hir::expressions::{lemma_values_kept_trans, value_shape, values_kept};
use crate::hir::instructions::{BinaryInstr, BinaryOpKind, InstrDefinition, InstrId, InstructionKind};

verus! {

impl Builder<InBlock> {
    /// Builds `left op right`: both operands, left first, then the operation.
    pub fn build_binary(&mut self, left: Expr, right: Expr, op: BinaryOpKind) -> (id: InstrId)
        requires
            old(self).ready(node(join(expr_info(left), expr_info(right)))),
        ensures
            Self::built(*old(self), *final(self), node(join(expr_info(left), expr_info(right))), id),
            final(self).cur().instructions@[id.0 as int].kind matches InstructionKind::Binary(bi) && bi.op == op
                && final(self).cur().has_instr(bi.lhs) && final(self).cur().has_instr(bi.rhs) && value_shape(
                final(self).cur(),
                left,
                bi.lhs,
            ) && value_shape(final(self).cur(), right, bi.rhs),
            left.kind matches ExprKind::Identifier(i) ==> (final(self).cur().instructions@[id.0 as int].kind matches InstructionKind::Binary(
                bi,
            ) && Self::name_value(*old(self), final(self).cur(), i, old(self).context.block_id, bi.lhs)),
            right.kind matches ExprKind::Identifier(j) ==> (final(self).cur().instructions@[id.0 as int].kind matches InstructionKind::Binary(
                bi,
            ) && Self::name_now(*final(self), j, bi.rhs)),
        decreases expr_info(left).size + expr_info(right).size + 1, 2nat,
    {
        let ghost a = *self;
        let ghost il = expr_info(left);
        let ghost ir = expr_info(right);
        let ghost info = node(join(il, ir));
        let left_span = left.span.clone();
        let ghost lv = left;
        let ghost rv = right;
        let left_value = self.build_expr(left);
        let ghost b = *self;
        proof {
            Self::lemma_ready_after(a, b, info, il, ir);
        }
        let right_span = right.span.clone();
        let right_value = self.build_expr(right);
        let ghost c = *self;
        let span = left_span.merge(&right_span);
        let ghost instr = InstrDefinition {
            kind: InstructionKind::Binary(BinaryInstr { lhs: left_value, rhs: right_value, op }),
            block: c.context.block_id,
            span,
        };
        proof {
            Self::lemma_progress_trans(a, b, c, il, ir, join(il, ir));
            Self::lemma_ready_after(a, c, info, join(il, ir), no_info());
        }
        let id = self.push_instruction(
            InstructionKind::Binary(BinaryInstr { lhs: left_value, rhs: right_value, op }),
            span,
        );
        proof {
            Self::lemma_node_built(a, b, c, *self, il, ir, info, instr, id);
            Self::lemma_value_after_progress(b, c, ir, -1, lv, left_value);
            Self::lemma_value_after_push(c, *self, instr, id, lv, left_value);
            Self::lemma_value_after_push(c, *self, instr, id, rv, right_value);
            // Operands that are names.
            if let ExprKind::Identifier(i) = lv.kind {
                Self::lemma_progress_values_kept(b, c, ir, -1);
                assert(values_kept(c.cur(), self.cur())) by {
                    Self::lemma_frame(c, *self);
                    assert forall|x: int| 0 <= x < c.cur().blocks.len() && (#[trigger] c.cur().blocks@[x]).sealed implies self.cur().blocks@[
                        x].sealed by {
                        if x != c.context.block_id.0 {
                            assert(self.cur().blocks@[x] == c.cur().blocks@[x]);
                        }
                    }
                }
                lemma_values_kept_trans(b.cur(), c.cur(), self.cur());
                Self::lemma_name_value_of_read(a, b, i, left_value, self.cur());
            }
            if let ExprKind::Identifier(j) = rv.kind {
                Self::lemma_name_now_of_read(b, c, *self, j, right_value, instr, id);
            }
        }
        id
    }
}

} // verus!
