use vstd::prelude::*;

use crate::ast::expr::{Expr, ExprKind};
use crate::ast::measure::{expr_info, join, no_info, node};
use crate::ast::type_annotation::TypeAnnotation;
use crate::ast::Span;
use crate::hir::builders::{Builder, InBlock};
use crate::hir::expressions::value_shape;
use crate::hir::instructions::{
    CastInstr, GenericApplyInstr, InstrDefinition, InstrId, InstructionKind, IsTypeInstr, UnaryInstr, UnaryOpKind,
};

verus! {

impl Builder<InBlock> {
    /// Builds `value`, then applies the unary operation `op` to it.
    pub fn build_unary(&mut self, span: Span, value: Expr, op: UnaryOpKind) -> (id: InstrId)
        requires
            old(self).ready(node(expr_info(value))),
        ensures
            Self::built(*old(self), *final(self), node(expr_info(value)), id),
            final(self).cur().instructions@[id.0 as int].kind matches InstructionKind::Unary(ui) && ui.op == op
                && final(self).cur().has_instr(ui.value) && value_shape(final(self).cur(), value, ui.value),
            value.kind matches ExprKind::Identifier(i) ==> (final(self).cur().instructions@[id.0 as int].kind matches InstructionKind::Unary(
                ui,
            ) && Self::name_value(*old(self), final(self).cur(), i, old(self).context.block_id, ui.value)),
        decreases expr_info(value).size + 1, 2nat,
    {
        let ghost a = *self;
        let ghost iv = expr_info(value);
        let ghost info = node(iv);
        let ghost ge = value;
        let v = self.build_expr(value);
        let ghost b = *self;
        let ghost instr = InstrDefinition {
            kind: InstructionKind::Unary(UnaryInstr { value: v, op }),
            block: b.context.block_id,
            span,
        };
        proof {
            Self::lemma_progress_refl(b, no_info());
            Self::lemma_ready_after(a, b, info, iv, no_info());
        }
        let id = self.push_instruction(InstructionKind::Unary(UnaryInstr { value: v, op }), span);
        proof {
            Self::lemma_node_built(a, b, b, *self, iv, no_info(), info, instr, id);
            Self::lemma_value_after_push(b, *self, instr, id, ge, v);
            if let ExprKind::Identifier(i) = ge.kind {
                Self::lemma_push_values_kept(b, *self, instr, id);
                Self::lemma_name_value_of_read(a, b, i, v, self.cur());
            }
        }
        id
    }

    /// Builds `!right`.
    pub fn build_not_expr(&mut self, right: Expr) -> (id: InstrId)
        requires
            old(self).ready(node(expr_info(right))),
        ensures
            Self::built(*old(self), *final(self), node(expr_info(right)), id),
            final(self).cur().instructions@[id.0 as int].kind matches InstructionKind::Unary(ui) && ui.op
                == UnaryOpKind::Not && final(self).cur().has_instr(ui.value) && value_shape(final(self).cur(), right, ui.value),
            right.kind matches ExprKind::Identifier(i) ==> (final(self).cur().instructions@[id.0 as int].kind matches InstructionKind::Unary(
                ui,
            ) && Self::name_value(*old(self), final(self).cur(), i, old(self).context.block_id, ui.value)),
        decreases expr_info(right).size + 1, 3nat,
    {
        let span = right.span.clone();
        self.build_unary(span, right, UnaryOpKind::Not)
    }

    /// Builds `-right`.
    pub fn build_neg_expr(&mut self, right: Expr) -> (id: InstrId)
        requires
            old(self).ready(node(expr_info(right))),
        ensures
            Self::built(*old(self), *final(self), node(expr_info(right)), id),
            final(self).cur().instructions@[id.0 as int].kind matches InstructionKind::Unary(ui) && ui.op
                == UnaryOpKind::Neg && final(self).cur().has_instr(ui.value) && value_shape(final(self).cur(), right, ui.value),
            right.kind matches ExprKind::Identifier(i) ==> (final(self).cur().instructions@[id.0 as int].kind matches InstructionKind::Unary(
                ui,
            ) && Self::name_value(*old(self), final(self).cur(), i, old(self).context.block_id, ui.value)),
        decreases expr_info(right).size + 1, 3nat,
    {
        let span = right.span.clone();
        self.build_unary(span, right, UnaryOpKind::Neg)
    }

    /// Builds `left as target`.
    pub fn build_typecast_expr(&mut self, left: Expr, target: TypeAnnotation, span: Span) -> (id: InstrId)
        requires
            old(self).ready(node(expr_info(left))),
        ensures
            Self::built(*old(self), *final(self), node(expr_info(left)), id),
            final(self).cur().instructions@[id.0 as int].kind matches InstructionKind::Cast(ci) && ci.target == target
                && final(self).cur().has_instr(ci.src) && value_shape(final(self).cur(), left, ci.src),
            left.kind matches ExprKind::Identifier(i) ==> (final(self).cur().instructions@[id.0 as int].kind matches InstructionKind::Cast(
                ci,
            ) && Self::name_value(*old(self), final(self).cur(), i, old(self).context.block_id, ci.src)),
        decreases expr_info(left).size + 1, 2nat,
    {
        let ghost a = *self;
        let ghost iv = expr_info(left);
        let ghost info = node(iv);
        let ghost ge = left;
        let src = self.build_expr(left);
        let ghost b = *self;
        let ghost instr = InstrDefinition {
            kind: InstructionKind::Cast(CastInstr { src, target }),
            block: b.context.block_id,
            span,
        };
        proof {
            Self::lemma_progress_refl(b, no_info());
            Self::lemma_ready_after(a, b, info, iv, no_info());
        }
        let id = self.push_instruction(InstructionKind::Cast(CastInstr { src, target }), span);
        proof {
            Self::lemma_node_built(a, b, b, *self, iv, no_info(), info, instr, id);
            Self::lemma_value_after_push(b, *self, instr, id, ge, src);
            if let ExprKind::Identifier(i) = ge.kind {
                Self::lemma_push_values_kept(b, *self, instr, id);
                Self::lemma_name_value_of_read(a, b, i, src, self.cur());
            }
        }
        id
    }

    /// Builds `left is target`.
    pub fn build_is_type_expr(&mut self, left: Expr, target: TypeAnnotation, span: Span) -> (id: InstrId)
        requires
            old(self).ready(node(expr_info(left))),
        ensures
            Self::built(*old(self), *final(self), node(expr_info(left)), id),
            final(self).cur().instructions@[id.0 as int].kind matches InstructionKind::IsType(ii) && ii.target == target
                && final(self).cur().has_instr(ii.src) && value_shape(final(self).cur(), left, ii.src),
            left.kind matches ExprKind::Identifier(i) ==> (final(self).cur().instructions@[id.0 as int].kind matches InstructionKind::IsType(
                ii,
            ) && Self::name_value(*old(self), final(self).cur(), i, old(self).context.block_id, ii.src)),
        decreases expr_info(left).size + 1, 2nat,
    {
        let ghost a = *self;
        let ghost iv = expr_info(left);
        let ghost info = node(iv);
        let ghost ge = left;
        let src = self.build_expr(left);
        let ghost b = *self;
        let ghost instr = InstrDefinition {
            kind: InstructionKind::IsType(IsTypeInstr { src, target }),
            block: b.context.block_id,
            span,
        };
        proof {
            Self::lemma_progress_refl(b, no_info());
            Self::lemma_ready_after(a, b, info, iv, no_info());
        }
        let id = self.push_instruction(InstructionKind::IsType(IsTypeInstr { src, target }), span);
        proof {
            Self::lemma_node_built(a, b, b, *self, iv, no_info(), info, instr, id);
            Self::lemma_value_after_push(b, *self, instr, id, ge, src);
            if let ExprKind::Identifier(i) = ge.kind {
                Self::lemma_push_values_kept(b, *self, instr, id);
                Self::lemma_name_value_of_read(a, b, i, src, self.cur());
            }
        }
        id
    }

    /// Builds `left<type_args>`: the function `left` with its generic
    /// parameters bound to `type_args`.
    pub fn build_generic_apply_expr(&mut self, left: Expr, type_args: Vec<TypeAnnotation>, span: Span) -> (id: InstrId)
        requires
            old(self).ready(node(expr_info(left))),
        ensures
            Self::built(*old(self), *final(self), node(expr_info(left)), id),
            final(self).cur().instructions@[id.0 as int].kind matches InstructionKind::GenericApply(gi) && gi.type_args@
                == type_args@ && final(self).cur().has_instr(gi.func) && value_shape(final(self).cur(), left, gi.func),
    {
        let ghost a = *self;
        let ghost iv = expr_info(left);
        let ghost info = node(iv);
        let ghost ge = left;
        let func = self.build_expr(left);
        let ghost b = *self;
        let ghost instr = InstrDefinition {
            kind: InstructionKind::GenericApply(GenericApplyInstr { func, type_args }),
            block: b.context.block_id,
            span,
        };
        proof {
            Self::lemma_progress_refl(b, no_info());
            Self::lemma_ready_after(a, b, info, iv, no_info());
        }
        let id = self.push_instruction(InstructionKind::GenericApply(GenericApplyInstr { func, type_args }), span);
        proof {
            Self::lemma_node_built(a, b, b, *self, iv, no_info(), info, instr, id);
            Self::lemma_value_after_push(b, *self, instr, id, ge, func);
        }
        id
    }
}

} // verus!
