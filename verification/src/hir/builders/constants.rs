use vstd::prelude::*;

use crate::ast::{DeclarationId, NumberKind, Span};
use crate::compile::interner::StringId;
use crate::hir::builders::{Builder, InBlock};
use crate::hir::instructions::{InstrDefinition, InstrId, InstructionKind, MakeLiteralKind};

verus! {

impl Builder<InBlock> {
    /// Appends the literal `kind` to the current block.
    fn emit_literal(&mut self, kind: MakeLiteralKind, span: Span) -> (id: InstrId)
        requires
            old(self).ssa_wf(),
            old(self).open_block(),
        ensures
            Self::pushed(
                *old(self),
                *final(self),
                InstrDefinition { kind: InstructionKind::MakeLiteral(kind), block: old(self).context.block_id, span },
                id,
            ),
    {
        self.push_instruction(InstructionKind::MakeLiteral(kind), span)
    }

    /// The number literal `val`.
    pub fn emit_number(&mut self, val: NumberKind, span: Span) -> (id: InstrId)
        requires
            old(self).ssa_wf(),
            old(self).open_block(),
        ensures
            Self::pushed(
                *old(self),
                *final(self),
                InstrDefinition {
                    kind: InstructionKind::MakeLiteral(MakeLiteralKind::Number(val)),
                    block: old(self).context.block_id,
                    span,
                },
                id,
            ),
    {
        self.emit_literal(MakeLiteralKind::Number(val), span)
    }

    /// The boolean literal `val`.
    pub fn emit_bool(&mut self, val: bool, span: Span) -> (id: InstrId)
        requires
            old(self).ssa_wf(),
            old(self).open_block(),
        ensures
            Self::pushed(
                *old(self),
                *final(self),
                InstrDefinition {
                    kind: InstructionKind::MakeLiteral(MakeLiteralKind::Bool(val)),
                    block: old(self).context.block_id,
                    span,
                },
                id,
            ),
    {
        self.emit_literal(MakeLiteralKind::Bool(val), span)
    }

    /// The string literal interned as `val`.
    pub fn emit_string(&mut self, val: StringId, span: Span) -> (id: InstrId)
        requires
            old(self).ssa_wf(),
            old(self).open_block(),
        ensures
            Self::pushed(
                *old(self),
                *final(self),
                InstrDefinition {
                    kind: InstructionKind::MakeLiteral(MakeLiteralKind::String(val)),
                    block: old(self).context.block_id,
                    span,
                },
                id,
            ),
    {
        self.emit_literal(MakeLiteralKind::String(val), span)
    }

    /// The value of type `void`.
    pub fn emit_void(&mut self, span: Span) -> (id: InstrId)
        requires
            old(self).ssa_wf(),
            old(self).open_block(),
        ensures
            Self::pushed(
                *old(self),
                *final(self),
                InstrDefinition {
                    kind: InstructionKind::MakeLiteral(MakeLiteralKind::Void),
                    block: old(self).context.block_id,
                    span,
                },
                id,
            ),
    {
        self.emit_literal(MakeLiteralKind::Void, span)
    }

    /// The `null` value.
    pub fn emit_null(&mut self, span: Span) -> (id: InstrId)
        requires
            old(self).ssa_wf(),
            old(self).open_block(),
        ensures
            Self::pushed(
                *old(self),
                *final(self),
                InstrDefinition {
                    kind: InstructionKind::MakeLiteral(MakeLiteralKind::Null),
                    block: old(self).context.block_id,
                    span,
                },
                id,
            ),
    {
        self.emit_literal(MakeLiteralKind::Null, span)
    }

    /// A reference to the function declared as `decl_id`.
    pub fn emit_const_fn(&mut self, decl_id: DeclarationId, span: Span) -> (id: InstrId)
        requires
            old(self).ssa_wf(),
            old(self).open_block(),
            old(self).program.decl_ids_unique(),
            old(self).program.has_decl(decl_id),
            old(self).program.decl_of(decl_id) is Fn,
        ensures
            Self::pushed(
                *old(self),
                *final(self),
                InstrDefinition {
                    kind: InstructionKind::MakeLiteral(MakeLiteralKind::Fn(decl_id)),
                    block: old(self).context.block_id,
                    span,
                },
                id,
            ),
    {
        self.emit_literal(MakeLiteralKind::Fn(decl_id), span)
    }
}

} // verus!
