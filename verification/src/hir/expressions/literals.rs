use vstd::prelude::*;

use crate::ast::measure::{no_info, node};
use crate::ast::{NumberKind, Span, StringNode};
use crate::compile::interner::{interned_index, interned_table, StringId};
use crate::hir::builders::{Builder, InBlock};
use crate::hir::instructions::{InstrDefinition, InstrId, InstructionKind, MakeLiteralKind};

verus! {

impl Builder<InBlock> {
    /// Builds the literal `kind`, which is one node of syntax.
    fn build_literal(&mut self, kind: MakeLiteralKind, span: Span) -> (id: InstrId)
        requires
            old(self).ready(node(no_info())),
        ensures
            Self::built(*old(self), *final(self), node(no_info()), id),
            final(self).errors == old(self).errors,
            final(self).globals == old(self).globals,
            final(self).cur().instructions@[id.0 as int].kind == InstructionKind::MakeLiteral(kind),
    {
        let ghost entry = *self;
        let ghost k = kind;
        let id = self.push_instruction(InstructionKind::MakeLiteral(kind), span);
        proof {
            Self::lemma_pushed_built(entry, *self, InstrDefinition {
                kind: InstructionKind::MakeLiteral(k),
                block: entry.context.block_id,
                span,
            }, id);
            Self::lemma_built_weaken(entry, *self, no_info(), node(no_info()), id);
        }
        id
    }

    /// Builds the boolean literal `value`.
    pub fn build_bool_expr(&mut self, span: Span, value: bool) -> (id: InstrId)
        requires
            old(self).ready(node(no_info())),
        ensures
            Self::built(*old(self), *final(self), node(no_info()), id),
            final(self).errors == old(self).errors,
            final(self).cur().instructions@[id.0 as int].kind == InstructionKind::MakeLiteral(MakeLiteralKind::Bool(value)),
    {
        self.build_literal(MakeLiteralKind::Bool(value), span)
    }

    /// Builds the number literal `value`.
    pub fn build_number_expr(&mut self, span: Span, value: NumberKind) -> (id: InstrId)
        requires
            old(self).ready(node(no_info())),
        ensures
            Self::built(*old(self), *final(self), node(no_info()), id),
            final(self).errors == old(self).errors,
            final(self).cur().instructions@[id.0 as int].kind == InstructionKind::MakeLiteral(MakeLiteralKind::Number(value)),
    {
        self.build_literal(MakeLiteralKind::Number(value), span)
    }

    /// Builds `null`.
    pub fn build_null_expr(&mut self, span: Span) -> (id: InstrId)
        requires
            old(self).ready(node(no_info())),
        ensures
            Self::built(*old(self), *final(self), node(no_info()), id),
            final(self).errors == old(self).errors,
            final(self).cur().instructions@[id.0 as int].kind == InstructionKind::MakeLiteral(MakeLiteralKind::Null),
    {
        self.build_literal(MakeLiteralKind::Null, span)
    }

    /// Builds the string literal `node`: its text is interned, and the value
    /// refers to it by its handle.
    pub fn build_string_literal(&mut self, node: StringNode) -> (id: InstrId)
        requires
            old(self).ready(crate::ast::measure::node(no_info())),
        ensures
            Self::built(*old(self), *final(self), crate::ast::measure::node(no_info()), id),
            final(self).errors == old(self).errors,
            final(self).globals.string_interner@ == interned_table(old(self).globals.string_interner@, node.value@),
            final(self).cur().instructions@[id.0 as int].kind == InstructionKind::MakeLiteral(
                MakeLiteralKind::String(StringId(interned_index(old(self).globals.string_interner@, node.value@) as usize)),
            ),
    {
        let ghost entry = *self;
        let span = node.span.clone();
        let string_id = self.globals.string_interner.intern(node.value.as_str());
        let ghost mid = *self;
        proof {
            assert(mid.cur() == entry.cur()) by {
                Self::lemma_frame(entry, entry);
            }
            assert(mid.ready(crate::ast::measure::node(no_info())));
        }
        let id = self.build_literal(MakeLiteralKind::String(string_id), span);
        proof {
            assert forall|d: crate::ast::DeclarationId| #[trigger] entry.program.has_decl(d) implies self.program.has_decl(d) by {
                assert(mid.program.has_decl(d));
            }
        }
        id
    }
}

} // verus!
