use vstd::prelude::*;

use crate::ast::decl::Declaration;
use crate::ast::expr::Expr;
use crate::ast::measure::{expr_info, no_info, node};
use crate::ast::IdentifierNode;
use crate::hir::builders::{Builder, InBlock};
use crate::hir::errors::{SemanticError, SemanticErrorKind};
use crate::hir::instructions::{InstrDefinition, InstrId, InstructionKind, MakeLiteralKind};
use crate::hir::scope::{lemma_lookup_bound, lookup_in_frames};
use crate::hir::builders::ssa::defs_kept;
use crate::hir::expressions::values_kept;
use crate::hir::instructions::{BasicBlockId, FunctionCFG};

verus! {

/// What a name is used as, by the kind of its declaration.
enum NameUse {
    Function,
    Variable,
    Type,
}

impl Builder<InBlock> {
    /// What the name `identifier` stands for when read in `old`, leaving
    /// `new` and the value `id`: a name not in scope is an error and a value
    /// of unknown type; a function is referred to by its declaration; a
    /// variable or parameter is read at the current block (its definition
    /// there if it has one, otherwise looked up through the predecessors);
    /// a type is an error and a value of unknown type. Reading a name
    /// changes no declaration, binding or definition.
    pub open spec fn identifier_value(old: Self, new: Self, identifier: IdentifierNode, id: InstrId) -> bool {
        &&& new.context == old.context
        &&& new.current_scope == old.current_scope
        &&& new.program.declarations == old.program.declarations
        &&& defs_kept(old.current_def@, new.current_def@)
        &&& match lookup_in_frames(old.current_scope@, identifier.name) {
            None => new.errors@ == old.errors@.push(
                SemanticError { kind: SemanticErrorKind::UndeclaredIdentifier(identifier), span: identifier.span },
            ) && new.cur().instructions@[id.0 as int].kind == InstructionKind::MakeLiteral(
                MakeLiteralKind::Unknown,
            ),
            Some(d) => match old.program.decl_of(d) {
                Declaration::Fn(_) | Declaration::ExternFn(_) => new.errors == old.errors
                    && new.cur().instructions@[id.0 as int].kind == InstructionKind::MakeLiteral(
                    MakeLiteralKind::Fn(d),
                ),
                Declaration::Var(_) | Declaration::Param(_) => new.errors == old.errors
                    && new.current_def@.contains_key((old.context.block_id, d))
                    && new.current_def@[(old.context.block_id, d)] == id && (old.current_def@.contains_key(
                    (old.context.block_id, d),
                ) ==> id == old.current_def@[(old.context.block_id, d)]) && (!old.current_def@.contains_key(
                    (old.context.block_id, d),
                ) ==> Self::variable_looked_up(old, new, old.context.block_id, d, id)),
                _ => new.errors@ == old.errors@.push(
                    SemanticError { kind: SemanticErrorKind::CannotUseTypeDeclarationAsValue, span: identifier.span },
                ) && new.cur().instructions@[id.0 as int].kind == InstructionKind::MakeLiteral(
                    MakeLiteralKind::Unknown,
                ),
            },
        }
    }

    /// What the name `i`, read in block `blk` of the builder `old`, is as the
    /// instruction `id` of the graph `cfg` built since: a value of unknown
    /// type if it is not in scope or names a type; the function itself if it
    /// names one; for a variable or parameter, its definition in `blk` if
    /// `old` has one there; otherwise, in a sealed block with one
    /// predecessor, its definition there if `old` has one; otherwise a new
    /// instruction (the phi made for the read).
    pub open spec fn name_value(old: Self, cfg: FunctionCFG, i: IdentifierNode, blk: BasicBlockId, id: InstrId) -> bool {
        let k = cfg.instructions@[id.0 as int].kind;
        match lookup_in_frames(old.current_scope@, i.name) {
            None => k == InstructionKind::MakeLiteral(MakeLiteralKind::Unknown),
            Some(d) => match old.program.decl_of(d) {
                Declaration::Fn(_) | Declaration::ExternFn(_) => k == InstructionKind::MakeLiteral(MakeLiteralKind::Fn(d)),
                Declaration::Var(_) | Declaration::Param(_) => {
                    let b = old.cur().blocks@[blk.0 as int];
                    if old.current_def@.contains_key((blk, d)) {
                        id == old.current_def@[(blk, d)]
                    } else if b.sealed && b.predecessors@.len() == 1 {
                        old.current_def@.contains_key((b.predecessors@[0], d)) ==> id == old.current_def@[(
                            b.predecessors@[0],
                            d,
                        )]
                    } else {
                        id.0 == old.cur().instructions.len()
                    }
                },
                _ => k == InstructionKind::MakeLiteral(MakeLiteralKind::Unknown),
            },
        }
    }

    /// What the name `i`, read last of all in the builder `new`, is as the
    /// instruction `id`: as in `name_value`, and for a variable or parameter
    /// the definition `new` records for it in its current block.
    pub open spec fn name_now(new: Self, i: IdentifierNode, id: InstrId) -> bool {
        let k = new.cur().instructions@[id.0 as int].kind;
        match lookup_in_frames(new.current_scope@, i.name) {
            None => k == InstructionKind::MakeLiteral(MakeLiteralKind::Unknown),
            Some(d) => match new.program.decl_of(d) {
                Declaration::Fn(_) | Declaration::ExternFn(_) => k == InstructionKind::MakeLiteral(MakeLiteralKind::Fn(d)),
                Declaration::Var(_) | Declaration::Param(_) => new.current_def@.contains_key((new.context.block_id, d))
                    && new.current_def@[(new.context.block_id, d)] == id,
                _ => k == InstructionKind::MakeLiteral(MakeLiteralKind::Unknown),
            },
        }
    }

    /// A name read from `old` to `new` as `id` is what `name_value` says, in
    /// any graph that keeps what `new` built.
    pub proof fn lemma_name_value_of_read(old: Self, new: Self, i: IdentifierNode, id: InstrId, cfg: FunctionCFG)
        requires
            Self::identifier_value(old, new, i, id),
            new.cur().has_instr(id),
            values_kept(new.cur(), cfg),
        ensures
            Self::name_value(old, cfg, i, old.context.block_id, id),
    {
        let blk = old.context.block_id;
        match lookup_in_frames(old.current_scope@, i.name) {
            None => {},
            Some(d) => {
                match old.program.decl_of(d) {
                    Declaration::Var(_) | Declaration::Param(_) => {
                        let b = old.cur().blocks@[blk.0 as int];
                        if !old.current_def@.contains_key((blk, d)) && b.sealed && b.predecessors@.len() == 1 {
                            let p = b.predecessors@[0];
                            if old.current_def@.contains_key((p, d)) {
                                assert(new.current_def@[(p, d)] == old.current_def@[(p, d)]);
                            }
                        }
                    },
                    _ => {},
                }
            },
        }
    }

    /// A name read from `old` to `mid` as `id`, with only an instruction
    /// appended after, is what `name_now` says of the builder at the end.
    pub proof fn lemma_name_now_of_read(old: Self, mid: Self, new: Self, i: IdentifierNode, id: InstrId, instr: InstrDefinition, at: InstrId)
        requires
            Self::identifier_value(old, mid, i, id),
            mid.cfg_found(),
            mid.cur().has_instr(id),
            Self::pushed(mid, new, instr, at),
        ensures
            Self::name_now(new, i, id),
    {
        Self::lemma_frame(mid, new);
        assert(new.cur().instructions@[id.0 as int] == mid.cur().instructions@[id.0 as int]);
    }

    /// Builds the value a name refers to: a function is referred to by its
    /// declaration, a variable or parameter read at the current block; a
    /// name that is not in scope, or that names a type, is an error.
    pub fn build_identifier_expr(&mut self, identifier: IdentifierNode) -> (id: InstrId)
        requires
            old(self).ready(node(no_info())),
        ensures
            Self::built(*old(self), *final(self), node(no_info()), id),
            Self::identifier_value(*old(self), *final(self), identifier, id),
    {
        let ghost entry = *self;
        let span = identifier.span.clone();
        let decl_id = match self.current_scope.lookup(identifier.name) {
            Some(id) => id,
            None => {
                let id = self.report_error_and_get_poison(
                    SemanticError { span, kind: SemanticErrorKind::UndeclaredIdentifier(identifier) },
                );
                proof {
                    Self::lemma_built_weaken(entry, *self, no_info(), node(no_info()), id);
                }
                return id;
            },
        };
        proof {
            lemma_lookup_bound(entry.current_scope@, identifier.name);
            let (i, j) = choose|i: int, j: int|
                0 <= i < entry.current_scope@.len() && 0 <= j < entry.current_scope@[i].1.len() && (
                #[trigger] entry.current_scope@[i].1[j]).decl == decl_id;
            assert(entry.program.has_decl(entry.current_scope@[i].1[j].decl));
        }
        let index = match self.program.find_decl(decl_id) {
            Some(i) => i,
            None => vstd::pervasive::unreached(),
        };
        let name_use = match &self.program.declarations[index].decl {
            Declaration::Fn(_) | Declaration::ExternFn(_) => NameUse::Function,
            Declaration::Var(_) | Declaration::Param(_) => NameUse::Variable,
            _ => NameUse::Type,
        };
        if let NameUse::Function = name_use {
            let id = self.push_instruction(InstructionKind::MakeLiteral(MakeLiteralKind::Fn(decl_id)), span);
            proof {
                Self::lemma_pushed_built(entry, *self, InstrDefinition {
                    kind: InstructionKind::MakeLiteral(MakeLiteralKind::Fn(decl_id)),
                    block: entry.context.block_id,
                    span,
                }, id);
                Self::lemma_built_weaken(entry, *self, no_info(), node(no_info()), id);
            }
            id
        } else if let NameUse::Variable = name_use {
            let block = self.context.block_id;
            let id = self.read_variable(block, decl_id);
            proof {
                Self::lemma_ssa_step_built(entry, *self, id);
                Self::lemma_built_weaken(entry, *self, no_info(), node(no_info()), id);
            }
            id
        } else {
            let id = self.report_error_and_get_poison(
                SemanticError { span, kind: SemanticErrorKind::CannotUseTypeDeclarationAsValue },
            );
            proof {
                Self::lemma_built_weaken(entry, *self, no_info(), node(no_info()), id);
            }
            id
        }
    }

    /// Builds `left::field`: static access is not supported, so this is an
    /// error at `field`, and `left` is not built.
    pub fn build_static_access_expr(&mut self, left: Expr, field: IdentifierNode) -> (id: InstrId)
        requires
            old(self).ready(node(expr_info(left))),
        ensures
            Self::built(*old(self), *final(self), node(expr_info(left)), id),
            final(self).errors@ == old(self).errors@.push(
                SemanticError { kind: SemanticErrorKind::CannotStaticAccess, span: field.span },
            ),
            final(self).cur().instructions@[id.0 as int].kind == InstructionKind::MakeLiteral(MakeLiteralKind::Unknown),
    {
        let ghost entry = *self;
        let span = field.span.clone();
        let id = self.report_error_and_get_poison(SemanticError { kind: SemanticErrorKind::CannotStaticAccess, span });
        proof {
            Self::lemma_built_weaken(entry, *self, no_info(), node(expr_info(left)), id);
        }
        id
    }

    /// Builds `left.field`: field access is not supported yet, so this is an
    /// error at `field`, and `left` is not built.
    pub fn build_access_expr(&mut self, left: Expr, field: IdentifierNode) -> (id: InstrId)
        requires
            old(self).ready(node(expr_info(left))),
        ensures
            Self::built(*old(self), *final(self), node(expr_info(left)), id),
            final(self).errors@ == old(self).errors@.push(
                SemanticError { kind: SemanticErrorKind::CannotAccessField, span: field.span },
            ),
            final(self).cur().instructions@[id.0 as int].kind == InstructionKind::MakeLiteral(MakeLiteralKind::Unknown),
    {
        let ghost entry = *self;
        let field_span = field.span.clone();
        let id = self.report_error_and_get_poison(
            SemanticError { kind: SemanticErrorKind::CannotAccessField, span: field_span },
        );
        proof {
            Self::lemma_built_weaken(entry, *self, no_info(), node(expr_info(left)), id);
        }
        id
    }
}

} // verus!
