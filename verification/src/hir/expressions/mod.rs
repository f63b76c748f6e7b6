use vstd::prelude::*;

pub mod and;
pub mod binary;
pub mod codeblock;
pub mod fn_call;
pub mod fn_expr;
pub mod identifier;
pub mod if_expr;
pub mod list_literal;
pub mod literals;
pub mod struct_init;
pub mod unary;

use crate::ast::expr::{Expr, ExprKind};
use crate::ast::measure::{expr_info, join, no_info, node, SyntaxInfo};
use crate::ast::DeclarationId;
use crate::hir::builders::ssa::mem_missing;
use crate::hir::builders::{Builder, InBlock};
use crate::hir::expressions::if_expr::IfContext;
use crate::hir::errors::SemanticError;
use crate::hir::instructions::{BinaryOpKind, InstrDefinition, InstrId, InstructionKind, MakeLiteralKind, is_phi_kind};

verus! {

/// Instruction `id` of `cfg` stands in a sealed block.
pub open spec fn in_sealed_block(cfg: crate::hir::instructions::FunctionCFG, id: InstrId) -> bool {
    cfg.blocks@[cfg.instructions@[id.0 as int].block.0 as int].sealed
}

/// What `c2` keeps of `c1`: instructions that are not phis keep their kind,
/// instructions of sealed blocks stay as they are, and sealed blocks stay
/// sealed.
pub open spec fn values_kept(c1: crate::hir::instructions::FunctionCFG, c2: crate::hir::instructions::FunctionCFG) -> bool {
    &&& c2.instructions.len() >= c1.instructions.len()
    &&& c2.blocks.len() >= c1.blocks.len()
    &&& forall|i: int|
        0 <= i < c1.instructions.len() && !is_phi_kind(c1.instructions@[i].kind) ==> (#[trigger] c2.instructions@[i]).kind
            == c1.instructions@[i].kind
    &&& forall|i: int|
        0 <= i < c1.instructions.len() && c1.blocks@[c1.instructions@[i].block.0 as int].sealed
            ==> #[trigger] c2.instructions@[i] == c1.instructions@[i]
    &&& forall|b: int| 0 <= b < c1.blocks.len() && (#[trigger] c1.blocks@[b]).sealed ==> c2.blocks@[b].sealed
}

/// What `c2` keeps of `c1` is kept again by `c3`.
pub proof fn lemma_values_kept_trans(
    c1: crate::hir::instructions::FunctionCFG,
    c2: crate::hir::instructions::FunctionCFG,
    c3: crate::hir::instructions::FunctionCFG,
)
    requires
        c1.wf(),
        values_kept(c1, c2),
        values_kept(c2, c3),
    ensures
        values_kept(c1, c3),
{
    assert forall|i: int|
        0 <= i < c1.instructions.len() && c1.blocks@[c1.instructions@[i].block.0 as int].sealed
            implies #[trigger] c3.instructions@[i] == c1.instructions@[i] by {
        assert(c2.instructions@[i] == c1.instructions@[i]);
        assert(c2.blocks@[c1.instructions@[i].block.0 as int].sealed);
    }
    assert forall|i: int|
        0 <= i < c1.instructions.len() && !is_phi_kind(c1.instructions@[i].kind) implies (#[trigger] c3.instructions@[i]).kind
            == c1.instructions@[i].kind by {
        assert(c2.instructions@[i].kind == c1.instructions@[i].kind);
    }
    assert forall|b: int| 0 <= b < c1.blocks.len() && (#[trigger] c1.blocks@[b]).sealed implies c3.blocks@[b].sealed by {
        assert(c2.blocks@[b].sealed);
    }
}

/// The value of an expression stays what it was while later building keeps
/// what was built.
pub proof fn lemma_value_shape_kept(
    c1: crate::hir::instructions::FunctionCFG,
    c2: crate::hir::instructions::FunctionCFG,
    e: Expr,
    id: InstrId,
)
    requires
        c1.wf(),
        id.0 < c1.instructions.len(),
        values_kept(c1, c2),
        value_shape(c1, e, id),
    ensures
        value_shape(c2, e, id),
    decreases e,
{
    let i = id.0 as int;
    let bk = c1.instructions@[i].block.0 as int;
    if c1.blocks@[bk].sealed {
        assert(c2.instructions@[i] == c1.instructions@[i]);
        assert(c2.blocks@[bk].sealed);
    } else {
        assert(!is_phi_kind(c1.instructions@[i].kind) ==> c2.instructions@[i].kind == c1.instructions@[i].kind);
    }
    match e.kind {
        ExprKind::Add { left, right } => {
            let b = c1.instructions@[i].kind->Binary_0;
            lemma_value_shape_kept(c1, c2, *left, b.lhs);
            lemma_value_shape_kept(c1, c2, *right, b.rhs);
        },
        ExprKind::Subtract { left, right } => {
            let b = c1.instructions@[i].kind->Binary_0;
            lemma_value_shape_kept(c1, c2, *left, b.lhs);
            lemma_value_shape_kept(c1, c2, *right, b.rhs);
        },
        ExprKind::Multiply { left, right } => {
            let b = c1.instructions@[i].kind->Binary_0;
            lemma_value_shape_kept(c1, c2, *left, b.lhs);
            lemma_value_shape_kept(c1, c2, *right, b.rhs);
        },
        ExprKind::Divide { left, right } => {
            let b = c1.instructions@[i].kind->Binary_0;
            lemma_value_shape_kept(c1, c2, *left, b.lhs);
            lemma_value_shape_kept(c1, c2, *right, b.rhs);
        },
        ExprKind::Modulo { left, right } => {
            let b = c1.instructions@[i].kind->Binary_0;
            lemma_value_shape_kept(c1, c2, *left, b.lhs);
            lemma_value_shape_kept(c1, c2, *right, b.rhs);
        },
        ExprKind::LessThan { left, right } => {
            let b = c1.instructions@[i].kind->Binary_0;
            lemma_value_shape_kept(c1, c2, *left, b.lhs);
            lemma_value_shape_kept(c1, c2, *right, b.rhs);
        },
        ExprKind::LessThanOrEqual { left, right } => {
            let b = c1.instructions@[i].kind->Binary_0;
            lemma_value_shape_kept(c1, c2, *left, b.lhs);
            lemma_value_shape_kept(c1, c2, *right, b.rhs);
        },
        ExprKind::GreaterThan { left, right } => {
            let b = c1.instructions@[i].kind->Binary_0;
            lemma_value_shape_kept(c1, c2, *left, b.lhs);
            lemma_value_shape_kept(c1, c2, *right, b.rhs);
        },
        ExprKind::GreaterThanOrEqual { left, right } => {
            let b = c1.instructions@[i].kind->Binary_0;
            lemma_value_shape_kept(c1, c2, *left, b.lhs);
            lemma_value_shape_kept(c1, c2, *right, b.rhs);
        },
        ExprKind::Equal { left, right } => {
            let b = c1.instructions@[i].kind->Binary_0;
            lemma_value_shape_kept(c1, c2, *left, b.lhs);
            lemma_value_shape_kept(c1, c2, *right, b.rhs);
        },
        ExprKind::NotEqual { left, right } => {
            let b = c1.instructions@[i].kind->Binary_0;
            lemma_value_shape_kept(c1, c2, *left, b.lhs);
            lemma_value_shape_kept(c1, c2, *right, b.rhs);
        },
        ExprKind::Not { right } => {
            let u = c1.instructions@[i].kind->Unary_0;
            lemma_value_shape_kept(c1, c2, *right, u.value);
        },
        ExprKind::Neg { right } => {
            let u = c1.instructions@[i].kind->Unary_0;
            lemma_value_shape_kept(c1, c2, *right, u.value);
        },
        ExprKind::TypeCast { left, .. } => {
            let c = c1.instructions@[i].kind->Cast_0;
            lemma_value_shape_kept(c1, c2, *left, c.src);
        },
        ExprKind::IsType { left, .. } => {
            let t = c1.instructions@[i].kind->IsType_0;
            lemma_value_shape_kept(c1, c2, *left, t.src);
        },
        ExprKind::CodeBlock(b) => match b.final_expr {
            Some(fe) => lemma_value_shape_kept(c1, c2, *fe, id),
            None => {},
        },
        ExprKind::UnsafeBlock(b) => match b.final_expr {
            Some(fe) => lemma_value_shape_kept(c1, c2, *fe, id),
            None => {},
        },
        _ => {},
    }
}

/// The operation each operator builds, whatever its operands: `+` adds,
/// `-` subtracts, `*` multiplies, `/` divides, `%` takes the remainder, `==`,
/// `!=`, `<`, `<=`, `>` and `>=` compare as they read; `!` is logical
/// negation and unary `-` arithmetic negation.
pub proof fn law_operator_operations(cfg: crate::hir::instructions::FunctionCFG, e: Expr, id: InstrId)
    requires
        value_shape(cfg, e, id),
    ensures
        e.kind is Add ==> (cfg.instructions@[id.0 as int].kind matches InstructionKind::Binary(b) && b.op == BinaryOpKind::Add),
        e.kind is Subtract ==> (cfg.instructions@[id.0 as int].kind matches InstructionKind::Binary(b) && b.op == BinaryOpKind::Sub),
        e.kind is Multiply ==> (cfg.instructions@[id.0 as int].kind matches InstructionKind::Binary(b) && b.op == BinaryOpKind::Mul),
        e.kind is Divide ==> (cfg.instructions@[id.0 as int].kind matches InstructionKind::Binary(b) && b.op == BinaryOpKind::Div),
        e.kind is Modulo ==> (cfg.instructions@[id.0 as int].kind matches InstructionKind::Binary(b) && b.op == BinaryOpKind::Rem),
        e.kind is Equal ==> (cfg.instructions@[id.0 as int].kind matches InstructionKind::Binary(b) && b.op == BinaryOpKind::Eq),
        e.kind is NotEqual ==> (cfg.instructions@[id.0 as int].kind matches InstructionKind::Binary(b) && b.op == BinaryOpKind::Neq),
        e.kind is LessThan ==> (cfg.instructions@[id.0 as int].kind matches InstructionKind::Binary(b) && b.op == BinaryOpKind::Lt),
        e.kind is LessThanOrEqual ==> (cfg.instructions@[id.0 as int].kind matches InstructionKind::Binary(b) && b.op == BinaryOpKind::Lte),
        e.kind is GreaterThan ==> (cfg.instructions@[id.0 as int].kind matches InstructionKind::Binary(b) && b.op == BinaryOpKind::Gt),
        e.kind is GreaterThanOrEqual ==> (cfg.instructions@[id.0 as int].kind matches InstructionKind::Binary(b) && b.op == BinaryOpKind::Gte),
        e.kind is Not ==> (cfg.instructions@[id.0 as int].kind matches InstructionKind::Unary(u) && u.op
            == crate::hir::instructions::UnaryOpKind::Not),
        e.kind is Neg ==> (cfg.instructions@[id.0 as int].kind matches InstructionKind::Unary(u) && u.op
            == crate::hir::instructions::UnaryOpKind::Neg),
{
}

/// The value of a block stays what it was while later building keeps what
/// was built.
pub proof fn lemma_block_value_shape_kept(
    c1: crate::hir::instructions::FunctionCFG,
    c2: crate::hir::instructions::FunctionCFG,
    b: crate::ast::expr::BlockContents,
    id: InstrId,
)
    requires
        c1.wf(),
        id.0 < c1.instructions.len(),
        values_kept(c1, c2),
        block_value_shape(c1, b, id),
    ensures
        block_value_shape(c2, b, id),
{
    match b.final_expr {
        Some(fe) => lemma_value_shape_kept(c1, c2, *fe, id),
        None => {
            assert(!is_phi_kind(c1.instructions@[id.0 as int].kind));
        },
    }
}

/// What instruction the value of `e` is, as far as `e` alone decides it, in
/// the graph `cfg` where it was built as `id`: a literal for a literal, an
/// operation of the expression's operator on the values of its operands
/// (each an instruction of `cfg`), a call with one argument per
/// argument, a list or struct with one item per item, a phi with one source
/// per way in for a conditional (and, or, if), the function itself for a
/// function (of unknown type where it is generic), a value of unknown type
/// for a refused access, and for a block the value of its last expression
/// (`void` without one). The value of a name depends on the scope, the
/// declarations and the definitions at the time it is read, which the graph
/// does not hold, so it is not described here: `identifier_value`,
/// `name_value` and `name_now` describe it where a builder states it. A
/// phi that gives a value stands in a sealed block, so that nothing built
/// later changes it.
pub open spec fn value_shape(cfg: crate::hir::instructions::FunctionCFG, e: Expr, id: InstrId) -> bool
    decreases e,
{
    let k = cfg.instructions@[id.0 as int].kind;
    match e.kind {
        ExprKind::Null => k == InstructionKind::MakeLiteral(MakeLiteralKind::Null),
        ExprKind::BoolLiteral(b) => k == InstructionKind::MakeLiteral(MakeLiteralKind::Bool(b)),
        ExprKind::Number(n) => k == InstructionKind::MakeLiteral(MakeLiteralKind::Number(n)),
        ExprKind::String(_) => k matches InstructionKind::MakeLiteral(MakeLiteralKind::String(_)),
        ExprKind::Not { right } => k matches InstructionKind::Unary(u) && u.op == crate::hir::instructions::UnaryOpKind::Not
            && u.value.0 < cfg.instructions.len() && value_shape(cfg, *right, u.value),
        ExprKind::Neg { right } => k matches InstructionKind::Unary(u) && u.op == crate::hir::instructions::UnaryOpKind::Neg
            && u.value.0 < cfg.instructions.len() && value_shape(cfg, *right, u.value),
        ExprKind::Add { left, right } => k matches InstructionKind::Binary(b) && b.op == BinaryOpKind::Add
            && b.lhs.0 < cfg.instructions.len() && value_shape(cfg, *left, b.lhs) && b.rhs.0 < cfg.instructions.len()
            && value_shape(cfg, *right, b.rhs),
        ExprKind::Subtract { left, right } => k matches InstructionKind::Binary(b) && b.op == BinaryOpKind::Sub
            && b.lhs.0 < cfg.instructions.len() && value_shape(cfg, *left, b.lhs) && b.rhs.0 < cfg.instructions.len()
            && value_shape(cfg, *right, b.rhs),
        ExprKind::Multiply { left, right } => k matches InstructionKind::Binary(b) && b.op == BinaryOpKind::Mul
            && b.lhs.0 < cfg.instructions.len() && value_shape(cfg, *left, b.lhs) && b.rhs.0 < cfg.instructions.len()
            && value_shape(cfg, *right, b.rhs),
        ExprKind::Divide { left, right } => k matches InstructionKind::Binary(b) && b.op == BinaryOpKind::Div
            && b.lhs.0 < cfg.instructions.len() && value_shape(cfg, *left, b.lhs) && b.rhs.0 < cfg.instructions.len()
            && value_shape(cfg, *right, b.rhs),
        ExprKind::Modulo { left, right } => k matches InstructionKind::Binary(b) && b.op == BinaryOpKind::Rem
            && b.lhs.0 < cfg.instructions.len() && value_shape(cfg, *left, b.lhs) && b.rhs.0 < cfg.instructions.len()
            && value_shape(cfg, *right, b.rhs),
        ExprKind::LessThan { left, right } => k matches InstructionKind::Binary(b) && b.op == BinaryOpKind::Lt
            && b.lhs.0 < cfg.instructions.len() && value_shape(cfg, *left, b.lhs) && b.rhs.0 < cfg.instructions.len()
            && value_shape(cfg, *right, b.rhs),
        ExprKind::LessThanOrEqual { left, right } => k matches InstructionKind::Binary(b) && b.op == BinaryOpKind::Lte
            && b.lhs.0 < cfg.instructions.len() && value_shape(cfg, *left, b.lhs) && b.rhs.0 < cfg.instructions.len()
            && value_shape(cfg, *right, b.rhs),
        ExprKind::GreaterThan { left, right } => k matches InstructionKind::Binary(b) && b.op == BinaryOpKind::Gt
            && b.lhs.0 < cfg.instructions.len() && value_shape(cfg, *left, b.lhs) && b.rhs.0 < cfg.instructions.len()
            && value_shape(cfg, *right, b.rhs),
        ExprKind::GreaterThanOrEqual { left, right } => k matches InstructionKind::Binary(b) && b.op == BinaryOpKind::Gte
            && b.lhs.0 < cfg.instructions.len() && value_shape(cfg, *left, b.lhs) && b.rhs.0 < cfg.instructions.len()
            && value_shape(cfg, *right, b.rhs),
        ExprKind::Equal { left, right } => k matches InstructionKind::Binary(b) && b.op == BinaryOpKind::Eq
            && b.lhs.0 < cfg.instructions.len() && value_shape(cfg, *left, b.lhs) && b.rhs.0 < cfg.instructions.len()
            && value_shape(cfg, *right, b.rhs),
        ExprKind::NotEqual { left, right } => k matches InstructionKind::Binary(b) && b.op == BinaryOpKind::Neq
            && b.lhs.0 < cfg.instructions.len() && value_shape(cfg, *left, b.lhs) && b.rhs.0 < cfg.instructions.len()
            && value_shape(cfg, *right, b.rhs),
        ExprKind::And { .. } => k matches InstructionKind::Phi(p) && p.sources@.len() == 2 && in_sealed_block(cfg, id),
        ExprKind::Or { .. } => k matches InstructionKind::Phi(p) && p.sources@.len() == 2 && in_sealed_block(cfg, id),
        ExprKind::Access { .. } => k == InstructionKind::MakeLiteral(MakeLiteralKind::Unknown),
        ExprKind::StaticAccess { .. } => k == InstructionKind::MakeLiteral(MakeLiteralKind::Unknown),
        ExprKind::TypeCast { left, target } => k matches InstructionKind::Cast(c) && c.target == target
            && c.src.0 < cfg.instructions.len() && value_shape(cfg, *left, c.src),
        ExprKind::IsType { left, ty } => k matches InstructionKind::IsType(t) && t.target == ty
            && t.src.0 < cfg.instructions.len() && value_shape(cfg, *left, t.src),
        ExprKind::FnCall { args, .. } => k matches InstructionKind::Call(c) && c.args@.len() == args@.len(),
        ExprKind::List(items) => k matches InstructionKind::ListInit(l) && l.items@.len() == items@.len(),
        ExprKind::Struct(fields) => k matches InstructionKind::StructInit(si) && si.fields@.len() == fields@.len()
            && !si.by_value,
        ExprKind::If { branches, .. } => k matches InstructionKind::Phi(p) && p.sources@.len() == branches@.len() + 1
            && in_sealed_block(cfg, id),
        ExprKind::Fn(f) => if f.generic_params@.len() > 0 {
            k == InstructionKind::MakeLiteral(MakeLiteralKind::Unknown)
        } else {
            k == InstructionKind::MakeLiteral(MakeLiteralKind::Fn(f.id))
        },
        ExprKind::CodeBlock(b) => match b.final_expr {
            Some(fe) => value_shape(cfg, *fe, id),
            None => k == InstructionKind::MakeLiteral(MakeLiteralKind::Void),
        },
        ExprKind::UnsafeBlock(b) => match b.final_expr {
            Some(fe) => value_shape(cfg, *fe, id),
            None => k == InstructionKind::MakeLiteral(MakeLiteralKind::Void),
        },
        ExprKind::Identifier(_) => true,
    }
}

/// The value of the block `b` built as `id` in `cfg`: that of its last
/// expression, `void` without one.
pub open spec fn block_value_shape(
    cfg: crate::hir::instructions::FunctionCFG,
    b: crate::ast::expr::BlockContents,
    id: InstrId,
) -> bool {
    match b.final_expr {
        Some(fe) => value_shape(cfg, *fe, id),
        None => cfg.instructions@[id.0 as int].kind == InstructionKind::MakeLiteral(MakeLiteralKind::Void),
    }
}

impl Builder<InBlock> {
    /// The operands of a binary operation `k` built from `old` to `new` that
    /// are names: the left one, read first, is what `name_value` says of it
    /// in the starting block of `old`; the right one, read last, what
    /// `name_now` says of `new`.
    pub open spec fn binary_operand_names(old: Self, new: Self, left: Expr, right: Expr, k: InstructionKind) -> bool {
        &&& left.kind matches ExprKind::Identifier(i) ==> (k matches InstructionKind::Binary(b) && Self::name_value(
            old,
            new.cur(),
            i,
            old.context.block_id,
            b.lhs,
        ))
        &&& right.kind matches ExprKind::Identifier(j) ==> (k matches InstructionKind::Binary(b) && Self::name_now(new, j, b.rhs))
    }

    /// The operands of the operation that `e`, built from `old` to `new` as
    /// `id`, applies, where they are names (see `binary_operand_names`; a
    /// unary operation, cast or type test reads its operand first, and a call
    /// its callee).
    pub open spec fn operand_names(old: Self, new: Self, e: Expr, id: InstrId) -> bool {
        let k = new.cur().instructions@[id.0 as int].kind;
        let blk = old.context.block_id;
        match e.kind {
            ExprKind::Add { left, right } => Self::binary_operand_names(old, new, *left, *right, k),
            ExprKind::Subtract { left, right } => Self::binary_operand_names(old, new, *left, *right, k),
            ExprKind::Multiply { left, right } => Self::binary_operand_names(old, new, *left, *right, k),
            ExprKind::Divide { left, right } => Self::binary_operand_names(old, new, *left, *right, k),
            ExprKind::Modulo { left, right } => Self::binary_operand_names(old, new, *left, *right, k),
            ExprKind::LessThan { left, right } => Self::binary_operand_names(old, new, *left, *right, k),
            ExprKind::LessThanOrEqual { left, right } => Self::binary_operand_names(old, new, *left, *right, k),
            ExprKind::GreaterThan { left, right } => Self::binary_operand_names(old, new, *left, *right, k),
            ExprKind::GreaterThanOrEqual { left, right } => Self::binary_operand_names(old, new, *left, *right, k),
            ExprKind::Equal { left, right } => Self::binary_operand_names(old, new, *left, *right, k),
            ExprKind::NotEqual { left, right } => Self::binary_operand_names(old, new, *left, *right, k),
            ExprKind::Not { right } => right.kind matches ExprKind::Identifier(i) ==> (k matches InstructionKind::Unary(u)
                && Self::name_value(old, new.cur(), i, blk, u.value)),
            ExprKind::Neg { right } => right.kind matches ExprKind::Identifier(i) ==> (k matches InstructionKind::Unary(u)
                && Self::name_value(old, new.cur(), i, blk, u.value)),
            ExprKind::TypeCast { left, .. } => left.kind matches ExprKind::Identifier(i) ==> (k matches InstructionKind::Cast(c)
                && Self::name_value(old, new.cur(), i, blk, c.src)),
            ExprKind::FnCall { left, .. } => left.kind matches ExprKind::Identifier(i) ==> (k matches InstructionKind::Call(c)
                && Self::name_value(old, new.cur(), i, blk, c.func)),
            ExprKind::IsType { left, .. } => left.kind matches ExprKind::Identifier(i) ==> (k matches InstructionKind::IsType(t)
                && Self::name_value(old, new.cur(), i, blk, t.src)),
            _ => true,
        }
    }

    /// The counters that building code increases: blocks, memory versions,
    /// and blocks still without a memory version.
    pub open spec fn cost(self) -> int {
        self.cur().next_block_id + self.cur().next_memory_id + mem_missing(
            self.current_memory_def@,
            self.cur().blocks.len() as nat,
        )
    }

    /// The scope has a frame, and every name in it is bound to a declaration
    /// of the program.
    pub open spec fn scope_ok(self) -> bool {
        &&& self.current_scope@.len() > 0
        &&& forall|i: int, j: int|
            0 <= i < self.current_scope@.len() && 0 <= j < self.current_scope@[i].1.len() ==> self.program.has_decl(
                (#[trigger] self.current_scope@[i].1[j]).decl,
            )
    }

    /// The builder can build syntax described by `info` in the current block.
    pub open spec fn ready(self, info: SyntaxInfo) -> bool {
        &&& self.build_wf()
        &&& self.open_block()
        &&& self.scope_ok()
        &&& self.program.decl_ids_unique()
        &&& self.globals.string_interner.wf()
        &&& info.fns_ok
        &&& info.ifs_complete
        &&& !info.fns.contains(self.context.func_id)
        &&& info.name_bound <= self.globals.string_interner@.len()
        &&& self.cost() + 5 * info.size < usize::MAX
    }

    /// What building syntax described by `info` made of `old` in `new`: the
    /// builder is still well-formed and in an open block (the one it started
    /// in, or one it created), its scope is back as it was, the blocks that
    /// existed keep their predecessors and sealing (and, but for the starting
    /// block, their terminators and their being made of phis only), no
    /// instruction was removed, errors were only added, declarations only
    /// added or replaced, graphs of other functions left alone but for those
    /// of functions declared in the syntax, and the counters grew by at most
    /// five per node.
    pub open spec fn progressed(old: Self, new: Self, info: SyntaxInfo) -> bool {
        &&& Self::progressed_in(old, new, info)
        &&& new.current_scope == old.current_scope
    }

    /// `progressed`, but for the scope, which may have gained bindings: what
    /// building made of `old` in `new` inside a block of code.
    pub open spec fn progressed_in(old: Self, new: Self, info: SyntaxInfo) -> bool {
        Self::progressed_except_in(old, new, info, -1)
    }

    /// `progressed_in`, but block `m` may have gained predecessors.
    pub open spec fn progressed_except_in(old: Self, new: Self, info: SyntaxInfo, m: int) -> bool {
        let oc = old.cur();
        let nc = new.cur();
        let c = old.context.block_id.0 as int;
        &&& new.build_wf()
        &&& new.open_block()
        &&& new.program.decl_ids_unique()
        &&& forall|d: DeclarationId| #[trigger] old.program.has_decl(d) ==> new.program.has_decl(d)
        &&& new.globals.string_interner.wf()
        &&& new.globals.string_interner@.len() >= old.globals.string_interner@.len()
        &&& new.context.path == old.context.path
        &&& new.context.func_id == old.context.func_id
        &&& (new.context.block_id == old.context.block_id || new.context.block_id.0 >= oc.blocks.len())
        &&& new.cost() <= old.cost() + 5 * info.size
        &&& nc.instructions.len() >= oc.instructions.len()
        &&& forall|i: int|
            0 <= i < oc.instructions.len() ==> (#[trigger] nc.instructions@[i]).block == oc.instructions@[i].block
        &&& forall|i: int|
            0 <= i < oc.instructions.len() && !is_phi_kind(oc.instructions@[i].kind) ==> (
            #[trigger] nc.instructions@[i]).kind == oc.instructions@[i].kind
        &&& forall|i: int|
            0 <= i < oc.instructions.len() && oc.blocks@[oc.instructions@[i].block.0 as int].sealed
                ==> #[trigger] nc.instructions@[i] == oc.instructions@[i]
        &&& nc.blocks.len() >= oc.blocks.len()
        &&& forall|b: int| 0 <= b < oc.blocks.len() ==> {
            &&& (#[trigger] nc.blocks@[b]).sealed == oc.blocks@[b].sealed
            &&& (b != m ==> nc.blocks@[b].predecessors@ == oc.blocks@[b].predecessors@)
            &&& (b != c ==> nc.blocks@[b].terminator == oc.blocks@[b].terminator)
            &&& (b != c && oc.only_phis_in(b) ==> nc.only_phis_in(b))
        }
        &&& new.errors@.len() >= old.errors@.len()
        &&& new.errors@.subrange(0, old.errors@.len() as int) == old.errors@
        &&& new.program.modules == old.program.modules
        &&& new.program.entry_path == old.program.entry_path
        &&& new.program.target_ptr_size == old.program.target_ptr_size
        &&& new.program.target_ptr_align == old.program.target_ptr_align
        &&& new.program.foreign_links == old.program.foreign_links
        &&& new.program.cfgs.len() >= old.program.cfgs.len()
        &&& new.pos() == old.pos()
        &&& forall|i: int|
            0 <= i < old.program.cfgs.len() && i != old.pos() && !info.fns.contains(
                (#[trigger] old.program.cfgs@[i]).id,
            ) ==> new.program.cfgs@[i] == old.program.cfgs@[i]
    }

    /// Building syntax described by `info` made `new` of `old`, and its value
    /// is the instruction `result`.
    pub open spec fn built(old: Self, new: Self, info: SyntaxInfo, result: InstrId) -> bool {
        &&& Self::progressed(old, new, info)
        &&& new.cur().has_instr(result)
    }

    /// The value of an expression built in `old` is still its value after
    /// progress.
    pub proof fn lemma_value_after_progress(old: Self, new: Self, info: SyntaxInfo, m: int, e: Expr, id: InstrId)
        requires
            old.build_wf(),
            old.cur().has_instr(id),
            value_shape(old.cur(), e, id),
            Self::progressed_except_in(old, new, info, m),
        ensures
            value_shape(new.cur(), e, id),
    {
        Self::lemma_progress_values_kept(old, new, info, m);
        lemma_value_shape_kept(old.cur(), new.cur(), e, id);
    }

    /// Appending an instruction keeps the values of expressions built
    /// before.
    pub proof fn lemma_value_after_push(old: Self, new: Self, instr: InstrDefinition, pid: InstrId, e: Expr, id: InstrId)
        requires
            old.ssa_wf(),
            old.cur().has_instr(id),
            value_shape(old.cur(), e, id),
            Self::pushed(old, new, instr, pid),
        ensures
            value_shape(new.cur(), e, id),
    {
        Self::lemma_frame(old, new);
        let (oc, nc) = (old.cur(), new.cur());
        assert forall|b: int| 0 <= b < oc.blocks.len() && (#[trigger] oc.blocks@[b]).sealed implies nc.blocks@[b].sealed by {
            if b != old.context.block_id.0 {
                assert(nc.blocks@[b] == oc.blocks@[b]);
            }
        }
        assert(values_kept(oc, nc));
        lemma_value_shape_kept(oc, nc, e, id);
    }

    /// Once a block has a terminator it keeps it: building code, which
    /// starts in an open block, leaves every terminator already set as it
    /// was.
    pub proof fn law_building_keeps_terminators(old: Self, new: Self, info: SyntaxInfo)
        requires
            old.open_block(),
            Self::progressed_in(old, new, info),
        ensures
            forall|x: int| 0 <= x < old.cur().blocks.len() && old.cur().blocks@[x].terminator is Some ==> (
            #[trigger] new.cur().blocks@[x]).terminator == old.cur().blocks@[x].terminator,
    {
    }

    /// Appending an instruction keeps what was built.
    pub proof fn lemma_push_values_kept(old: Self, new: Self, instr: InstrDefinition, id: InstrId)
        requires
            old.cfg_found(),
            Self::pushed(old, new, instr, id),
        ensures
            values_kept(old.cur(), new.cur()),
    {
        Self::lemma_frame(old, new);
        assert forall|x: int| 0 <= x < old.cur().blocks.len() && (#[trigger] old.cur().blocks@[x]).sealed implies new.cur().blocks@[
            x].sealed by {
            if x != old.context.block_id.0 {
                assert(new.cur().blocks@[x] == old.cur().blocks@[x]);
            }
        }
    }

    /// Once a block has a terminator it never changes, whatever the builder
    /// does next: append an instruction, end the current block (which must be
    /// open, so it is never one already ended), seal a block, or build code.
    pub proof fn law_terminator_is_final(
        old: Self,
        new: Self,
        x: int,
        instr: InstrDefinition,
        id: InstrId,
        targets: Seq<crate::hir::instructions::BasicBlockId>,
        term: crate::hir::instructions::Terminator,
        b: crate::hir::instructions::BasicBlockId,
        info: SyntaxInfo,
    )
        requires
            0 <= x < old.cur().blocks.len(),
            old.cur().blocks@[x].terminator is Some,
            Self::pushed(old, new, instr, id) || (old.open_block() && Self::jumped_to(old, new, targets, term))
                || Self::seal_block_effect(old, new, b) || Self::seal_effect(old, new) || (old.open_block()
                && Self::progressed_in(old, new, info)),
        ensures
            new.cur().blocks@[x].terminator == old.cur().blocks@[x].terminator,
    {
        if Self::pushed(old, new, instr, id) {
            if x != old.context.block_id.0 {
                assert(new.cur().blocks@[x] == old.cur().blocks@[x]);
            }
        }
    }

    /// Progress keeps what was built: the values of expressions built before
    /// stay what they were.
    pub proof fn lemma_progress_values_kept(old: Self, new: Self, info: SyntaxInfo, m: int)
        requires
            Self::progressed_except_in(old, new, info, m),
        ensures
            values_kept(old.cur(), new.cur()),
    {
        assert forall|b: int| 0 <= b < old.cur().blocks.len() && (#[trigger] old.cur().blocks@[b]).sealed implies new.cur().blocks@[
            b].sealed by {
            assert(new.cur().blocks@[b].sealed == old.cur().blocks@[b].sealed);
        }
    }

    /// Having built nothing is progress.
    pub proof fn lemma_progress_refl(a: Self, info: SyntaxInfo)
        requires
            a.ready(info),
        ensures
            Self::progressed(a, a, no_info()),
    {
        Self::lemma_frame(a, a);
        assert(a.errors@.subrange(0, a.errors@.len() as int) =~= a.errors@);
    }

    /// Progress after progress is progress.
    pub proof fn lemma_progress_trans(a: Self, b: Self, c: Self, i1: SyntaxInfo, i2: SyntaxInfo, info: SyntaxInfo)
        requires
            a.build_wf(),
            Self::progressed(a, b, i1),
            Self::progressed(b, c, i2),
            i1.size + i2.size <= info.size,
            i1.fns.subset_of(info.fns),
            i2.fns.subset_of(info.fns),
        ensures
            Self::progressed(a, c, info),
    {
        Self::lemma_progress_in_trans(a, b, c, i1, i2, info);
    }

    /// Progress inside a block of code after progress inside it is progress
    /// inside it.
    pub proof fn lemma_progress_in_trans(a: Self, b: Self, c: Self, i1: SyntaxInfo, i2: SyntaxInfo, info: SyntaxInfo)
        requires
            a.build_wf(),
            Self::progressed_in(a, b, i1),
            Self::progressed_in(b, c, i2),
            i1.size + i2.size <= info.size,
            i1.fns.subset_of(info.fns),
            i2.fns.subset_of(info.fns),
        ensures
            Self::progressed_in(a, c, info),
    {
        Self::lemma_progress_except_trans(a, b, c, i1, i2, info, -1);
    }

    /// The same, where block `m` may gain predecessors in both steps.
    pub proof fn lemma_progress_except_trans(
        a: Self,
        b: Self,
        c: Self,
        i1: SyntaxInfo,
        i2: SyntaxInfo,
        info: SyntaxInfo,
        m: int,
    )
        requires
            a.build_wf(),
            Self::progressed_except_in(a, b, i1, m),
            Self::progressed_except_in(b, c, i2, m),
            i1.size + i2.size <= info.size,
            i1.fns.subset_of(info.fns),
            i2.fns.subset_of(info.fns),
        ensures
            Self::progressed_except_in(a, c, info, m),
    {
        Self::lemma_frame(a, a);
        assert forall|i: int|
            0 <= i < a.program.cfgs.len() && i != a.pos() && !info.fns.contains(
                (#[trigger] a.program.cfgs@[i]).id,
            ) implies c.program.cfgs@[i] == a.program.cfgs@[i] by {
            assert(!i1.fns.contains(a.program.cfgs@[i].id));
            assert(b.program.cfgs@[i] == a.program.cfgs@[i]);
            assert(!i2.fns.contains(b.program.cfgs@[i].id));
        }
        let (ac, bc, cc) = (a.cur(), b.cur(), c.cur());
        let x = a.context.block_id.0 as int;
        assert forall|i: int|
            0 <= i < ac.instructions.len() && ac.blocks@[ac.instructions@[i].block.0 as int].sealed
                implies #[trigger] cc.instructions@[i] == ac.instructions@[i] by {
            assert(bc.instructions@[i] == ac.instructions@[i]);
            assert(bc.blocks@[ac.instructions@[i].block.0 as int].sealed);
        }
        assert forall|blk: int| 0 <= blk < ac.blocks.len() implies {
            &&& (#[trigger] cc.blocks@[blk]).sealed == ac.blocks@[blk].sealed
            &&& (blk != m ==> cc.blocks@[blk].predecessors@ == ac.blocks@[blk].predecessors@)
            &&& (blk != x ==> cc.blocks@[blk].terminator == ac.blocks@[blk].terminator)
            &&& (blk != x && ac.only_phis_in(blk) ==> cc.only_phis_in(blk))
        } by {
            assert(bc.blocks@[blk].sealed == ac.blocks@[blk].sealed);
        }
        assert(c.errors@.subrange(0, a.errors@.len() as int) =~= a.errors@) by {
            assert forall|k: int| 0 <= k < a.errors@.len() implies c.errors@[k] == a.errors@[k] by {
                assert(c.errors@.subrange(0, b.errors@.len() as int)[k] == c.errors@[k]);
                assert(b.errors@.subrange(0, a.errors@.len() as int)[k] == b.errors@[k]);
            }
        }
    }

    /// Progress everywhere is progress where block `m` may gain
    /// predecessors; and when `m` is newer than the start, the reverse holds
    /// too.
    pub proof fn lemma_except_equiv(a: Self, c: Self, info: SyntaxInfo, m: int)
        ensures
            Self::progressed_in(a, c, info) ==> Self::progressed_except_in(a, c, info, m),
            m >= a.cur().blocks.len() && Self::progressed_except_in(a, c, info, m) ==> Self::progressed_in(a, c, info),
    {
    }

    /// Building one piece after another builds both.
    pub proof fn lemma_built_trans(
        a: Self,
        b: Self,
        c: Self,
        i1: SyntaxInfo,
        i2: SyntaxInfo,
        info: SyntaxInfo,
        r1: InstrId,
        r2: InstrId,
    )
        requires
            a.build_wf(),
            Self::built(a, b, i1, r1),
            Self::built(b, c, i2, r2),
            i1.size + i2.size <= info.size,
            i1.fns.subset_of(info.fns),
            i2.fns.subset_of(info.fns),
        ensures
            Self::built(a, c, info, r2),
    {
        Self::lemma_progress_trans(a, b, c, i1, i2, info);
    }

    /// Appending an instruction builds nothing that costs.
    pub proof fn lemma_pushed_built(old: Self, new: Self, instr: InstrDefinition, id: InstrId)
        requires
            old.ready(no_info()),
            Self::pushed(old, new, instr, id),
            instr.block == old.context.block_id,
        ensures
            Self::built(old, new, no_info(), id),
    {
        Self::lemma_frame(old, new);
        let (oc, nc) = (old.cur(), new.cur());
        let c = old.context.block_id.0 as int;
        assert forall|i: int| 0 <= i < old.program.cfgs.len() && i != old.pos() implies #[trigger] new.program.cfgs@[i] == old.program.cfgs@[i] by {}
        assert forall|b: int| 0 <= b < oc.blocks.len() && b != c && oc.only_phis_in(b) implies nc.only_phis_in(b) by {
            assert(nc.blocks@[b] == oc.blocks@[b]);
            assert forall|k: int| 0 <= k < nc.blocks@[b].instructions.len() implies crate::hir::instructions::is_phi_kind(
                #[trigger] nc.kind_at(b, k),
            ) by {
                let x = oc.blocks@[b].instructions@[k];
                assert(crate::hir::instructions::is_phi_kind(oc.kind_at(b, k)));
                assert(nc.instructions@[x.0 as int] == oc.instructions@[x.0 as int]);
            }
        }
        assert forall|d: DeclarationId| #[trigger] old.program.has_decl(d) implies new.program.has_decl(d) by {}
        assert(new.errors@.subrange(0, old.errors@.len() as int) =~= old.errors@);
        assert(new.open_block());
        assert(new.scope_ok()) by {
            assert forall|i: int, j: int|
                0 <= i < new.current_scope@.len() && 0 <= j < new.current_scope@[i].1.len() implies new.program.has_decl(
                    (#[trigger] new.current_scope@[i].1[j]).decl,
                ) by {
                assert(old.program.has_decl(old.current_scope@[i].1[j].decl));
            }
        }
    }

    /// Building from a builder that only recorded more errors than `old`
    /// builds from `old`.
    pub proof fn lemma_after_errors(old: Self, mid: Self, new: Self, info: SyntaxInfo, result: InstrId)
        requires
            mid.context == old.context,
            mid.program == old.program,
            mid.current_scope == old.current_scope,
            mid.globals == old.globals,
            mid.current_def == old.current_def,
            mid.incomplete_phis == old.incomplete_phis,
            mid.current_memory_def == old.current_memory_def,
            mid.incomplete_memory_phis == old.incomplete_memory_phis,
            mid.errors@.len() >= old.errors@.len(),
            mid.errors@.subrange(0, old.errors@.len() as int) == old.errors@,
            Self::built(mid, new, info, result),
        ensures
            Self::built(old, new, info, result),
    {
        assert(new.errors@.subrange(0, old.errors@.len() as int) =~= old.errors@) by {
            assert forall|k: int| 0 <= k < old.errors@.len() implies new.errors@[k] == old.errors@[k] by {
                assert(new.errors@.subrange(0, mid.errors@.len() as int)[k] == new.errors@[k]);
                assert(mid.errors@.subrange(0, old.errors@.len() as int)[k] == mid.errors@[k]);
            }
        }
    }

    /// Records `err` and returns a value of unknown type in its place, so
    /// that building goes on.
    pub fn report_error_and_get_poison(&mut self, err: SemanticError) -> (id: InstrId)
        requires
            old(self).ready(no_info()),
        ensures
            Self::built(*old(self), *final(self), no_info(), id),
            final(self).errors@ == old(self).errors@.push(err),
            final(self).cur().instructions@[id.0 as int].kind == InstructionKind::MakeLiteral(MakeLiteralKind::Unknown),
            final(self).context == old(self).context,
            final(self).current_scope == old(self).current_scope,
            final(self).program.declarations == old(self).program.declarations,
            final(self).current_def == old(self).current_def,
    {
        let ghost entry = *self;
        let span = err.span.clone();
        self.errors.push(err);
        let ghost mid = *self;
        proof {
            assert(mid.errors@.subrange(0, entry.errors@.len() as int) =~= entry.errors@);
            assert(mid.cur() == entry.cur());
        }
        let id = self.push_instruction(InstructionKind::MakeLiteral(MakeLiteralKind::Unknown), span);
        proof {
            Self::lemma_pushed_built(mid, *self, InstrDefinition {
                kind: InstructionKind::MakeLiteral(MakeLiteralKind::Unknown),
                block: mid.context.block_id,
                span,
            }, id);
            Self::lemma_after_errors(entry, mid, *self, no_info(), id);
            assert(self.errors@ == mid.errors@);
        }
        id
    }

    /// What builds within a smaller budget builds within a larger one.
    pub proof fn lemma_built_weaken(old: Self, new: Self, i1: SyntaxInfo, i2: SyntaxInfo, result: InstrId)
        requires
            Self::built(old, new, i1, result),
            i1.size <= i2.size,
            i1.fns.subset_of(i2.fns),
        ensures
            Self::built(old, new, i2, result),
    {
    }

    /// Progress within a smaller budget is progress within a larger one.
    pub proof fn lemma_built_weaken_progress(old: Self, new: Self, i1: SyntaxInfo, i2: SyntaxInfo)
        requires
            Self::progressed(old, new, i1),
            i1.size <= i2.size,
            i1.fns.subset_of(i2.fns),
        ensures
            Self::progressed(old, new, i2),
    {
    }

    /// A lookup of a variable builds nothing that costs.
    pub proof fn lemma_ssa_step_built(old: Self, new: Self, val: InstrId)
        requires
            old.ready(no_info()),
            Self::ssa_step(old, new),
            crate::hir::builders::ssa::instrs_kept_but(old.cur(), new.cur(), -1),
            new.cur().has_instr(val),
            new.current_scope == old.current_scope,
            new.errors == old.errors,
        ensures
            Self::built(old, new, no_info(), val),
    {
        Self::lemma_frame(old, new);
        let (oc, nc) = (old.cur(), new.cur());
        assert forall|x: int| 0 <= x < oc.blocks.len() implies (#[trigger] nc.blocks@[x]).predecessors@ == oc.blocks@[x].predecessors@
            && nc.blocks@[x].terminator == oc.blocks@[x].terminator by {
            assert(crate::hir::builders::ssa::shape(nc)[x] == crate::hir::builders::ssa::block_shape(nc.blocks@[x]));
            assert(crate::hir::builders::ssa::shape(oc)[x] == crate::hir::builders::ssa::block_shape(oc.blocks@[x]));
        }
        crate::hir::builders::control_flow::lemma_same_edges(oc, nc);
        assert forall|d: DeclarationId| #[trigger] old.program.has_decl(d) implies new.program.has_decl(d) by {}
        assert(new.errors@.subrange(0, old.errors@.len() as int) =~= old.errors@);
        assert(new.build_wf());
        assert(new.open_block());
        assert(new.cost() <= old.cost());
        assert forall|b: int| 0 <= b < oc.blocks.len() implies {
            &&& (#[trigger] nc.blocks@[b]).sealed == oc.blocks@[b].sealed
            &&& nc.blocks@[b].predecessors@ == oc.blocks@[b].predecessors@
            &&& nc.blocks@[b].terminator == oc.blocks@[b].terminator
            &&& (oc.only_phis_in(b) ==> nc.only_phis_in(b))
        } by {
            assert(crate::hir::builders::ssa::shape(nc)[b] == crate::hir::builders::ssa::block_shape(nc.blocks@[b]));
            assert(crate::hir::builders::ssa::shape(oc)[b] == crate::hir::builders::ssa::block_shape(oc.blocks@[b]));
        }
        assert forall|i: int| 0 <= i < old.program.cfgs.len() && i != old.pos() implies #[trigger] new.program.cfgs@[i]
            == old.program.cfgs@[i] by {}
    }

    /// After progress within part of a budget, the builder is ready for
    /// syntax that fits in the rest.
    pub proof fn lemma_ready_after(a: Self, c: Self, info: SyntaxInfo, used: SyntaxInfo, rest: SyntaxInfo)
        requires
            a.ready(info),
            Self::progressed(a, c, used),
            used.size + rest.size <= info.size,
            rest.fns.subset_of(info.fns),
            rest.name_bound <= info.name_bound,
            rest.fns_ok,
            rest.ifs_complete,
        ensures
            c.ready(rest),
    {
        assert forall|i: int, j: int|
            0 <= i < c.current_scope@.len() && 0 <= j < c.current_scope@[i].1.len() implies c.program.has_decl(
                (#[trigger] c.current_scope@[i].1[j]).decl,
            ) by {
            assert(a.program.has_decl(a.current_scope@[i].1[j].decl));
        }
    }

    /// Building the children of a node and then appending the node's
    /// instruction builds the node.
    pub proof fn lemma_node_built(
        a: Self,
        b: Self,
        c: Self,
        d: Self,
        il: SyntaxInfo,
        ir: SyntaxInfo,
        info: SyntaxInfo,
        instr: InstrDefinition,
        id: InstrId,
    )
        requires
            a.ready(info),
            Self::progressed(a, b, il),
            Self::progressed(b, c, ir),
            Self::pushed(c, d, instr, id),
            instr.block == c.context.block_id,
            il.size + ir.size + 1 <= info.size,
            il.fns.subset_of(info.fns),
            ir.fns.subset_of(info.fns),
        ensures
            Self::built(a, d, info, id),
    {
        let lr = join(il, ir);
        Self::lemma_progress_trans(a, b, c, il, ir, lr);
        Self::lemma_ready_after(a, c, info, lr, no_info());
        Self::lemma_pushed_built(c, d, instr, id);
        Self::lemma_progress_trans(a, c, d, lr, no_info(), info);
    }

    /// Appending an instruction that reads and changes memory builds one
    /// node.
    pub proof fn lemma_memory_pushed_built(
        old: Self,
        new: Self,
        mem_in: crate::hir::instructions::MemoryId,
        mem_out: crate::hir::instructions::MemoryId,
        instr: InstrDefinition,
        id: InstrId,
    )
        requires
            old.ready(node(no_info())),
            Self::memory_pushed(old, new, true, mem_in, mem_out, instr, id),
        ensures
            Self::built(old, new, node(no_info()), id),
    {
        Self::lemma_frame(old, new);
        let (oc, nc) = (old.cur(), new.cur());
        let c = old.context.block_id.0 as int;
        crate::hir::builders::control_flow::lemma_same_edges(oc, nc);
        assert forall|i: int| 0 <= i < old.program.cfgs.len() && i != old.pos() implies #[trigger] new.program.cfgs@[i] == old.program.cfgs@[i] by {}
        assert forall|b: int| 0 <= b < oc.blocks.len() && b != c && oc.only_phis_in(b) implies nc.only_phis_in(b) by {
            assert forall|k: int| 0 <= k < nc.blocks@[b].instructions.len() implies crate::hir::instructions::is_phi_kind(
                #[trigger] nc.kind_at(b, k),
            ) by {
                let x = oc.blocks@[b].instructions@[k];
                assert(nc.blocks@[b].instructions@[k] == x);
                assert(crate::hir::instructions::is_phi_kind(oc.kind_at(b, k)));
                assert(nc.instructions@[x.0 as int] == oc.instructions@[x.0 as int]);
            }
        }
        assert forall|d: DeclarationId| #[trigger] old.program.has_decl(d) implies new.program.has_decl(d) by {}
        assert(new.errors@.subrange(0, old.errors@.len() as int) =~= old.errors@);
    }

    /// Builds the code that computes `expr`, in the current block and the
    /// blocks its control flow needs; returns the instruction holding its
    /// value.
    pub fn build_expr(&mut self, expr: Expr) -> (id: InstrId)
        requires
            old(self).ready(expr_info(expr)),
        ensures
            Self::built(*old(self), *final(self), expr_info(expr), id),
            value_shape(final(self).cur(), expr, id),
            expr.kind matches ExprKind::Identifier(i) ==> Self::identifier_value(*old(self), *final(self), i, id),
            Self::operand_names(*old(self), *final(self), expr, id),
        decreases expr_info(expr).size, 4nat,
    {
        let span = expr.span.clone();
        match expr.kind {
            ExprKind::Not { right } => self.build_not_expr(*right),
            ExprKind::Neg { right } => self.build_neg_expr(*right),
            ExprKind::Add { left, right } => self.build_binary(*left, *right, BinaryOpKind::Add),
            ExprKind::Subtract { left, right } => self.build_binary(*left, *right, BinaryOpKind::Sub),
            ExprKind::Multiply { left, right } => self.build_binary(*left, *right, BinaryOpKind::Mul),
            ExprKind::Divide { left, right } => self.build_binary(*left, *right, BinaryOpKind::Div),
            ExprKind::Modulo { left, right } => self.build_binary(*left, *right, BinaryOpKind::Rem),
            ExprKind::LessThan { left, right } => self.build_binary(*left, *right, BinaryOpKind::Lt),
            ExprKind::LessThanOrEqual { left, right } => self.build_binary(*left, *right, BinaryOpKind::Lte),
            ExprKind::GreaterThan { left, right } => self.build_binary(*left, *right, BinaryOpKind::Gt),
            ExprKind::GreaterThanOrEqual { left, right } => self.build_binary(*left, *right, BinaryOpKind::Gte),
            ExprKind::Equal { left, right } => self.build_binary(*left, *right, BinaryOpKind::Eq),
            ExprKind::NotEqual { left, right } => self.build_binary(*left, *right, BinaryOpKind::Neq),
            ExprKind::And { left, right } => self.build_and_expr(*left, *right),
            ExprKind::Or { left, right } => self.build_or_expr(*left, *right),
            ExprKind::BoolLiteral(value) => self.build_bool_expr(span, value),
            ExprKind::Number(value) => self.build_number_expr(span, value),
            ExprKind::String(node) => self.build_string_literal(node),
            ExprKind::Null => self.build_null_expr(span),
            ExprKind::Identifier(identifier) => self.build_identifier_expr(identifier),
            ExprKind::Access { left, field } => self.build_access_expr(*left, field),
            ExprKind::StaticAccess { left, field } => self.build_static_access_expr(*left, field),
            ExprKind::TypeCast { left, target } => self.build_typecast_expr(*left, target, span),
            ExprKind::IsType { left, ty } => self.build_is_type_expr(*left, ty, span),
            ExprKind::List(items) => self.build_list_literal_expr(span, items),
            ExprKind::Struct(fields) => self.build_struct_init_expr(span, fields, false),
            ExprKind::If { branches, else_branch } => self.build_if(branches, else_branch, IfContext::Expression),
            ExprKind::CodeBlock(block) => self.build_codeblock_expr(block),
            ExprKind::UnsafeBlock(block) => self.build_codeblock_expr(block),
            ExprKind::FnCall { left, args } => self.build_fn_call_expr(*left, args, span),
            ExprKind::Fn(f) => self.build_fn_expr(*f),
        }
    }
}

} // verus!
