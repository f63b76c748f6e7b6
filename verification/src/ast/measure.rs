use vstd::prelude::*;

use crate::ast::decl::FnDecl;
use crate::ast::expr::{BlockContents, Expr, ExprKind, Stmt};
use crate::ast::{DeclarationId, IdentifierNode};
use crate::compile::interner::StringId;

verus! {

/// What the construction needs to know of a piece of syntax: how many nodes
/// it has, the ids of the functions declared in it (at any depth), a bound
/// on the handles of their names, whether
/// no function declared in it declares, inside its own body, a function with
/// its own id, and whether every `if` in it has a first branch and an
/// `else`.
pub struct SyntaxInfo {
    pub size: nat,
    pub fns: Set<DeclarationId>,
    pub name_bound: nat,
    pub fns_ok: bool,
    pub ifs_complete: bool,
}

/// The information of no syntax at all.
pub open spec fn no_info() -> SyntaxInfo {
    SyntaxInfo { size: 0, fns: Set::empty(), name_bound: 0, fns_ok: true, ifs_complete: true }
}

/// The information of two pieces of syntax together.
pub open spec fn join(a: SyntaxInfo, b: SyntaxInfo) -> SyntaxInfo {
    SyntaxInfo {
        size: a.size + b.size,
        fns: a.fns.union(b.fns),
        name_bound: if a.name_bound >= b.name_bound {
            a.name_bound
        } else {
            b.name_bound
        },
        fns_ok: a.fns_ok && b.fns_ok,
        ifs_complete: a.ifs_complete && b.ifs_complete,
    }
}

/// The information of a node whose children together have `c`.
pub open spec fn node(c: SyntaxInfo) -> SyntaxInfo {
    SyntaxInfo { size: c.size + 1, fns: c.fns, name_bound: c.name_bound, fns_ok: c.fns_ok, ifs_complete: c.ifs_complete }
}

/// The information of the declaration of function `id`, named `name`,
/// whose body has `b`.
pub open spec fn fn_node(id: DeclarationId, name: StringId, b: SyntaxInfo) -> SyntaxInfo {
    SyntaxInfo {
        size: b.size + 1,
        fns: b.fns.insert(id),
        name_bound: if b.name_bound > name.0 {
            b.name_bound
        } else {
            (name.0 + 1) as nat
        },
        fns_ok: b.fns_ok && !b.fns.contains(id),
        ifs_complete: b.ifs_complete,
    }
}

pub open spec fn expr_info(e: Expr) -> SyntaxInfo
    decreases e,
{
    match e.kind {
        ExprKind::Null => node(no_info()),
        ExprKind::Not { right } => node(expr_info(*right)),
        ExprKind::Neg { right } => node(expr_info(*right)),
        ExprKind::Add { left, right } => node(join(expr_info(*left), expr_info(*right))),
        ExprKind::Subtract { left, right } => node(join(expr_info(*left), expr_info(*right))),
        ExprKind::Multiply { left, right } => node(join(expr_info(*left), expr_info(*right))),
        ExprKind::Divide { left, right } => node(join(expr_info(*left), expr_info(*right))),
        ExprKind::Modulo { left, right } => node(join(expr_info(*left), expr_info(*right))),
        ExprKind::LessThan { left, right } => node(join(expr_info(*left), expr_info(*right))),
        ExprKind::LessThanOrEqual { left, right } => node(join(expr_info(*left), expr_info(*right))),
        ExprKind::GreaterThan { left, right } => node(join(expr_info(*left), expr_info(*right))),
        ExprKind::GreaterThanOrEqual { left, right } => node(join(expr_info(*left), expr_info(*right))),
        ExprKind::Equal { left, right } => node(join(expr_info(*left), expr_info(*right))),
        ExprKind::NotEqual { left, right } => node(join(expr_info(*left), expr_info(*right))),
        ExprKind::And { left, right } => node(join(expr_info(*left), expr_info(*right))),
        ExprKind::Or { left, right } => node(join(expr_info(*left), expr_info(*right))),
        ExprKind::Struct(fields) => node(fields_info(fields@)),
        ExprKind::Access { left, field } => node(expr_info(*left)),
        ExprKind::StaticAccess { left, field } => node(expr_info(*left)),
        ExprKind::TypeCast { left, target } => node(expr_info(*left)),
        ExprKind::IsType { left, ty } => node(expr_info(*left)),
        ExprKind::FnCall { left, args } => node(join(expr_info(*left), exprs_info(args@))),
        ExprKind::BoolLiteral(b) => node(no_info()),
        ExprKind::Number(n) => node(no_info()),
        ExprKind::String(s) => node(no_info()),
        ExprKind::Identifier(id) => node(no_info()),
        ExprKind::Fn(f) => fn_node(f.id, f.identifier.name, block_info(f.body)),
        ExprKind::If { branches, else_branch } => {
            let parts = join(
                branches_info(branches@),
                opt_block_info(else_branch),
            );
            SyntaxInfo {
                size: parts.size + 1,
                fns: parts.fns,
                name_bound: parts.name_bound,
                fns_ok: parts.fns_ok,
                ifs_complete: parts.ifs_complete && else_branch is Some && branches.len() > 0,
            }
        },
        ExprKind::List(items) => node(exprs_info(items@)),
        ExprKind::CodeBlock(b) => node(block_info(b)),
        ExprKind::UnsafeBlock(b) => node(block_info(b)),
    }
}

/// The information of an `if` with `branches` and `else_branch`.
pub open spec fn if_info(branches: Seq<(Box<Expr>, BlockContents)>, else_branch: Option<BlockContents>) -> SyntaxInfo {
    let parts = join(
        branches_info(branches),
        opt_block_info(else_branch),
    );
    SyntaxInfo {
        size: parts.size + 1,
        fns: parts.fns,
        name_bound: parts.name_bound,
        fns_ok: parts.fns_ok,
        ifs_complete: parts.ifs_complete && else_branch is Some && branches.len() > 0,
    }
}

pub open spec fn exprs_info(s: Seq<Expr>) -> SyntaxInfo
    decreases s,
{
    if s.len() == 0 {
        no_info()
    } else {
        join(expr_info(s[0]), exprs_info(s.subrange(1, s.len() as int)))
    }
}

pub open spec fn fields_info(s: Seq<(IdentifierNode, Expr)>) -> SyntaxInfo
    decreases s,
{
    if s.len() == 0 {
        no_info()
    } else {
        join(expr_info(s[0].1), fields_info(s.subrange(1, s.len() as int)))
    }
}

pub open spec fn branches_info(s: Seq<(Box<Expr>, BlockContents)>) -> SyntaxInfo
    decreases s,
{
    if s.len() == 0 {
        no_info()
    } else {
        join(node(join(expr_info(*s[0].0), block_info(s[0].1))), branches_info(s.subrange(1, s.len() as int)))
    }
}

pub open spec fn block_info(b: BlockContents) -> SyntaxInfo
    decreases b,
{
    node(join(stmts_info(b.statements@), opt_expr_info(b.final_expr)))
}

pub open spec fn opt_block_info(b: Option<BlockContents>) -> SyntaxInfo
    decreases b,
{
    match b {
        Some(b) => block_info(b),
        None => no_info(),
    }
}

pub open spec fn opt_expr_info(e: Option<Box<Expr>>) -> SyntaxInfo
    decreases e,
{
    match e {
        Some(e) => expr_info(*e),
        None => no_info(),
    }
}

pub open spec fn stmts_info(s: Seq<Stmt>) -> SyntaxInfo
    decreases s,
{
    if s.len() == 0 {
        no_info()
    } else {
        join(stmt_info(s[0]), stmts_info(s.subrange(1, s.len() as int)))
    }
}

pub open spec fn stmt_info(s: Stmt) -> SyntaxInfo
    decreases s,
{
    match s {
        Stmt::Expression(e) => expr_info(e),
        Stmt::VarDecl(v) => node(expr_info(v.value)),
    }
}

/// The information of function declaration `f`.
pub open spec fn fn_decl_info(f: FnDecl) -> SyntaxInfo {
    fn_node(f.id, f.identifier.name, block_info(f.body))
}

} // verus!
