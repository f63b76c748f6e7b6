use vstd::prelude::*;

use crate::ast::decl::{FnDecl, GenericParam, Param, VarDecl};
use crate::ast::expr::{BlockContents, Expr, ExprKind, Stmt};
use crate::ast::type_annotation::{TypeAnnotation, TypeAnnotationKind};
use crate::ast::IdentifierNode;

verus! {

/// `b` is `a` node for node: the same kinds, names, values and positions,
/// with sequences of the same length whose items are the same in turn.
pub open spec fn same_expr(a: Expr, b: Expr) -> bool
    decreases a,
{
    &&& a.span == b.span
    &&& match a.kind {
        ExprKind::Not { right } => b.kind matches ExprKind::Not { right: r2 } && same_expr(*right, *r2),
        ExprKind::Neg { right } => b.kind matches ExprKind::Neg { right: r2 } && same_expr(*right, *r2),
        ExprKind::Add { left, right } => b.kind matches ExprKind::Add { left: l2, right: r2 } && same_expr(*left, *l2)
            && same_expr(*right, *r2),
        ExprKind::Subtract { left, right } => b.kind matches ExprKind::Subtract { left: l2, right: r2 } && same_expr(*left, *l2)
            && same_expr(*right, *r2),
        ExprKind::Multiply { left, right } => b.kind matches ExprKind::Multiply { left: l2, right: r2 } && same_expr(*left, *l2)
            && same_expr(*right, *r2),
        ExprKind::Divide { left, right } => b.kind matches ExprKind::Divide { left: l2, right: r2 } && same_expr(*left, *l2)
            && same_expr(*right, *r2),
        ExprKind::Modulo { left, right } => b.kind matches ExprKind::Modulo { left: l2, right: r2 } && same_expr(*left, *l2)
            && same_expr(*right, *r2),
        ExprKind::LessThan { left, right } => b.kind matches ExprKind::LessThan { left: l2, right: r2 } && same_expr(*left, *l2)
            && same_expr(*right, *r2),
        ExprKind::LessThanOrEqual { left, right } => b.kind matches ExprKind::LessThanOrEqual { left: l2, right: r2 } && same_expr(*left, *l2)
            && same_expr(*right, *r2),
        ExprKind::GreaterThan { left, right } => b.kind matches ExprKind::GreaterThan { left: l2, right: r2 } && same_expr(*left, *l2)
            && same_expr(*right, *r2),
        ExprKind::GreaterThanOrEqual { left, right } => b.kind matches ExprKind::GreaterThanOrEqual { left: l2, right: r2 } && same_expr(*left, *l2)
            && same_expr(*right, *r2),
        ExprKind::Equal { left, right } => b.kind matches ExprKind::Equal { left: l2, right: r2 } && same_expr(*left, *l2)
            && same_expr(*right, *r2),
        ExprKind::NotEqual { left, right } => b.kind matches ExprKind::NotEqual { left: l2, right: r2 } && same_expr(*left, *l2)
            && same_expr(*right, *r2),
        ExprKind::And { left, right } => b.kind matches ExprKind::And { left: l2, right: r2 } && same_expr(*left, *l2)
            && same_expr(*right, *r2),
        ExprKind::Or { left, right } => b.kind matches ExprKind::Or { left: l2, right: r2 } && same_expr(*left, *l2)
            && same_expr(*right, *r2),
        ExprKind::Struct(fields) => b.kind matches ExprKind::Struct(f2) && same_fields(fields@, f2@),
        ExprKind::Access { left, field } => b.kind matches ExprKind::Access { left: l2, field: g2 } && same_expr(*left, *l2)
            && field == g2,
        ExprKind::StaticAccess { left, field } => b.kind matches ExprKind::StaticAccess { left: l2, field: g2 } && same_expr(
            *left,
            *l2,
        ) && field == g2,
        ExprKind::TypeCast { left, target } => b.kind matches ExprKind::TypeCast { left: l2, target: t2 } && same_expr(
            *left,
            *l2,
        ) && same_type(target, t2),
        ExprKind::IsType { left, ty } => b.kind matches ExprKind::IsType { left: l2, ty: t2 } && same_expr(*left, *l2)
            && same_type(ty, t2),
        ExprKind::FnCall { left, args } => b.kind matches ExprKind::FnCall { left: l2, args: a2 } && same_expr(*left, *l2)
            && same_exprs(args@, a2@),
        ExprKind::Fn(f) => b.kind matches ExprKind::Fn(f2) && same_fn(*f, *f2),
        ExprKind::If { branches, else_branch } => b.kind matches ExprKind::If { branches: b2, else_branch: e2 }
            && same_branches(branches@, b2@) && same_opt_block(else_branch, e2),
        ExprKind::List(items) => b.kind matches ExprKind::List(i2) && same_exprs(items@, i2@),
        ExprKind::CodeBlock(bl) => b.kind matches ExprKind::CodeBlock(c2) && same_block(bl, c2),
        ExprKind::UnsafeBlock(bl) => b.kind matches ExprKind::UnsafeBlock(c2) && same_block(bl, c2),
        _ => b.kind == a.kind,
    }
}

/// The expressions of `b` are those of `a`, in turn.
pub open spec fn same_exprs(a: Seq<Expr>, b: Seq<Expr>) -> bool
    decreases a,
{
    &&& a.len() == b.len()
    &&& forall|i: int| 0 <= i < a.len() ==> #[trigger] same_expr(a[i], b[i])
}

/// The field initializers of `b` are those of `a`, in turn.
pub open spec fn same_fields(a: Seq<(IdentifierNode, Expr)>, b: Seq<(IdentifierNode, Expr)>) -> bool
    decreases a,
{
    &&& a.len() == b.len()
    &&& forall|i: int| 0 <= i < a.len() ==> a[i].0 == b[i].0 && #[trigger] same_expr(a[i].1, b[i].1)
}

/// The branches of `b` are those of `a`, in turn.
pub open spec fn same_branches(a: Seq<(Box<Expr>, BlockContents)>, b: Seq<(Box<Expr>, BlockContents)>) -> bool
    decreases a,
{
    &&& a.len() == b.len()
    &&& forall|i: int| 0 <= i < a.len() ==> #[trigger] same_expr(*a[i].0, *b[i].0) && same_block(a[i].1, b[i].1)
}

/// `b` is `a`, or neither is there.
pub open spec fn same_opt_block(a: Option<BlockContents>, b: Option<BlockContents>) -> bool
    decreases a,
{
    match a {
        Some(x) => b matches Some(y) && same_block(x, y),
        None => b is None,
    }
}

/// The block `b` is `a` node for node.
pub open spec fn same_block(a: BlockContents, b: BlockContents) -> bool
    decreases a,
{
    &&& a.span == b.span
    &&& same_stmts(a.statements@, b.statements@)
    &&& match a.final_expr {
        Some(e) => b.final_expr matches Some(e2) && same_expr(*e, *e2),
        None => b.final_expr is None,
    }
}

/// The statements of `b` are those of `a`, in turn.
pub open spec fn same_stmts(a: Seq<Stmt>, b: Seq<Stmt>) -> bool
    decreases a,
{
    &&& a.len() == b.len()
    &&& forall|i: int| 0 <= i < a.len() ==> #[trigger] same_stmt(a[i], b[i])
}

/// The statement `b` is `a` node for node.
pub open spec fn same_stmt(a: Stmt, b: Stmt) -> bool
    decreases a,
{
    match a {
        Stmt::Expression(e) => b matches Stmt::Expression(e2) && same_expr(e, e2),
        Stmt::VarDecl(v) => b matches Stmt::VarDecl(v2) && same_var(v, v2),
    }
}

/// The variable declaration `b` is `a` node for node: the same id,
/// documentation, name, type annotation and initializer.
pub open spec fn same_var(a: VarDecl, b: VarDecl) -> bool
    decreases a,
{
    &&& a.id == b.id
    &&& a.documentation == b.documentation
    &&& a.identifier == b.identifier
    &&& same_opt_type(a.constraint, b.constraint)
    &&& same_expr(a.value, b.value)
}

/// The function declaration `b` is `a` node for node: the same id,
/// documentation, name, generic parameters, parameters, return type, body
/// and export.
pub open spec fn same_fn(a: FnDecl, b: FnDecl) -> bool
    decreases a,
{
    &&& a.id == b.id
    &&& a.documentation == b.documentation
    &&& a.identifier == b.identifier
    &&& a.is_exported == b.is_exported
    &&& same_generics(a.generic_params@, b.generic_params@)
    &&& same_params(a.params@, b.params@)
    &&& same_type(a.return_type, b.return_type)
    &&& same_block(a.body, b.body)
}

/// The generic parameters of `b` are those of `a`, in turn.
pub open spec fn same_generics(a: Seq<GenericParam>, b: Seq<GenericParam>) -> bool
    decreases a,
{
    &&& a.len() == b.len()
    &&& forall|i: int| 0 <= i < a.len() ==> a[i].identifier == b[i].identifier && #[trigger] same_opt_type(
        a[i].extends,
        b[i].extends,
    )
}

/// The parameters of `b` are those of `a`, in turn: the same id, name and
/// type.
pub open spec fn same_params(a: Seq<Param>, b: Seq<Param>) -> bool
    decreases a,
{
    &&& a.len() == b.len()
    &&& forall|i: int| 0 <= i < a.len() ==> a[i].id == b[i].id && a[i].identifier == b[i].identifier && #[trigger] same_type(
        a[i].constraint,
        b[i].constraint,
    )
}

/// `b` is `a`, or neither is there.
pub open spec fn same_opt_type(a: Option<TypeAnnotation>, b: Option<TypeAnnotation>) -> bool
    decreases a,
{
    match a {
        Some(x) => b matches Some(y) && same_type(x, y),
        None => b is None,
    }
}

/// The type annotations of `b` are those of `a`, in turn.
pub open spec fn same_types(a: Seq<TypeAnnotation>, b: Seq<TypeAnnotation>) -> bool
    decreases a,
{
    &&& a.len() == b.len()
    &&& forall|i: int| 0 <= i < a.len() ==> #[trigger] same_type(a[i], b[i])
}

/// The type annotation `b` is `a` node for node.
pub open spec fn same_type(a: TypeAnnotation, b: TypeAnnotation) -> bool
    decreases a,
{
    &&& a.span == b.span
    &&& match a.kind {
        TypeAnnotationKind::List(x) => b.kind matches TypeAnnotationKind::List(y) && same_type(*x, *y),
        TypeAnnotationKind::GenericApply { left, args } => b.kind matches TypeAnnotationKind::GenericApply {
            left: l2,
            args: a2,
        } && same_type(*left, *l2) && same_types(args@, a2@),
        TypeAnnotationKind::Struct(ps) => b.kind matches TypeAnnotationKind::Struct(p2) && same_params(ps@, p2@),
        TypeAnnotationKind::Pointer(x) => b.kind matches TypeAnnotationKind::Pointer(y) && same_type(*x, *y),
        TypeAnnotationKind::MutPointer(x) => b.kind matches TypeAnnotationKind::MutPointer(y) && same_type(*x, *y),
        TypeAnnotationKind::FnType { params, return_type } => b.kind matches TypeAnnotationKind::FnType {
            params: p2,
            return_type: r2,
        } && same_params(params@, p2@) && same_type(*return_type, *r2),
        TypeAnnotationKind::Refinement { base, condition } => b.kind matches TypeAnnotationKind::Refinement {
            base: b2,
            condition: c2,
        } && same_type(*base, *b2) && same_expr(*condition, *c2),
        _ => b.kind == a.kind,
    }
}

/// A copy of a type annotation is the same type: written at the same place,
/// of the same kind, and where the kind is a primitive or a name, that very
/// kind.
pub proof fn law_same_type_kind(a: TypeAnnotation, b: TypeAnnotation)
    requires
        same_type(a, b),
    ensures
        a.span == b.span,
        a.kind is Null <==> b.kind is Null,
        a.kind is Void <==> b.kind is Void,
        a.kind is Bool <==> b.kind is Bool,
        a.kind is U8 <==> b.kind is U8,
        a.kind is U16 <==> b.kind is U16,
        a.kind is U32 <==> b.kind is U32,
        a.kind is U64 <==> b.kind is U64,
        a.kind is I8 <==> b.kind is I8,
        a.kind is I16 <==> b.kind is I16,
        a.kind is I32 <==> b.kind is I32,
        a.kind is I64 <==> b.kind is I64,
        a.kind is F32 <==> b.kind is F32,
        a.kind is F64 <==> b.kind is F64,
        a.kind is ISize <==> b.kind is ISize,
        a.kind is USize <==> b.kind is USize,
        a.kind is String <==> b.kind is String,
        a.kind is List <==> b.kind is List,
        a.kind is Identifier <==> b.kind is Identifier,
        a.kind is GenericApply <==> b.kind is GenericApply,
        a.kind is Struct <==> b.kind is Struct,
        a.kind is Pointer <==> b.kind is Pointer,
        a.kind is MutPointer <==> b.kind is MutPointer,
        a.kind is FnType <==> b.kind is FnType,
        a.kind is Refinement <==> b.kind is Refinement,
        a.kind is Null ==> b.kind == a.kind,
        a.kind is Void ==> b.kind == a.kind,
        a.kind is Bool ==> b.kind == a.kind,
        a.kind is U8 ==> b.kind == a.kind,
        a.kind is U16 ==> b.kind == a.kind,
        a.kind is U32 ==> b.kind == a.kind,
        a.kind is U64 ==> b.kind == a.kind,
        a.kind is I8 ==> b.kind == a.kind,
        a.kind is I16 ==> b.kind == a.kind,
        a.kind is I32 ==> b.kind == a.kind,
        a.kind is I64 ==> b.kind == a.kind,
        a.kind is F32 ==> b.kind == a.kind,
        a.kind is F64 ==> b.kind == a.kind,
        a.kind is ISize ==> b.kind == a.kind,
        a.kind is USize ==> b.kind == a.kind,
        a.kind is String ==> b.kind == a.kind,
        a.kind is Identifier ==> b.kind == a.kind,
{
}

/// A copy of each expression of `v`.
pub(crate) fn duplicate_exprs(v: &Vec<Expr>) -> (res: Vec<Expr>)
    ensures
        res@.len() == v@.len(),
        forall|k: int| 0 <= k < v@.len() ==> #[trigger] same_expr(v@[k], res@[k]),
        same_exprs(v@, res@),
    decreases v,
{
    let mut out: Vec<Expr> = Vec::new();
    let mut i: usize = 0;
    while i < v.len()
        invariant
            i <= v.len(),
            out@.len() == i,
            forall|k: int| #![trigger out@[k]] 0 <= k < i ==> same_expr(v@[k], out@[k]),
        decreases v.len() - i,
    {
        proof {
            assert(decreases_to!(*v => v@));
            assert(decreases_to!(v@ => v@[i as int]));
        }
        let ghost prev = out@;
        out.push(v[i].duplicate());
        proof {
            assert forall|k: int| 0 <= k < i + 1 implies same_expr(v@[k], out@[k]) by {
                if k < i {
                    assert(out@[k] == prev[k]);
                }
            }
        }
        i = i + 1;
    }
    proof {
        assert forall|k: int| 0 <= k < v@.len() implies same_expr(v@[k], out@[k]) by {
            assert(same_expr(v@[k], out@[k]));
        }
    }
    out
}

/// A copy of each named field initializer of `v`.
pub(crate) fn duplicate_fields(v: &Vec<(IdentifierNode, Expr)>) -> (res: Vec<(IdentifierNode, Expr)>)
    ensures
        res@.len() == v@.len(),
        forall|k: int| 0 <= k < v@.len() ==> v@[k].0 == res@[k].0 && #[trigger] same_expr(v@[k].1, res@[k].1),
        same_fields(v@, res@),
    decreases v,
{
    let mut out: Vec<(IdentifierNode, Expr)> = Vec::new();
    let mut i: usize = 0;
    while i < v.len()
        invariant
            i <= v.len(),
            out@.len() == i,
            forall|k: int| #![trigger out@[k]] 0 <= k < i ==> v@[k].0 == out@[k].0 && same_expr(v@[k].1, out@[k].1),
        decreases v.len() - i,
    {
        proof {
            assert(decreases_to!(*v => v@));
            assert(decreases_to!(v@ => v@[i as int]));
            assert(decreases_to!(v@[i as int] => v@[i as int].1));
        }
        let name = &v[i].0;
        let value = &v[i].1;
        let ghost prev = out@;
        out.push((name.clone(), value.duplicate()));
        proof {
            assert forall|k: int| 0 <= k < i + 1 implies v@[k].0 == out@[k].0 && same_expr(v@[k].1, out@[k].1) by {
                if k < i {
                    assert(out@[k] == prev[k]);
                }
            }
        }
        i = i + 1;
    }
    proof {
        assert forall|k: int| 0 <= k < v@.len() implies v@[k].0 == out@[k].0 && same_expr(v@[k].1, out@[k].1) by {
            assert(v@[k].0 == out@[k].0 && same_expr(v@[k].1, out@[k].1));
        }
    }
    out
}

/// A copy of each condition and body of `v`.
pub(crate) fn duplicate_branches(v: &Vec<(Box<Expr>, BlockContents)>) -> (res: Vec<(Box<Expr>, BlockContents)>)
    ensures
        res@.len() == v@.len(),
        forall|k: int| 0 <= k < v@.len() ==> #[trigger] same_expr(*v@[k].0, *res@[k].0) && same_block(v@[k].1, res@[k].1),
        same_branches(v@, res@),
    decreases v,
{
    let mut out: Vec<(Box<Expr>, BlockContents)> = Vec::new();
    let mut i: usize = 0;
    while i < v.len()
        invariant
            i <= v.len(),
            out@.len() == i,
            forall|k: int| #![trigger out@[k]] 0 <= k < i ==> same_expr(*v@[k].0, *out@[k].0) && same_block(v@[k].1, out@[k].1),
        decreases v.len() - i,
    {
        proof {
            assert(decreases_to!(*v => v@));
            assert(decreases_to!(v@ => v@[i as int]));
            assert(decreases_to!(v@[i as int] => v@[i as int].0));
            assert(decreases_to!(v@[i as int] => v@[i as int].1));
        }
        let cond: &Expr = &v[i].0;
        let body = &v[i].1;
        let ghost prev = out@;
        out.push((Box::new(cond.duplicate()), body.duplicate()));
        proof {
            assert forall|k: int| 0 <= k < i + 1 implies same_expr(*v@[k].0, *out@[k].0) && same_block(v@[k].1, out@[k].1) by {
                if k < i {
                    assert(out@[k] == prev[k]);
                }
            }
        }
        i = i + 1;
    }
    proof {
        assert forall|k: int| 0 <= k < v@.len() implies same_expr(*v@[k].0, *out@[k].0) && same_block(v@[k].1, out@[k].1) by {
            assert(same_expr(*v@[k].0, *out@[k].0) && same_block(v@[k].1, out@[k].1));
        }
    }
    out
}

/// A copy of each statement of `v`.
pub(crate) fn duplicate_stmts(v: &Vec<Stmt>) -> (res: Vec<Stmt>)
    ensures
        res@.len() == v@.len(),
        forall|k: int| 0 <= k < v@.len() ==> #[trigger] same_stmt(v@[k], res@[k]),
        same_stmts(v@, res@),
    decreases v,
{
    let mut out: Vec<Stmt> = Vec::new();
    let mut i: usize = 0;
    while i < v.len()
        invariant
            i <= v.len(),
            out@.len() == i,
            forall|k: int| #![trigger out@[k]] 0 <= k < i ==> same_stmt(v@[k], out@[k]),
        decreases v.len() - i,
    {
        proof {
            assert(decreases_to!(*v => v@));
            assert(decreases_to!(v@ => v@[i as int]));
        }
        let ghost prev = out@;
        out.push(v[i].duplicate());
        proof {
            assert forall|k: int| 0 <= k < i + 1 implies same_stmt(v@[k], out@[k]) by {
                if k < i {
                    assert(out@[k] == prev[k]);
                }
            }
        }
        i = i + 1;
    }
    proof {
        assert forall|k: int| 0 <= k < v@.len() implies same_stmt(v@[k], out@[k]) by {
            assert(same_stmt(v@[k], out@[k]));
        }
    }
    out
}

/// A copy of each parameter of `v`.
pub(crate) fn duplicate_params(v: &Vec<Param>) -> (res: Vec<Param>)
    ensures
        res@.len() == v@.len(),
        forall|k: int| 0 <= k < v@.len() ==> (#[trigger] res@[k]).id == v@[k].id && res@[k].identifier == v@[k].identifier,
        forall|k: int| 0 <= k < v@.len() ==> v@[k].id == res@[k].id && v@[k].identifier == res@[k].identifier && #[trigger] same_type(v@[k].constraint, res@[k].constraint),
        same_params(v@, res@),
    decreases v,
{
    let mut out: Vec<Param> = Vec::new();
    let mut i: usize = 0;
    while i < v.len()
        invariant
            i <= v.len(),
            out@.len() == i,
            forall|k: int| #![trigger out@[k]] 0 <= k < i ==> v@[k].id == out@[k].id && v@[k].identifier == out@[k].identifier && same_type(v@[k].constraint, out@[k].constraint),
            forall|k: int| #![trigger out@[k]] 0 <= k < i ==> (out@[k]).id == v@[k].id && out@[k].identifier == v@[k].identifier,
        decreases v.len() - i,
    {
        proof {
            assert(decreases_to!(*v => v@));
            assert(decreases_to!(v@ => v@[i as int]));
        }
        let ghost prev = out@;
        out.push(v[i].duplicate());
        proof {
            assert forall|k: int| 0 <= k < i + 1 implies v@[k].id == out@[k].id && v@[k].identifier == out@[k].identifier && same_type(v@[k].constraint, out@[k].constraint) by {
                if k < i {
                    assert(out@[k] == prev[k]);
                }
            }
        }
        i = i + 1;
    }
    proof {
        assert forall|k: int| 0 <= k < v@.len() implies v@[k].id == out@[k].id && v@[k].identifier == out@[k].identifier && same_type(v@[k].constraint, out@[k].constraint) by {
            assert(v@[k].id == out@[k].id && v@[k].identifier == out@[k].identifier && same_type(v@[k].constraint, out@[k].constraint));
        }
    }
    out
}

/// A copy of each generic parameter of `v`.
pub(crate) fn duplicate_generic_params(v: &Vec<GenericParam>) -> (res: Vec<GenericParam>)
    ensures
        res@.len() == v@.len(),
        forall|k: int| 0 <= k < v@.len() ==> v@[k].identifier == res@[k].identifier && #[trigger] same_opt_type(v@[k].extends, res@[k].extends),
        same_generics(v@, res@),
    decreases v,
{
    let mut out: Vec<GenericParam> = Vec::new();
    let mut i: usize = 0;
    while i < v.len()
        invariant
            i <= v.len(),
            out@.len() == i,
            forall|k: int| #![trigger out@[k]] 0 <= k < i ==> v@[k].identifier == out@[k].identifier && same_opt_type(v@[k].extends, out@[k].extends),
        decreases v.len() - i,
    {
        proof {
            assert(decreases_to!(*v => v@));
            assert(decreases_to!(v@ => v@[i as int]));
        }
        let ghost prev = out@;
        out.push(v[i].duplicate());
        proof {
            assert forall|k: int| 0 <= k < i + 1 implies v@[k].identifier == out@[k].identifier && same_opt_type(v@[k].extends, out@[k].extends) by {
                if k < i {
                    assert(out@[k] == prev[k]);
                }
            }
        }
        i = i + 1;
    }
    proof {
        assert forall|k: int| 0 <= k < v@.len() implies v@[k].identifier == out@[k].identifier && same_opt_type(v@[k].extends, out@[k].extends) by {
            assert(v@[k].identifier == out@[k].identifier && same_opt_type(v@[k].extends, out@[k].extends));
        }
    }
    out
}

/// A copy of each type annotation of `v`.
pub(crate) fn duplicate_types(v: &Vec<TypeAnnotation>) -> (res: Vec<TypeAnnotation>)
    ensures
        res@.len() == v@.len(),
        forall|k: int| 0 <= k < v@.len() ==> #[trigger] same_type(v@[k], res@[k]),
        same_types(v@, res@),
    decreases v,
{
    let mut out: Vec<TypeAnnotation> = Vec::new();
    let mut i: usize = 0;
    while i < v.len()
        invariant
            i <= v.len(),
            out@.len() == i,
            forall|k: int| #![trigger out@[k]] 0 <= k < i ==> same_type(v@[k], out@[k]),
        decreases v.len() - i,
    {
        proof {
            assert(decreases_to!(*v => v@));
            assert(decreases_to!(v@ => v@[i as int]));
        }
        let ghost prev = out@;
        out.push(v[i].duplicate());
        proof {
            assert forall|k: int| 0 <= k < i + 1 implies same_type(v@[k], out@[k]) by {
                if k < i {
                    assert(out@[k] == prev[k]);
                }
            }
        }
        i = i + 1;
    }
    proof {
        assert forall|k: int| 0 <= k < v@.len() implies same_type(v@[k], out@[k]) by {
            assert(same_type(v@[k], out@[k]));
        }
    }
    out
}

/// A copy of the block `b`, if any.
fn duplicate_opt_block(b: &Option<BlockContents>) -> (res: Option<BlockContents>)
    ensures
        same_opt_block(*b, res),
    decreases b,
{
    match b {
        Some(x) => Some(x.duplicate()),
        None => None,
    }
}

/// A copy of the type annotation `t`, if any.
fn duplicate_opt_type(t: &Option<TypeAnnotation>) -> (res: Option<TypeAnnotation>)
    ensures
        same_opt_type(*t, res),
        t.is_none() <==> res.is_none(),
        *t matches Some(x) ==> res matches Some(y) && same_type(x, y),
    decreases t,
{
    match t {
        Some(x) => Some(x.duplicate()),
        None => None,
    }
}

/// A copy of `s`, if any.
fn duplicate_opt_string(s: &Option<String>) -> (res: Option<String>)
    ensures
        res == *s,
{
    match s {
        Some(text) => Some(text.clone()),
        None => None,
    }
}

impl Expr {
    /// A copy of the expression, made node by node.
    pub(crate) fn duplicate(&self) -> (res: Expr)
        ensures
            same_expr(*self, res),
            res.span == self.span,
        decreases self,
    {
        let kind = match &self.kind {
            ExprKind::Null => ExprKind::Null,
            ExprKind::Not { right } => ExprKind::Not { right: Box::new(right.duplicate()) },
            ExprKind::Neg { right } => ExprKind::Neg { right: Box::new(right.duplicate()) },
            ExprKind::Add { left, right } => ExprKind::Add {
                left: Box::new(left.duplicate()),
                right: Box::new(right.duplicate()),
            },
            ExprKind::Subtract { left, right } => ExprKind::Subtract {
                left: Box::new(left.duplicate()),
                right: Box::new(right.duplicate()),
            },
            ExprKind::Multiply { left, right } => ExprKind::Multiply {
                left: Box::new(left.duplicate()),
                right: Box::new(right.duplicate()),
            },
            ExprKind::Divide { left, right } => ExprKind::Divide {
                left: Box::new(left.duplicate()),
                right: Box::new(right.duplicate()),
            },
            ExprKind::Modulo { left, right } => ExprKind::Modulo {
                left: Box::new(left.duplicate()),
                right: Box::new(right.duplicate()),
            },
            ExprKind::LessThan { left, right } => ExprKind::LessThan {
                left: Box::new(left.duplicate()),
                right: Box::new(right.duplicate()),
            },
            ExprKind::LessThanOrEqual { left, right } => ExprKind::LessThanOrEqual {
                left: Box::new(left.duplicate()),
                right: Box::new(right.duplicate()),
            },
            ExprKind::GreaterThan { left, right } => ExprKind::GreaterThan {
                left: Box::new(left.duplicate()),
                right: Box::new(right.duplicate()),
            },
            ExprKind::GreaterThanOrEqual { left, right } => ExprKind::GreaterThanOrEqual {
                left: Box::new(left.duplicate()),
                right: Box::new(right.duplicate()),
            },
            ExprKind::Equal { left, right } => ExprKind::Equal {
                left: Box::new(left.duplicate()),
                right: Box::new(right.duplicate()),
            },
            ExprKind::NotEqual { left, right } => ExprKind::NotEqual {
                left: Box::new(left.duplicate()),
                right: Box::new(right.duplicate()),
            },
            ExprKind::And { left, right } => ExprKind::And {
                left: Box::new(left.duplicate()),
                right: Box::new(right.duplicate()),
            },
            ExprKind::Or { left, right } => ExprKind::Or {
                left: Box::new(left.duplicate()),
                right: Box::new(right.duplicate()),
            },
            ExprKind::Struct(fields) => ExprKind::Struct(duplicate_fields(fields)),
            ExprKind::Access { left, field } => ExprKind::Access {
                left: Box::new(left.duplicate()),
                field: field.clone(),
            },
            ExprKind::StaticAccess { left, field } => ExprKind::StaticAccess {
                left: Box::new(left.duplicate()),
                field: field.clone(),
            },
            ExprKind::TypeCast { left, target } => ExprKind::TypeCast {
                left: Box::new(left.duplicate()),
                target: target.duplicate(),
            },
            ExprKind::IsType { left, ty } => ExprKind::IsType { left: Box::new(left.duplicate()), ty: ty.duplicate() },
            ExprKind::FnCall { left, args } => ExprKind::FnCall {
                left: Box::new(left.duplicate()),
                args: duplicate_exprs(args),
            },
            ExprKind::BoolLiteral(b) => ExprKind::BoolLiteral(*b),
            ExprKind::Number(n) => ExprKind::Number(*n),
            ExprKind::String(s) => ExprKind::String(s.clone()),
            ExprKind::Identifier(id) => ExprKind::Identifier(id.clone()),
            ExprKind::Fn(f) => ExprKind::Fn(Box::new(f.duplicate())),
            ExprKind::If { branches, else_branch } => ExprKind::If {
                branches: duplicate_branches(branches),
                else_branch: duplicate_opt_block(else_branch),
            },
            ExprKind::List(items) => ExprKind::List(duplicate_exprs(items)),
            ExprKind::CodeBlock(b) => ExprKind::CodeBlock(b.duplicate()),
            ExprKind::UnsafeBlock(b) => ExprKind::UnsafeBlock(b.duplicate()),
        };
        Expr { kind, span: self.span.clone() }
    }
}

impl BlockContents {
    /// A copy of the block, made node by node.
    pub(crate) fn duplicate(&self) -> (res: BlockContents)
        ensures
            same_block(*self, res),
            res.span == self.span,
        decreases self,
    {
        BlockContents {
            statements: duplicate_stmts(&self.statements),
            final_expr: match &self.final_expr {
                Some(e) => Some(Box::new(e.duplicate())),
                None => None,
            },
            span: self.span.clone(),
        }
    }
}

impl Stmt {
    /// A copy of the statement, made node by node: the same kind of
    /// statement, an expression at the same place or a declaration of the
    /// same variable.
    pub(crate) fn duplicate(&self) -> (res: Stmt)
        ensures
            same_stmt(*self, res),
            match *self {
                Stmt::Expression(e) => res matches Stmt::Expression(c) && c.span == e.span,
                Stmt::VarDecl(v) => res matches Stmt::VarDecl(c) && c.id == v.id && c.identifier == v.identifier
                    && c.documentation == v.documentation,
            },
        decreases self,
    {
        match self {
            Stmt::Expression(e) => Stmt::Expression(e.duplicate()),
            Stmt::VarDecl(v) => Stmt::VarDecl(v.duplicate()),
        }
    }
}

impl VarDecl {
    /// A copy of the declaration, made node by node.
    pub(crate) fn duplicate(&self) -> (res: VarDecl)
        ensures
            same_var(*self, res),
            res.id == self.id,
            res.identifier == self.identifier,
            res.documentation == self.documentation,
            same_opt_type(self.constraint, res.constraint),
            self.constraint is None <==> res.constraint is None,
            self.constraint matches Some(x) ==> res.constraint matches Some(y) && same_type(x, y),
            same_expr(self.value, res.value),
        decreases self,
    {
        VarDecl {
            id: self.id,
            documentation: duplicate_opt_string(&self.documentation),
            identifier: self.identifier.clone(),
            constraint: duplicate_opt_type(&self.constraint),
            value: self.value.duplicate(),
        }
    }
}

impl FnDecl {
    /// A copy of the declaration, made node by node.
    pub(crate) fn duplicate(&self) -> (res: FnDecl)
        ensures
            same_fn(*self, res),
            res.id == self.id,
            res.identifier == self.identifier,
            res.is_exported == self.is_exported,
            res.documentation == self.documentation,
            res.params@.len() == self.params@.len(),
            forall|k: int| 0 <= k < self.params@.len() ==> (#[trigger] res.params@[k]).id == self.params@[k].id
                && res.params@[k].identifier == self.params@[k].identifier,
            forall|k: int| 0 <= k < self.params@.len() ==> #[trigger] same_type(self.params@[k].constraint, res.params@[k].constraint),
            res.generic_params@.len() == self.generic_params@.len(),
            same_type(self.return_type, res.return_type),
            res.body.span == self.body.span,
            res.return_type.span == self.return_type.span,
        decreases self,
    {
        FnDecl {
            id: self.id,
            documentation: duplicate_opt_string(&self.documentation),
            identifier: self.identifier.clone(),
            generic_params: duplicate_generic_params(&self.generic_params),
            params: duplicate_params(&self.params),
            return_type: self.return_type.duplicate(),
            body: self.body.duplicate(),
            is_exported: self.is_exported,
        }
    }
}

impl GenericParam {
    /// A copy of the parameter, made node by node.
    pub(crate) fn duplicate(&self) -> (res: GenericParam)
        ensures
            same_opt_type(self.extends, res.extends),
            res.identifier == self.identifier,
        decreases self,
    {
        GenericParam {
            identifier: self.identifier.clone(),
            extends: duplicate_opt_type(&self.extends),
        }
    }
}

impl Param {
    /// A copy of the parameter, made node by node.
    pub(crate) fn duplicate(&self) -> (res: Param)
        ensures
            same_type(self.constraint, res.constraint),
            res.id == self.id,
            res.identifier == self.identifier,
        decreases self,
    {
        Param { id: self.id, identifier: self.identifier.clone(), constraint: self.constraint.duplicate() }
    }
}

impl TypeAnnotation {
    /// A copy of the annotation, made node by node.
    pub(crate) fn duplicate(&self) -> (res: TypeAnnotation)
        ensures
            same_type(*self, res),
            res.span == self.span,
        decreases self,
    {
        let kind = match &self.kind {
            TypeAnnotationKind::Null => TypeAnnotationKind::Null,
            TypeAnnotationKind::Void => TypeAnnotationKind::Void,
            TypeAnnotationKind::Bool => TypeAnnotationKind::Bool,
            TypeAnnotationKind::U8 => TypeAnnotationKind::U8,
            TypeAnnotationKind::U16 => TypeAnnotationKind::U16,
            TypeAnnotationKind::U32 => TypeAnnotationKind::U32,
            TypeAnnotationKind::U64 => TypeAnnotationKind::U64,
            TypeAnnotationKind::I8 => TypeAnnotationKind::I8,
            TypeAnnotationKind::I16 => TypeAnnotationKind::I16,
            TypeAnnotationKind::I32 => TypeAnnotationKind::I32,
            TypeAnnotationKind::I64 => TypeAnnotationKind::I64,
            TypeAnnotationKind::F32 => TypeAnnotationKind::F32,
            TypeAnnotationKind::F64 => TypeAnnotationKind::F64,
            TypeAnnotationKind::ISize => TypeAnnotationKind::ISize,
            TypeAnnotationKind::USize => TypeAnnotationKind::USize,
            TypeAnnotationKind::String => TypeAnnotationKind::String,
            TypeAnnotationKind::List(inner) => TypeAnnotationKind::List(Box::new(inner.duplicate())),
            TypeAnnotationKind::Identifier(id) => TypeAnnotationKind::Identifier(id.clone()),
            TypeAnnotationKind::GenericApply { left, args } => TypeAnnotationKind::GenericApply {
                left: Box::new(left.duplicate()),
                args: duplicate_types(args),
            },
            TypeAnnotationKind::Struct(params) => TypeAnnotationKind::Struct(duplicate_params(params)),
            TypeAnnotationKind::Pointer(inner) => TypeAnnotationKind::Pointer(Box::new(inner.duplicate())),
            TypeAnnotationKind::MutPointer(inner) => TypeAnnotationKind::MutPointer(Box::new(inner.duplicate())),
            TypeAnnotationKind::FnType { params, return_type } => TypeAnnotationKind::FnType {
                params: duplicate_params(params),
                return_type: Box::new(return_type.duplicate()),
            },
            TypeAnnotationKind::Refinement { base, condition } => TypeAnnotationKind::Refinement {
                base: Box::new(base.duplicate()),
                condition: Box::new(condition.duplicate()),
            },
        };
        TypeAnnotation { kind, span: self.span.clone() }
    }
}

} // verus!
