use vstd::prelude::*;

use crate::ast::expr::{BlockContents, Expr};
use crate::ast::type_annotation::TypeAnnotation;
use crate::ast::{DeclarationId, IdentifierNode};
use crate::compile::interner::StringId;

verus! {

#[derive(Debug)]
pub struct GenericParam {
    pub identifier: IdentifierNode,
    pub extends: Option<TypeAnnotation>,
}

#[derive(Debug)]
pub struct Param {
    pub id: DeclarationId,
    pub identifier: IdentifierNode,
    pub constraint: TypeAnnotation,
}

#[derive(Debug)]
pub struct FnDecl {
    pub id: DeclarationId,
    pub documentation: Option<String>,
    pub identifier: IdentifierNode,
    pub generic_params: Vec<GenericParam>,
    pub params: Vec<Param>,
    pub return_type: TypeAnnotation,
    pub body: BlockContents,
    pub is_exported: bool,
}

/// A function whose body lives outside the program (a runtime or library symbol).
#[derive(Debug)]
pub struct ExternFnDecl {
    pub id: DeclarationId,
    pub documentation: Option<String>,
    pub identifier: IdentifierNode,
    pub params: Vec<Param>,
    pub return_type: TypeAnnotation,
}

/// An item of an import list: a name of the imported module, possibly
/// bound under another name, or a function declared as external there.
#[derive(Debug)]
pub enum ImportItem {
    Symbol { identifier: IdentifierNode, alias: Option<IdentifierNode> },
    ExternFn(ExternFnDecl),
}

#[derive(Debug)]
pub struct TypeAliasDecl {
    pub id: DeclarationId,
    pub documentation: Option<String>,
    pub identifier: IdentifierNode,
    pub generic_params: Vec<GenericParam>,
    pub value: TypeAnnotation,
    pub is_exported: bool,
}

#[derive(Debug)]
pub struct VarDecl {
    pub id: DeclarationId,
    pub documentation: Option<String>,
    pub identifier: IdentifierNode,
    pub constraint: Option<TypeAnnotation>,
    pub value: Expr,
}

#[derive(Debug)]
pub enum Declaration {
    TypeAlias(TypeAliasDecl),
    Fn(FnDecl),
    ExternFn(ExternFnDecl),
    Var(VarDecl),
    Param(Param),
    GenericParameter(StringId),
}

} // verus!
