use vstd::prelude::*;

use crate::ast::decl::Param;
use crate::ast::expr::Expr;
use crate::ast::{IdentifierNode, Span};

verus! {

#[derive(Debug)]
pub enum TypeAnnotationKind {
    Null,
    Void,
    Bool,
    U8,
    U16,
    U32,
    U64,
    I8,
    I16,
    I32,
    I64,
    F32,
    F64,
    ISize,
    USize,
    String,
    List(Box<TypeAnnotation>),
    Identifier(IdentifierNode),
    GenericApply { left: Box<TypeAnnotation>, args: Vec<TypeAnnotation> },
    Struct(Vec<Param>),
    Pointer(Box<TypeAnnotation>),
    MutPointer(Box<TypeAnnotation>),
    FnType { params: Vec<Param>, return_type: Box<TypeAnnotation> },
    Refinement { base: Box<TypeAnnotation>, condition: Box<Expr> },
}

#[derive(Debug)]
pub struct TypeAnnotation {
    pub kind: TypeAnnotationKind,
    pub span: Span,
}

} // verus!
