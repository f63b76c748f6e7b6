use vstd::prelude::*;

use crate::ast::{IdentifierNode, Span};

verus! {

#[derive(Debug)]
pub enum SemanticErrorKind {
    CannotDeclareGlobalVariable,
    UndeclaredIdentifier(IdentifierNode),
    ClosuresNotSupportedYet,
    MainFunctionMustBeInEntryFile,
    MainFunctionCannotHaveParameters,
    GenericClosuresNotSupported,
    CannotUseTypeDeclarationAsValue,
    IfExpressionMissingElse,
    DuplicateStructFieldInitializer(IdentifierNode),
    CannotStaticAccess,
    CannotAccessField,
}

#[derive(Debug)]
pub struct SemanticError {
    pub kind: SemanticErrorKind,
    pub span: Span,
}

} // verus!
