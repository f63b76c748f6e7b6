use vstd::prelude::*;

use crate::ast::ModulePath;
use crate::hir::errors::SemanticError;

pub mod interner;
pub mod report_errors;

verus! {

/// An error found while compiling a program. Reading a file can fail for
/// reasons the operating system gives; only the module concerned is kept here.
#[derive(Debug)]
pub enum CompilerErrorKind {
    CouldNotReadFile { path: ModulePath },
    ModuleNotFound { importing_module: ModulePath, target_path: ModulePath },
    Semantic(SemanticError),
    MissingMainFunction(ModulePath),
}

} // verus!
