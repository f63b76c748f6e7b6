pub mod ast;
pub mod compile;
pub mod globals;
pub mod hir;
pub mod tokenize;
