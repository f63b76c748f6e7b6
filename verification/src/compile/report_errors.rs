use vstd::prelude::*;

use crate::compile::CompilerErrorKind;

verus! {

/// The position of an error in the report, as (rank, path, byte offset):
/// errors with a span come first (rank 0), ordered by file and offset; the
/// global ones (unreadable or missing files, a missing `main`) come last
/// (rank 1), ordered by path.
pub open spec fn err_sort_key(err: CompilerErrorKind) -> (u8, Seq<char>, usize) {
    match err {
        CompilerErrorKind::Semantic(e) => (0u8, e.span.path.0@, e.span.start.byte_offset),
        CompilerErrorKind::CouldNotReadFile { path } => (1u8, path.0@, 0usize),
        CompilerErrorKind::ModuleNotFound { target_path, .. } => (1u8, target_path.0@, 0usize),
        CompilerErrorKind::MissingMainFunction(main_module) => (1u8, main_module.0@, 0usize),
    }
}

/// The key by which errors are ordered before they are reported.
pub fn get_err_sort_key(err: &CompilerErrorKind) -> (key: (u8, String, usize))
    ensures
        (key.0, key.1@, key.2) == err_sort_key(*err),
{
    match err {
        CompilerErrorKind::Semantic(e) => (0, e.span.path.0.clone(), e.span.start.byte_offset),
        CompilerErrorKind::CouldNotReadFile { path } => (1, path.0.clone(), 0),
        CompilerErrorKind::ModuleNotFound { target_path, .. } => (1, target_path.0.clone(), 0),
        CompilerErrorKind::MissingMainFunction(main_module) => (1, main_module.0.clone(), 0),
    }
}

/// Errors are reported by rank, then file, then position. An error with a
/// span is keyed by its file and the byte offset where it starts, at rank 0;
/// an unreadable file or a missing module is keyed by that file, and a
/// missing `main` by the entry file, at rank 1 and offset 0. So every error
/// with a span comes before every other error, and of two errors with spans
/// in one file the one that starts earlier comes first.
pub proof fn law_error_order(a: CompilerErrorKind, b: CompilerErrorKind)
    ensures
        a matches CompilerErrorKind::Semantic(e) ==> err_sort_key(a).0 == 0 && err_sort_key(a).1 == e.span.path.0@
            && err_sort_key(a).2 == e.span.start.byte_offset,
        a matches CompilerErrorKind::CouldNotReadFile { path } ==> err_sort_key(a) == (1u8, path.0@, 0usize),
        a matches CompilerErrorKind::ModuleNotFound { target_path, .. } ==> err_sort_key(a) == (1u8, target_path.0@, 0usize),
        a matches CompilerErrorKind::MissingMainFunction(p) ==> err_sort_key(a) == (1u8, p.0@, 0usize),
        a is Semantic && !(b is Semantic) ==> err_sort_key(a).0 < err_sort_key(b).0,
        (a matches CompilerErrorKind::Semantic(ea) && b matches CompilerErrorKind::Semantic(eb) && ea.span.path.0@
            == eb.span.path.0@) ==> err_sort_key(a).0 == err_sort_key(b).0 && err_sort_key(a).1 == err_sort_key(b).1 && (
        err_sort_key(a).2 < err_sort_key(b).2 <==> a->Semantic_0.span.start.byte_offset < b->Semantic_0.span.start.byte_offset),
{
}

} // verus!
