use willow::ast::{ModulePath, Position, Span};
use willow::compile::report_errors::get_err_sort_key;
use willow::compile::CompilerErrorKind;
use willow::hir::errors::{SemanticError, SemanticErrorKind};

fn span_in(path: &str, start: usize) -> Span {
    Span {
        start: Position { line: 1, col: start + 1, byte_offset: start },
        end: Position { line: 1, col: start + 2, byte_offset: start + 1 },
        path: ModulePath(path.to_string()),
    }
}

#[test]
fn semantic_errors_are_keyed_by_file_and_offset() {
    let err = CompilerErrorKind::Semantic(SemanticError {
        kind: SemanticErrorKind::IfExpressionMissingElse,
        span: span_in("lib.wl", 42),
    });
    assert_eq!(get_err_sort_key(&err), (0, "lib.wl".to_string(), 42));
}

#[test]
fn file_errors_come_after_spanned_errors() {
    let read = CompilerErrorKind::CouldNotReadFile { path: ModulePath("a.wl".to_string()) };
    let missing = CompilerErrorKind::ModuleNotFound {
        importing_module: ModulePath("main.wl".to_string()),
        target_path: ModulePath("b.wl".to_string()),
    };
    assert_eq!(get_err_sort_key(&read), (1, "a.wl".to_string(), 0));
    assert_eq!(get_err_sort_key(&missing), (1, "b.wl".to_string(), 0));
}

#[test]
fn missing_main_sorts_with_the_global_errors() {
    let no_main = CompilerErrorKind::MissingMainFunction(ModulePath("main.wl".to_string()));
    let spanned = CompilerErrorKind::Semantic(SemanticError {
        kind: SemanticErrorKind::CannotAccessField,
        span: span_in("z.wl", 900),
    });
    let file = CompilerErrorKind::CouldNotReadFile { path: ModulePath("zz.wl".to_string()) };
    let mut keys = vec![get_err_sort_key(&no_main), get_err_sort_key(&file), get_err_sort_key(&spanned)];
    keys.sort();
    assert_eq!(keys[0], (0, "z.wl".to_string(), 900));
    assert_eq!(keys[1], (1, "main.wl".to_string(), 0));
    assert_eq!(keys[2], (1, "zz.wl".to_string(), 0));
}
