use willow::ast::{DeclarationId, IdentifierNode, ModulePath, Position, Span, StringNode};
use willow::compile::interner::{StringId, StringInterner};
use willow::globals::{next_declaration_id, reset_globals, Globals};
use willow::hir::scope::{Scope, ScopeKind};

fn pos(byte_offset: usize) -> Position {
    Position { line: 1, col: byte_offset + 1, byte_offset }
}

fn span(start: usize, end: usize) -> Span {
    Span { start: pos(start), end: pos(end), path: ModulePath("main.wl".to_string()) }
}

#[test]
fn intern_then_resolve_gives_the_string_back() {
    let mut interner = StringInterner::new();
    let a = interner.intern("alpha");
    let b = interner.intern("beta");
    assert_eq!(interner.resolve(a), "alpha");
    assert_eq!(interner.resolve(b), "beta");
}

#[test]
fn intern_hands_out_positions_in_order() {
    let mut interner = StringInterner::new();
    assert_eq!(interner.intern("x"), StringId(0));
    assert_eq!(interner.intern("y"), StringId(1));
    assert_eq!(interner.intern("z"), StringId(2));
    assert_eq!(interner.len(), 3);
}

#[test]
fn intern_twice_gives_the_same_handle() {
    let mut interner = StringInterner::new();
    let first = interner.intern("same");
    let _other = interner.intern("other");
    let second = interner.intern("same");
    assert_eq!(first, second);
    assert_eq!(interner.len(), 2);
}

#[test]
fn distinct_strings_get_distinct_handles() {
    let mut interner = StringInterner::new();
    let a = interner.intern("a");
    let b = interner.intern("b");
    assert_ne!(a, b);
}

#[test]
fn interning_keeps_earlier_handles() {
    let mut interner = StringInterner::new();
    let a = interner.intern("kept");
    for word in ["one", "two", "three"] {
        interner.intern(word);
    }
    assert_eq!(interner.resolve(a), "kept");
}

#[test]
fn empty_string_can_be_interned() {
    let mut interner = StringInterner::new();
    let e = interner.intern("");
    assert_eq!(interner.resolve(e), "");
    assert_eq!(interner.len(), 1);
}

#[test]
fn clear_forgets_everything() {
    let mut interner = StringInterner::new();
    interner.intern("gone");
    interner.clear();
    assert_eq!(interner.len(), 0);
    assert_eq!(interner.intern("new"), StringId(0));
}

#[test]
fn default_interner_is_empty() {
    let interner = StringInterner::default();
    assert_eq!(interner.len(), 0);
}

#[test]
fn common_identifiers_are_interned_in_order() {
    let mut globals = Globals::new();
    let common = globals.common_identifiers();
    assert_eq!(common.id, StringId(0));
    assert_eq!(common.val, StringId(1));
    assert_eq!(common.len, StringId(2));
    assert_eq!(common.cap, StringId(3));
    assert_eq!(common.ptr, StringId(4));
    assert_eq!(globals.string_interner.resolve(common.cap), "cap");
    let again = globals.common_identifiers();
    assert_eq!(again.ptr, StringId(4));
    assert_eq!(globals.string_interner.len(), 5);
}

#[test]
fn common_identifiers_reuse_existing_strings() {
    let mut globals = Globals::new();
    let len = globals.string_interner.intern("len");
    let common = globals.common_identifiers();
    assert_eq!(common.len, len);
    assert_eq!(common.id, StringId(1));
}

#[test]
fn declaration_ids_count_up() {
    let mut globals = Globals::new();
    assert_eq!(next_declaration_id(&mut globals), DeclarationId(0));
    assert_eq!(next_declaration_id(&mut globals), DeclarationId(1));
    assert_eq!(next_declaration_id(&mut globals), DeclarationId(2));
    assert_eq!(globals.declaration_counter, 3);
}

#[test]
fn declaration_counter_wraps_around() {
    let mut globals = Globals::new();
    globals.declaration_counter = usize::MAX;
    assert_eq!(next_declaration_id(&mut globals), DeclarationId(usize::MAX));
    assert_eq!(next_declaration_id(&mut globals), DeclarationId(0));
}

#[test]
fn reset_globals_starts_over() {
    let mut globals = Globals::new();
    next_declaration_id(&mut globals);
    globals.string_interner.intern("word");
    reset_globals(&mut globals);
    assert_eq!(globals.declaration_counter, 0);
    assert_eq!(globals.string_interner.len(), 0);
}

#[test]
fn lookup_finds_a_bound_name() {
    let mut scope = Scope::new_root(ScopeKind::File, pos(0));
    scope.map_name_to_symbol(StringId(7), DeclarationId(70));
    assert_eq!(scope.lookup(StringId(7)), Some(DeclarationId(70)));
    assert_eq!(scope.lookup(StringId(8)), None);
}

#[test]
fn later_binding_shadows_earlier_one() {
    let mut scope = Scope::new_root(ScopeKind::File, pos(0));
    scope.map_name_to_symbol(StringId(1), DeclarationId(10));
    scope.map_name_to_symbol(StringId(1), DeclarationId(11));
    assert_eq!(scope.lookup(StringId(1)), Some(DeclarationId(11)));
}

#[test]
fn inner_frame_shadows_outer_and_parent_restores() {
    let mut outer = Scope::new_root(ScopeKind::File, pos(0));
    outer.map_name_to_symbol(StringId(1), DeclarationId(10));
    outer.map_name_to_symbol(StringId(2), DeclarationId(20));
    let mut inner = outer.enter(ScopeKind::CodeBlock, pos(5));
    assert_eq!(inner.lookup(StringId(1)), Some(DeclarationId(10)));
    inner.map_name_to_symbol(StringId(1), DeclarationId(99));
    assert_eq!(inner.lookup(StringId(1)), Some(DeclarationId(99)));
    assert_eq!(inner.lookup(StringId(2)), Some(DeclarationId(20)));
    assert_eq!(inner.kind(), ScopeKind::CodeBlock);
    let back = inner.parent().unwrap();
    assert_eq!(back.lookup(StringId(1)), Some(DeclarationId(10)));
    assert!(back.is_file_scope());
    assert!(!inner.is_file_scope());
}

#[test]
fn root_scope_has_no_parent() {
    let scope = Scope::new_root(ScopeKind::Global, pos(0));
    assert!(scope.parent().is_none());
    assert!(!scope.is_file_scope());
}

#[test]
fn copy_of_scope_resolves_alike() {
    let mut scope = Scope::new_root(ScopeKind::File, pos(0));
    scope.map_name_to_symbol(StringId(3), DeclarationId(30));
    let copy = scope.copy();
    assert_eq!(copy.lookup(StringId(3)), Some(DeclarationId(30)));
}

#[test]
fn span_merge_runs_from_first_start_to_second_end() {
    let a = span(3, 7);
    let b = span(10, 15);
    let m = a.merge(&b);
    assert_eq!(m.start.byte_offset, 3);
    assert_eq!(m.end.byte_offset, 15);
    assert!(m.path.same_as(&a.path));
}

#[test]
fn span_contains_includes_both_ends() {
    let s = span(3, 7);
    assert!(s.contains(3));
    assert!(s.contains(7));
    assert!(s.contains(5));
    assert!(!s.contains(2));
    assert!(!s.contains(8));
}

#[test]
fn module_paths_compare_by_text() {
    let a = ModulePath("a/b.wl".to_string());
    let b = ModulePath("a/b.wl".to_string());
    let c = ModulePath("a/c.wl".to_string());
    assert!(a.same_as(&b));
    assert!(!a.same_as(&c));
}

#[test]
fn identifiers_compare_by_name_only() {
    let a = IdentifierNode { name: StringId(4), span: span(0, 1) };
    let b = IdentifierNode { name: StringId(4), span: span(10, 12) };
    let c = IdentifierNode { name: StringId(9), span: span(0, 1) };
    assert!(a == b);
    assert!(a != c);
    assert_eq!(a.partial_cmp(&c), Some(std::cmp::Ordering::Less));
    assert_eq!(c.partial_cmp(&a), Some(std::cmp::Ordering::Greater));
    assert_eq!(a.partial_cmp(&b), Some(std::cmp::Ordering::Equal));
    assert!(a < c);
}

#[test]
fn string_literals_compare_by_text_only() {
    let a = StringNode { value: "hi".to_string(), len: 2, span: span(0, 4) };
    let b = StringNode { value: "hi".to_string(), len: 2, span: span(8, 12) };
    let c = StringNode { value: "ho".to_string(), len: 2, span: span(0, 4) };
    assert!(a == b);
    assert!(a != c);
}
