use willow::ast::decl::{Declaration, FnDecl, GenericParam, ImportItem, Param, VarDecl};
use willow::ast::expr::{BlockContents, Expr, ExprKind, Stmt};
use willow::ast::type_annotation::{TypeAnnotation, TypeAnnotationKind};
use willow::ast::{DeclarationId, IdentifierNode, ModulePath, NumberKind, Position, Span, StringNode};
use willow::compile::interner::StringId;
use willow::globals::Globals;
use willow::hir::builders::defs::{MemDefs, VarDefs};
use willow::hir::builders::{Builder, InBlock, InModule, Program};
use willow::hir::errors::{SemanticError, SemanticErrorKind};
use willow::hir::expressions::if_expr::IfContext;
use willow::hir::instructions::{
    BasicBlockId, BinaryOpKind, FunctionCFG, InstrId, InstructionKind, MakeLiteralKind, MemoryId, Terminator,
    UnaryOpKind,
};
use willow::hir::scope::{Scope, ScopeKind};

const FUNC: DeclarationId = DeclarationId(1000);

fn pos(byte_offset: usize) -> Position {
    Position { line: 1, col: byte_offset + 1, byte_offset }
}

fn sp(start: usize, end: usize) -> Span {
    Span { start: pos(start), end: pos(end), path: ModulePath("main.wl".to_string()) }
}

fn block_builder() -> Builder<InBlock> {
    let mut program = Program::new(None, 8, 8);
    program.insert_cfg(FUNC, FunctionCFG::new());
    let mut b = Builder {
        context: InBlock { path: ModulePath("main.wl".to_string()), func_id: FUNC, block_id: BasicBlockId(0) },
        program,
        errors: Vec::new(),
        current_scope: Scope::new_root(ScopeKind::FunctionBody, pos(0)),
        globals: Globals::new(),
        current_def: VarDefs::new(),
        incomplete_phis: VarDefs::new(),
        current_memory_def: MemDefs::new(),
        incomplete_memory_phis: MemDefs::new(),
    };
    b.write_memory(BasicBlockId(0), MemoryId(0));
    b
}

fn module_builder(path: &str, entry: Option<&str>) -> Builder<InModule> {
    Builder {
        context: InModule { path: ModulePath(path.to_string()) },
        program: Program::new(entry.map(|e| ModulePath(e.to_string())), 8, 8),
        errors: Vec::new(),
        current_scope: Scope::new_root(ScopeKind::File, pos(0)),
        globals: Globals::new(),
        current_def: VarDefs::new(),
        incomplete_phis: VarDefs::new(),
        current_memory_def: MemDefs::new(),
        incomplete_memory_phis: MemDefs::new(),
    }
}

fn e(kind: ExprKind) -> Expr {
    Expr { kind, span: sp(0, 1) }
}

fn num(n: i32) -> Expr {
    e(ExprKind::Number(NumberKind::I32(n)))
}

fn boolean(v: bool) -> Expr {
    e(ExprKind::BoolLiteral(v))
}

fn ident(name: StringId) -> IdentifierNode {
    IdentifierNode { name, span: sp(2, 3) }
}

fn block(statements: Vec<Stmt>, final_expr: Option<Expr>) -> BlockContents {
    BlockContents { statements, final_expr: final_expr.map(Box::new), span: sp(0, 10) }
}

fn void_ty() -> TypeAnnotation {
    TypeAnnotation { kind: TypeAnnotationKind::Void, span: sp(0, 0) }
}

fn kind_of(b: &Builder<InBlock>, id: InstrId) -> &InstructionKind {
    &b.cfg().get_instr(id).kind
}

fn fn_decl(id: usize, name: StringId, generic: bool, params: Vec<Param>, body: BlockContents) -> FnDecl {
    let generic_params = if generic {
        vec![GenericParam { identifier: ident(name), extends: None }]
    } else {
        Vec::new()
    };
    FnDecl {
        id: DeclarationId(id),
        documentation: None,
        identifier: IdentifierNode { name, span: sp(4, 8) },
        generic_params,
        params,
        return_type: void_ty(),
        body,
        is_exported: false,
    }
}

#[test]
fn number_literal_becomes_a_literal_instruction() {
    let mut b = block_builder();
    let id = b.build_expr(num(42));
    assert!(matches!(kind_of(&b, id), InstructionKind::MakeLiteral(MakeLiteralKind::Number(NumberKind::I32(42)))));
    assert!(b.errors.is_empty());
}

#[test]
fn bool_and_null_literals() {
    let mut b = block_builder();
    let t = b.build_expr(boolean(true));
    let n = b.build_expr(e(ExprKind::Null));
    assert!(matches!(kind_of(&b, t), InstructionKind::MakeLiteral(MakeLiteralKind::Bool(true))));
    assert!(matches!(kind_of(&b, n), InstructionKind::MakeLiteral(MakeLiteralKind::Null)));
}

#[test]
fn string_literal_is_interned() {
    let mut b = block_builder();
    let node = StringNode { value: "hello".to_string(), len: 5, span: sp(0, 7) };
    let id = b.build_expr(e(ExprKind::String(node)));
    match kind_of(&b, id) {
        InstructionKind::MakeLiteral(MakeLiteralKind::String(s)) => {
            assert_eq!(b.globals.string_interner.resolve(*s), "hello");
        },
        _ => panic!("expected a string literal"),
    }
}

#[test]
fn addition_refers_to_both_operands() {
    let mut b = block_builder();
    let add = e(ExprKind::Add { left: Box::new(num(1)), right: Box::new(num(2)) });
    let id = b.build_expr(add);
    match kind_of(&b, id) {
        InstructionKind::Binary(bi) => {
            assert!(matches!(bi.op, BinaryOpKind::Add));
            assert!(matches!(kind_of(&b, bi.lhs), InstructionKind::MakeLiteral(MakeLiteralKind::Number(NumberKind::I32(1)))));
            assert!(matches!(kind_of(&b, bi.rhs), InstructionKind::MakeLiteral(MakeLiteralKind::Number(NumberKind::I32(2)))));
        },
        _ => panic!("expected a binary instruction"),
    }
}

#[test]
fn comparison_operators_map_to_their_kinds() {
    let mut b = block_builder();
    let lt = b.build_expr(e(ExprKind::LessThan { left: Box::new(num(1)), right: Box::new(num(2)) }));
    let ne = b.build_expr(e(ExprKind::NotEqual { left: Box::new(num(1)), right: Box::new(num(2)) }));
    assert!(matches!(kind_of(&b, lt), InstructionKind::Binary(bi) if matches!(bi.op, BinaryOpKind::Lt)));
    assert!(matches!(kind_of(&b, ne), InstructionKind::Binary(bi) if matches!(bi.op, BinaryOpKind::Neq)));
}

#[test]
fn not_and_negation_are_unary() {
    let mut b = block_builder();
    let n = b.build_expr(e(ExprKind::Not { right: Box::new(boolean(false)) }));
    let m = b.build_expr(e(ExprKind::Neg { right: Box::new(num(3)) }));
    assert!(matches!(kind_of(&b, n), InstructionKind::Unary(u) if matches!(u.op, UnaryOpKind::Not)));
    assert!(matches!(kind_of(&b, m), InstructionKind::Unary(u) if matches!(u.op, UnaryOpKind::Neg)));
}

#[test]
fn build_unary_directly() {
    let mut b = block_builder();
    let id = b.build_unary(sp(0, 2), num(5), UnaryOpKind::Neg);
    match kind_of(&b, id) {
        InstructionKind::Unary(u) => {
            assert!(matches!(kind_of(&b, u.value), InstructionKind::MakeLiteral(MakeLiteralKind::Number(NumberKind::I32(5)))));
        },
        _ => panic!("expected a unary instruction"),
    }
}

#[test]
fn logical_and_branches_and_merges() {
    let mut b = block_builder();
    let and = e(ExprKind::And { left: Box::new(boolean(true)), right: Box::new(boolean(false)) });
    let id = b.build_expr(and);
    match kind_of(&b, id) {
        InstructionKind::Phi(p) => {
            assert_eq!(p.sources.len(), 2);
            assert!(matches!(kind_of(&b, p.sources[0].value), InstructionKind::MakeLiteral(MakeLiteralKind::Bool(false))));
        },
        _ => panic!("expected a phi"),
    }
    assert_eq!(b.cfg().blocks.len(), 3);
    assert!(matches!(b.cfg().get_block(BasicBlockId(0)).terminator, Some(Terminator::CondJump { .. })));
    assert!(b.errors.is_empty());
}

#[test]
fn logical_or_short_circuits_with_true() {
    let mut b = block_builder();
    let or = e(ExprKind::Or { left: Box::new(boolean(false)), right: Box::new(boolean(true)) });
    let id = b.build_expr(or);
    match kind_of(&b, id) {
        InstructionKind::Phi(p) => {
            assert_eq!(p.sources.len(), 2);
            assert!(matches!(kind_of(&b, p.sources[0].value), InstructionKind::MakeLiteral(MakeLiteralKind::Bool(true))));
        },
        _ => panic!("expected a phi"),
    }
}

#[test]
fn if_expression_merges_every_branch() {
    let mut b = block_builder();
    let branches = vec![(Box::new(boolean(true)), block(Vec::new(), Some(num(1)))), (
        Box::new(boolean(false)),
        block(Vec::new(), Some(num(2))),
    )];
    let id = b.build_if(branches, Some(block(Vec::new(), Some(num(3)))), IfContext::Expression);
    match kind_of(&b, id) {
        InstructionKind::Phi(p) => assert_eq!(p.sources.len(), 3),
        _ => panic!("expected a phi"),
    }
    assert!(b.errors.is_empty());
}

#[test]
fn if_statement_has_no_value() {
    let mut b = block_builder();
    let branches = vec![(Box::new(boolean(true)), block(Vec::new(), Some(num(1))))];
    let id = b.build_if(branches, Some(block(Vec::new(), None)), IfContext::Statement);
    assert!(matches!(kind_of(&b, id), InstructionKind::MakeLiteral(MakeLiteralKind::Void)));
}

#[test]
fn list_literal_holds_its_items() {
    let mut b = block_builder();
    let id = b.build_expr(e(ExprKind::List(vec![num(1), num(2), num(3)])));
    match kind_of(&b, id) {
        InstructionKind::ListInit(li) => assert_eq!(li.items.len(), 3),
        _ => panic!("expected a list"),
    }
}

#[test]
fn struct_literal_keeps_field_order_and_reports_duplicates() {
    let mut b = block_builder();
    let a = b.globals.string_interner.intern("a");
    let c = b.globals.string_interner.intern("c");
    let fields = vec![(ident(a), num(1)), (ident(c), num(2)), (ident(a), num(3))];
    let id = b.build_struct_init_expr(sp(0, 20), fields, false);
    match kind_of(&b, id) {
        InstructionKind::StructInit(si) => {
            assert_eq!(si.fields.len(), 3);
            assert_eq!(si.fields[1].0.name, c);
            assert!(!si.by_value);
        },
        _ => panic!("expected a struct"),
    }
    assert_eq!(b.errors.len(), 1);
    assert!(matches!(&b.errors[0].kind, SemanticErrorKind::DuplicateStructFieldInitializer(i) if i.name == a));
}

#[test]
fn undeclared_identifier_is_reported() {
    let mut b = block_builder();
    let x = b.globals.string_interner.intern("x");
    let id = b.build_expr(e(ExprKind::Identifier(ident(x))));
    assert!(matches!(kind_of(&b, id), InstructionKind::MakeLiteral(MakeLiteralKind::Unknown)));
    assert_eq!(b.errors.len(), 1);
    assert!(matches!(&b.errors[0].kind, SemanticErrorKind::UndeclaredIdentifier(i) if i.name == x));
}

#[test]
fn variable_declared_in_block_is_read_back() {
    let mut b = block_builder();
    let x = b.globals.string_interner.intern("x");
    let decl = VarDecl {
        id: DeclarationId(5),
        documentation: None,
        identifier: ident(x),
        constraint: None,
        value: num(7),
    };
    let body = block(vec![Stmt::VarDecl(decl)], Some(e(ExprKind::Identifier(ident(x)))));
    let id = b.build_expr(e(ExprKind::CodeBlock(body)));
    assert!(matches!(kind_of(&b, id), InstructionKind::MakeLiteral(MakeLiteralKind::Number(NumberKind::I32(7)))));
    assert!(b.errors.is_empty());
    assert!(b.program.find_decl(DeclarationId(5)).is_some());
    assert_eq!(b.current_scope.lookup(x), None);
}

#[test]
fn code_block_without_final_expression_is_void() {
    let mut b = block_builder();
    let body = block(vec![Stmt::Expression(num(1))], None);
    let id = b.build_codeblock_expr(body);
    assert!(matches!(kind_of(&b, id), InstructionKind::MakeLiteral(MakeLiteralKind::Void)));
}

#[test]
fn field_and_static_access_are_refused() {
    let mut b = block_builder();
    let f = b.globals.string_interner.intern("f");
    let a = b.build_expr(e(ExprKind::Access { left: Box::new(num(1)), field: ident(f) }));
    let s = b.build_expr(e(ExprKind::StaticAccess { left: Box::new(num(1)), field: ident(f) }));
    assert!(matches!(kind_of(&b, a), InstructionKind::MakeLiteral(MakeLiteralKind::Unknown)));
    assert!(matches!(kind_of(&b, s), InstructionKind::MakeLiteral(MakeLiteralKind::Unknown)));
    assert!(matches!(b.errors[0].kind, SemanticErrorKind::CannotAccessField));
    assert!(matches!(b.errors[1].kind, SemanticErrorKind::CannotStaticAccess));
}

#[test]
fn function_call_passes_every_argument() {
    let mut b = block_builder();
    let call = e(ExprKind::FnCall { left: Box::new(num(0)), args: vec![num(1), num(2)] });
    let id = b.build_expr(call);
    match kind_of(&b, id) {
        InstructionKind::Call(ci) => {
            assert_eq!(ci.args.len(), 2);
            assert_ne!(ci.memory_in, ci.memory_out);
        },
        _ => panic!("expected a call"),
    }
}

#[test]
fn report_error_gives_unknown_value() {
    let mut b = block_builder();
    let err = SemanticError { kind: SemanticErrorKind::CannotDeclareGlobalVariable, span: sp(1, 2) };
    let id = b.report_error_and_get_poison(err);
    assert!(matches!(kind_of(&b, id), InstructionKind::MakeLiteral(MakeLiteralKind::Unknown)));
    assert_eq!(b.errors.len(), 1);
}

#[test]
fn generic_function_expression_is_refused() {
    let mut b = block_builder();
    let name = b.globals.string_interner.intern("g");
    let f = fn_decl(50, name, true, Vec::new(), block(Vec::new(), None));
    let id = b.build_expr(e(ExprKind::Fn(Box::new(f))));
    assert!(matches!(kind_of(&b, id), InstructionKind::MakeLiteral(MakeLiteralKind::Unknown)));
    assert!(matches!(b.errors[0].kind, SemanticErrorKind::GenericClosuresNotSupported));
}

#[test]
fn function_expression_inside_a_body_is_a_closure() {
    let mut b = block_builder();
    let name = b.globals.string_interner.intern("inner");
    let f = fn_decl(51, name, false, Vec::new(), block(Vec::new(), None));
    let id = b.build_expr(e(ExprKind::Fn(Box::new(f))));
    assert!(matches!(kind_of(&b, id), InstructionKind::MakeLiteral(MakeLiteralKind::Fn(DeclarationId(51)))));
    assert_eq!(b.errors.len(), 1);
    assert!(matches!(b.errors[0].kind, SemanticErrorKind::ClosuresNotSupportedYet));
    assert!(b.program.find_cfg(DeclarationId(51)).is_none());
}

#[test]
fn function_body_at_file_scope_is_built() {
    let mut m = module_builder("main.wl", Some("main.wl"));
    let name = m.globals.string_interner.intern("helper");
    let pname = m.globals.string_interner.intern("p");
    let param = Param { id: DeclarationId(61), identifier: ident(pname), constraint: void_ty() };
    let body = block(Vec::new(), Some(e(ExprKind::Identifier(ident(pname)))));
    let f = fn_decl(60, name, false, vec![param], body);
    let res = m.build_fn_body(f);
    assert!(res.is_ok());
    let i = m.program.find_cfg(DeclarationId(60)).unwrap();
    let cfg = &m.program.cfgs[i].cfg;
    assert!(cfg.get_block(BasicBlockId(0)).sealed);
    match &cfg.get_block(BasicBlockId(0)).terminator {
        Some(Terminator::Return { value }) => {
            assert!(matches!(cfg.get_instr(*value).kind, InstructionKind::Param(0)));
        },
        _ => panic!("expected a return"),
    }
    assert!(m.errors.is_empty());
    assert!(m.program.find_decl(DeclarationId(61)).is_some());
}

#[test]
fn main_with_parameters_is_refused() {
    let mut m = module_builder("main.wl", Some("main.wl"));
    let name = m.globals.string_interner.intern("main");
    let pname = m.globals.string_interner.intern("argc");
    let param = Param { id: DeclarationId(71), identifier: ident(pname), constraint: void_ty() };
    let f = fn_decl(70, name, false, vec![param], block(Vec::new(), None));
    let res = m.build_fn_body(f);
    assert!(matches!(res, Err(SemanticError { kind: SemanticErrorKind::MainFunctionCannotHaveParameters, .. })));
    assert!(m.program.find_cfg(DeclarationId(70)).is_none());
}

#[test]
fn main_outside_the_entry_file_is_refused() {
    let mut m = module_builder("lib.wl", Some("main.wl"));
    let name = m.globals.string_interner.intern("main");
    let f = fn_decl(80, name, false, Vec::new(), block(Vec::new(), None));
    let res = m.build_fn_body(f);
    assert!(matches!(res, Err(SemanticError { kind: SemanticErrorKind::MainFunctionMustBeInEntryFile, .. })));
}

#[test]
fn main_in_the_entry_file_is_built() {
    let mut m = module_builder("main.wl", Some("main.wl"));
    let name = m.globals.string_interner.intern("main");
    let f = fn_decl(90, name, false, Vec::new(), block(Vec::new(), Some(num(0))));
    assert!(m.build_fn_body(f).is_ok());
    assert!(m.program.find_cfg(DeclarationId(90)).is_some());
}

#[test]
fn std_import_declares_known_functions() {
    let mut m = module_builder("main.wl", None);
    let print = m.globals.string_interner.intern("print");
    let concat = m.globals.string_interner.intern("concat");
    let alias = m.globals.string_interner.intern("show");
    let items = vec![ImportItem::Symbol { identifier: ident(print), alias: Some(ident(alias)) }, ImportItem::Symbol {
        identifier: ident(concat),
        alias: None,
    }];
    m.build_std_import("std/io", items, sp(0, 30));
    let shown = m.current_scope.lookup(alias).unwrap();
    let i = m.program.find_decl(shown).unwrap();
    match &m.program.declarations[i].decl {
        Declaration::ExternFn(f) => {
            assert_eq!(m.globals.string_interner.resolve(f.identifier.name), "print");
            assert_eq!(f.params.len(), 1);
            assert_eq!(m.globals.string_interner.resolve(f.params[0].identifier.name), "s");
            assert!(matches!(f.params[0].constraint.kind, TypeAnnotationKind::String));
            assert!(matches!(f.return_type.kind, TypeAnnotationKind::Void));
        },
        _ => panic!("expected an external function"),
    }
    assert_eq!(m.current_scope.lookup(print), None);
    assert_eq!(m.errors.len(), 1);
    assert!(matches!(&m.errors[0].kind, SemanticErrorKind::UndeclaredIdentifier(i) if i.name == concat));
}

#[test]
fn std_import_of_string_concat() {
    let mut m = module_builder("main.wl", None);
    let concat = m.globals.string_interner.intern("concat");
    m.build_std_import("std/string", vec![ImportItem::Symbol { identifier: ident(concat), alias: None }], sp(0, 9));
    let d = m.current_scope.lookup(concat).unwrap();
    let i = m.program.find_decl(d).unwrap();
    match &m.program.declarations[i].decl {
        Declaration::ExternFn(f) => {
            assert_eq!(f.params.len(), 2);
            assert!(matches!(&f.params[0].constraint.kind, TypeAnnotationKind::List(inner) if matches!(inner.kind, TypeAnnotationKind::String)));
            assert!(matches!(f.params[1].constraint.kind, TypeAnnotationKind::USize));
            assert!(matches!(f.return_type.kind, TypeAnnotationKind::String));
            assert_eq!(f.id, DeclarationId(0));
            assert_eq!(f.params[0].id, DeclarationId(1));
            assert_eq!(f.params[1].id, DeclarationId(2));
        },
        _ => panic!("expected an external function"),
    }
    assert!(m.errors.is_empty());
}

#[test]
fn std_import_of_an_external_function_is_refused() {
    let mut m = module_builder("main.wl", None);
    let name = m.globals.string_interner.intern("read_file");
    let ext = willow::ast::decl::ExternFnDecl {
        id: DeclarationId(3),
        documentation: None,
        identifier: ident(name),
        params: Vec::new(),
        return_type: void_ty(),
    };
    m.build_std_import("std/fs", vec![ImportItem::ExternFn(ext)], sp(0, 5));
    assert_eq!(m.errors.len(), 1);
    assert!(matches!(&m.errors[0].kind, SemanticErrorKind::UndeclaredIdentifier(i) if i.name == name));
    assert_eq!(m.current_scope.lookup(name), None);
}

#[test]
fn registered_signature_is_declared_and_bound() {
    let mut m = module_builder("main.wl", None);
    let name = m.globals.string_interner.intern("later");
    let f = fn_decl(120, name, false, Vec::new(), block(Vec::new(), None));
    m.register_fn_signature(&f);
    assert_eq!(m.current_scope.lookup(name), Some(DeclarationId(120)));
    let i = m.program.find_decl(DeclarationId(120)).unwrap();
    assert!(matches!(&m.program.declarations[i].decl, Declaration::Fn(g) if g.id == DeclarationId(120) && g.identifier.name == name));
    assert!(m.errors.is_empty());
}

#[test]
fn registered_function_is_referred_to_by_its_declaration() {
    let mut m = module_builder("main.wl", None);
    let name = m.globals.string_interner.intern("callee");
    let f = fn_decl(130, name, false, Vec::new(), block(Vec::new(), None));
    m.register_fn_signature(&f);
    let mut program = Program::new(None, 8, 8);
    std::mem::swap(&mut program, &mut m.program);
    program.insert_cfg(FUNC, FunctionCFG::new());
    let mut b = block_builder();
    b.program = program;
    b.globals = std::mem::replace(&mut m.globals, Globals::new());
    b.current_scope = m.current_scope.enter(ScopeKind::FunctionBody, pos(0));
    let id = b.build_expr(e(ExprKind::Identifier(ident(name))));
    assert!(matches!(kind_of(&b, id), InstructionKind::MakeLiteral(MakeLiteralKind::Fn(DeclarationId(130)))));
    assert!(b.errors.is_empty());
}

#[test]
fn logical_or_puts_its_literal_in_the_starting_block() {
    let mut b = block_builder();
    let left = b.emit_bool(false, sp(0, 1));
    let id = b.emit_logical_or(left, sp(0, 1), boolean(true));
    let (lit, end) = match kind_of(&b, id) {
        InstructionKind::Phi(p) => (p.sources[0].value, p.sources[1].block),
        _ => panic!("expected a phi"),
    };
    assert_eq!(b.cfg().get_instr(lit).block, BasicBlockId(0));
    let right_block = b.cfg().get_block(BasicBlockId(1));
    assert!(right_block.sealed);
    assert_eq!(right_block.predecessors, vec![BasicBlockId(0)]);
    assert_eq!(end, BasicBlockId(1));
    assert!(b.cfg().get_block(BasicBlockId(2)).sealed);
}

#[test]
fn each_repeated_field_name_is_reported_once() {
    let mut b = block_builder();
    let a = b.globals.string_interner.intern("a");
    let c = b.globals.string_interner.intern("c");
    let fields = vec![(ident(a), num(1)), (ident(a), num(2)), (ident(c), num(3)), (ident(a), num(4))];
    b.build_struct_init_expr(sp(0, 30), fields, true);
    assert_eq!(b.errors.len(), 2);
    for err in &b.errors {
        assert!(matches!(&err.kind, SemanticErrorKind::DuplicateStructFieldInitializer(i) if i.name == a));
    }
}

#[test]
fn subtraction_of_names_keeps_operand_order() {
    let mut m = module_builder("main.wl", Some("main.wl"));
    let name = m.globals.string_interner.intern("diff");
    let a = m.globals.string_interner.intern("a");
    let c = m.globals.string_interner.intern("c");
    let pa = Param { id: DeclarationId(201), identifier: ident(a), constraint: void_ty() };
    let pc = Param { id: DeclarationId(202), identifier: ident(c), constraint: void_ty() };
    let body = block(Vec::new(), Some(e(ExprKind::Subtract {
        left: Box::new(e(ExprKind::Identifier(ident(a)))),
        right: Box::new(e(ExprKind::Identifier(ident(c)))),
    })));
    assert!(m.build_fn_body(fn_decl(200, name, false, vec![pa, pc], body)).is_ok());
    let i = m.program.find_cfg(DeclarationId(200)).unwrap();
    let cfg = &m.program.cfgs[i].cfg;
    let value = match &cfg.get_block(BasicBlockId(0)).terminator {
        Some(Terminator::Return { value }) => *value,
        _ => panic!("expected a return"),
    };
    match &cfg.get_instr(value).kind {
        InstructionKind::Binary(bi) => {
            assert!(matches!(bi.op, BinaryOpKind::Sub));
            assert_eq!(bi.lhs, InstrId(0));
            assert_eq!(bi.rhs, InstrId(1));
        },
        _ => panic!("expected a subtraction"),
    }
}

#[test]
fn second_parameter_is_returned_by_name() {
    let mut m = module_builder("main.wl", Some("main.wl"));
    let name = m.globals.string_interner.intern("second");
    let a = m.globals.string_interner.intern("a");
    let c = m.globals.string_interner.intern("c");
    let pa = Param { id: DeclarationId(211), identifier: ident(a), constraint: void_ty() };
    let pc = Param { id: DeclarationId(212), identifier: ident(c), constraint: void_ty() };
    let body = block(Vec::new(), Some(e(ExprKind::Identifier(ident(c)))));
    assert!(m.build_fn_body(fn_decl(210, name, false, vec![pa, pc], body)).is_ok());
    let i = m.program.find_cfg(DeclarationId(210)).unwrap();
    let cfg = &m.program.cfgs[i].cfg;
    assert!(matches!(cfg.get_block(BasicBlockId(0)).terminator, Some(Terminator::Return { value: InstrId(1) })));
}

#[test]
fn if_conditions_jump_to_their_bodies() {
    let mut b = block_builder();
    let branches = vec![(Box::new(boolean(true)), block(Vec::new(), Some(num(1)))), (
        Box::new(boolean(false)),
        block(Vec::new(), Some(num(2))),
    )];
    b.build_if(branches, Some(block(Vec::new(), Some(num(3)))), IfContext::Statement);
    // Blocks: 0 start, 1 merge, 2 first body, 3 second condition, 4 second body, 5 else.
    match &b.cfg().get_block(BasicBlockId(0)).terminator {
        Some(Terminator::CondJump { condition, true_target, false_target }) => {
            assert!(matches!(kind_of(&b, *condition), InstructionKind::MakeLiteral(MakeLiteralKind::Bool(true))));
            assert_eq!(*true_target, BasicBlockId(2));
            assert_eq!(*false_target, BasicBlockId(3));
        },
        _ => panic!("expected a conditional jump"),
    }
    match &b.cfg().get_block(BasicBlockId(3)).terminator {
        Some(Terminator::CondJump { condition, true_target, false_target }) => {
            assert!(matches!(kind_of(&b, *condition), InstructionKind::MakeLiteral(MakeLiteralKind::Bool(false))));
            assert_eq!(*true_target, BasicBlockId(4));
            assert_eq!(*false_target, BasicBlockId(5));
        },
        _ => panic!("expected a conditional jump"),
    }
    assert!(matches!(b.cfg().get_block(BasicBlockId(2)).terminator, Some(Terminator::Jump { target: BasicBlockId(1) })));
    assert!(matches!(b.cfg().get_block(BasicBlockId(5)).terminator, Some(Terminator::Jump { target: BasicBlockId(1) })));
}

#[test]
fn std_import_takes_the_next_declaration_ids() {
    let mut m = module_builder("main.wl", None);
    let print = m.globals.string_interner.intern("print");
    let start = m.globals.declaration_counter;
    m.build_std_import("std/io", vec![ImportItem::Symbol { identifier: ident(print), alias: None }], sp(0, 5));
    let d = m.current_scope.lookup(print).unwrap();
    assert_eq!(d, DeclarationId(start));
    assert_eq!(m.globals.declaration_counter, start + 2);
}
