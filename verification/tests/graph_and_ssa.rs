use willow::ast::decl::{Declaration, Param};
use willow::ast::type_annotation::{TypeAnnotation, TypeAnnotationKind};
use willow::ast::{DeclarationId, IdentifierNode, ModulePath, NumberKind, Position, Span};
use willow::compile::interner::StringId;
use willow::globals::Globals;
use willow::hir::builders::defs::{MemDefs, VarDefs};
use willow::hir::builders::{Builder, InBlock, Program};
use willow::hir::instructions::{
    BasicBlockId, FunctionCFG, InstrDefinition, InstrId, InstructionKind, MakeLiteralKind, MemoryId, Terminator,
};
use willow::hir::scope::{Scope, ScopeKind};

const FUNC: DeclarationId = DeclarationId(1000);

fn pos(byte_offset: usize) -> Position {
    Position { line: 1, col: byte_offset + 1, byte_offset }
}

fn sp(start: usize, end: usize) -> Span {
    Span { start: pos(start), end: pos(end), path: ModulePath("main.wl".to_string()) }
}

fn block_builder() -> Builder<InBlock> {
    let mut program = Program::new(None, 8, 8);
    program.insert_cfg(FUNC, FunctionCFG::new());
    let mut b = Builder {
        context: InBlock { path: ModulePath("main.wl".to_string()), func_id: FUNC, block_id: BasicBlockId(0) },
        program,
        errors: Vec::new(),
        current_scope: Scope::new_root(ScopeKind::FunctionBody, pos(0)),
        globals: Globals::new(),
        current_def: VarDefs::new(),
        incomplete_phis: VarDefs::new(),
        current_memory_def: MemDefs::new(),
        incomplete_memory_phis: MemDefs::new(),
    };
    b.write_memory(BasicBlockId(0), MemoryId(0));
    b
}

fn literal(b: &mut Builder<InBlock>, n: i32) -> InstrId {
    b.emit_number(NumberKind::I32(n), sp(0, 1))
}

fn param(id: usize) -> Param {
    Param {
        id: DeclarationId(id),
        identifier: IdentifierNode { name: StringId(0), span: sp(0, 1) },
        constraint: TypeAnnotation { kind: TypeAnnotationKind::Bool, span: sp(0, 1) },
    }
}

#[test]
fn new_graph_has_only_its_entry_block() {
    let cfg = FunctionCFG::new();
    assert_eq!(cfg.blocks.len(), 1);
    assert_eq!(cfg.entry_block, BasicBlockId(0));
    assert!(cfg.instructions.is_empty());
    assert!(!cfg.get_block(BasicBlockId(0)).sealed);
    assert!(cfg.get_block(BasicBlockId(0)).terminator.is_none());
}

#[test]
fn blocks_are_numbered_by_creation() {
    let mut cfg = FunctionCFG::new();
    assert_eq!(cfg.new_block(), BasicBlockId(1));
    assert_eq!(cfg.new_block(), BasicBlockId(2));
    assert_eq!(cfg.get_block(BasicBlockId(2)).id, BasicBlockId(2));
}

#[test]
fn pushed_instruction_is_found_again() {
    let mut cfg = FunctionCFG::new();
    let def = InstrDefinition {
        kind: InstructionKind::MakeLiteral(MakeLiteralKind::Bool(true)),
        block: BasicBlockId(0),
        span: sp(3, 4),
    };
    let id = cfg.push_instruction(def);
    assert_eq!(id, InstrId(0));
    assert!(matches!(cfg.get_instr(id).kind, InstructionKind::MakeLiteral(MakeLiteralKind::Bool(true))));
    assert_eq!(cfg.get_block(BasicBlockId(0)).instructions, vec![id]);
}

#[test]
fn predecessors_stay_sorted_and_unique() {
    let mut cfg = FunctionCFG::new();
    cfg.new_block();
    cfg.new_block();
    let b = cfg.get_block_mut(BasicBlockId(2));
    b.add_predecessor(BasicBlockId(1));
    b.add_predecessor(BasicBlockId(0));
    b.add_predecessor(BasicBlockId(1));
    assert_eq!(b.predecessors, vec![BasicBlockId(0), BasicBlockId(1)]);
}

#[test]
fn memory_ids_are_fresh() {
    let mut cfg = FunctionCFG::new();
    let a = cfg.new_memory_id();
    let b = cfg.new_memory_id();
    assert_eq!(a, MemoryId(1));
    assert_eq!(b, MemoryId(2));
}

#[test]
fn declarations_are_inserted_and_replaced() {
    let mut program = Program::new(None, 8, 8);
    program.insert_declaration(DeclarationId(4), Declaration::Param(param(4)));
    program.insert_declaration(DeclarationId(9), Declaration::Param(param(9)));
    assert_eq!(program.find_decl(DeclarationId(9)), Some(1));
    program.insert_declaration(DeclarationId(4), Declaration::GenericParameter(StringId(3)));
    assert_eq!(program.declarations.len(), 2);
    let i = program.find_decl(DeclarationId(4)).unwrap();
    assert!(matches!(program.declarations[i].decl, Declaration::GenericParameter(StringId(3))));
    assert_eq!(program.find_decl(DeclarationId(5)), None);
}

#[test]
fn graphs_are_inserted_and_found() {
    let mut program = Program::new(Some(ModulePath("main.wl".to_string())), 8, 8);
    assert_eq!(program.find_cfg(DeclarationId(1)), None);
    program.insert_cfg(DeclarationId(1), FunctionCFG::new());
    program.insert_cfg(DeclarationId(2), FunctionCFG::new());
    assert_eq!(program.find_cfg(DeclarationId(2)), Some(1));
    program.insert_cfg(DeclarationId(1), FunctionCFG::new());
    assert_eq!(program.cfgs.len(), 2);
}

#[test]
fn read_after_write_in_one_block() {
    let mut b = block_builder();
    let v = literal(&mut b, 1);
    b.write_variable(BasicBlockId(0), DeclarationId(7), v);
    assert_eq!(b.read_variable(BasicBlockId(0), DeclarationId(7)), v);
    let w = literal(&mut b, 2);
    b.write_variable(BasicBlockId(0), DeclarationId(7), w);
    assert_eq!(b.read_variable(BasicBlockId(0), DeclarationId(7)), w);
}

#[test]
fn value_flows_through_a_single_predecessor() {
    let mut b = block_builder();
    let v = literal(&mut b, 1);
    b.write_variable(BasicBlockId(0), DeclarationId(7), v);
    b.seal_block(BasicBlockId(0));
    let next = b.new_block();
    b.emit_jmp(next);
    b.use_basic_block(next);
    b.seal_block(next);
    assert_eq!(b.read_variable(next, DeclarationId(7)), v);
    assert!(b.get_bb(next).sealed);
}

#[test]
fn merge_of_two_values_is_a_phi() {
    let mut b = block_builder();
    let cond = b.emit_bool(true, sp(0, 1));
    b.seal_block(BasicBlockId(0));
    let left = b.new_block();
    let right = b.new_block();
    let join = b.new_block();
    b.emit_cond_jmp(cond, left, right);

    b.use_basic_block(left);
    b.seal_block(left);
    let one = literal(&mut b, 1);
    b.write_variable(left, DeclarationId(7), one);
    b.emit_jmp(join);

    b.use_basic_block(right);
    b.seal_block(right);
    let two = literal(&mut b, 2);
    b.write_variable(right, DeclarationId(7), two);
    b.emit_jmp(join);

    b.use_basic_block(join);
    b.seal_block(join);
    let merged = b.read_variable(join, DeclarationId(7));
    match &b.cfg().get_instr(merged).kind {
        InstructionKind::Phi(p) => {
            assert_eq!(p.sources.len(), 2);
            let values: Vec<InstrId> = p.sources.iter().map(|s| s.value).collect();
            assert!(values.contains(&one));
            assert!(values.contains(&two));
        },
        _ => panic!("expected a phi"),
    }
    assert_eq!(b.get_bb(join).predecessors, vec![left, right]);
}

#[test]
fn phi_waiting_in_unsealed_block_is_filled_when_sealed() {
    let mut b = block_builder();
    let v = literal(&mut b, 5);
    b.write_variable(BasicBlockId(0), DeclarationId(7), v);
    b.seal_block(BasicBlockId(0));
    let next = b.new_block();
    b.use_basic_block(next);
    let pending = b.read_variable(next, DeclarationId(7));
    assert!(matches!(b.cfg().get_instr(pending).kind, InstructionKind::Phi(_)));
    b.use_basic_block(BasicBlockId(0));
    b.emit_jmp(next);
    b.use_basic_block(next);
    b.seal_block(next);
    match &b.cfg().get_instr(pending).kind {
        InstructionKind::Phi(p) => {
            assert_eq!(p.sources.len(), 1);
            assert_eq!(p.sources[0].value, v);
            assert_eq!(p.sources[0].block, BasicBlockId(0));
        },
        _ => panic!("expected a phi"),
    }
}

#[test]
fn memory_read_after_write() {
    let mut b = block_builder();
    assert_eq!(b.read_memory(BasicBlockId(0)), MemoryId(0));
    b.write_memory(BasicBlockId(0), MemoryId(3));
    assert_eq!(b.read_memory(BasicBlockId(0)), MemoryId(3));
}

#[test]
fn call_advances_memory() {
    let mut b = block_builder();
    let f = b.emit_const_fn(DeclarationId(3), sp(0, 1));
    let arg = literal(&mut b, 4);
    let call = b.emit_call(f, vec![arg], sp(0, 5));
    let out = match &b.cfg().get_instr(call).kind {
        InstructionKind::Call(ci) => {
            assert_eq!(ci.func, f);
            assert_eq!(ci.args, vec![arg]);
            assert_eq!(ci.memory_in, MemoryId(0));
            ci.memory_out
        },
        _ => panic!("expected a call"),
    };
    assert_ne!(out, MemoryId(0));
    assert_eq!(b.read_memory(BasicBlockId(0)), out);
}

#[test]
fn return_ends_the_block() {
    let mut b = block_builder();
    let v = literal(&mut b, 0);
    b.emit_return(v);
    assert!(matches!(b.bb().terminator, Some(Terminator::Return { value }) if value == v));
}

#[test]
fn unreachable_ends_the_block() {
    let mut b = block_builder();
    b.emit_unreachable();
    assert!(matches!(b.bb().terminator, Some(Terminator::Unreachable)));
}

#[test]
fn constants_have_their_kinds() {
    let mut b = block_builder();
    let v = b.emit_void(sp(0, 1));
    let n = b.emit_null(sp(0, 1));
    let s = b.emit_string(StringId(2), sp(0, 1));
    assert!(matches!(b.cfg().get_instr(v).kind, InstructionKind::MakeLiteral(MakeLiteralKind::Void)));
    assert!(matches!(b.cfg().get_instr(n).kind, InstructionKind::MakeLiteral(MakeLiteralKind::Null)));
    assert!(matches!(b.cfg().get_instr(s).kind, InstructionKind::MakeLiteral(MakeLiteralKind::String(StringId(2)))));
    assert_eq!(b.get_instr_span(s).start.byte_offset, 0);
}

#[test]
fn allocations_are_named_after_their_instruction() {
    let mut b = block_builder();
    let ty = TypeAnnotation { kind: TypeAnnotationKind::U8, span: sp(0, 1) };
    let _ = literal(&mut b, 1);
    let a = b.emit_stack_alloc(ty, 4, sp(0, 2));
    match &b.cfg().get_instr(a).kind {
        InstructionKind::Memory(willow::hir::instructions::MemoryInstr::StackAlloc { id, count, .. }) => {
            assert_eq!(id.0, 1);
            assert_eq!(*count, 4);
        },
        _ => panic!("expected a stack allocation"),
    }
}

#[test]
fn heap_free_and_memcopy_advance_memory_but_reads_do_not() {
    let mut b = block_builder();
    let p = literal(&mut b, 1);
    let q = literal(&mut b, 2);
    b.emit_heap_free(p, sp(0, 1));
    let after_free = b.read_memory(BasicBlockId(0));
    assert_ne!(after_free, MemoryId(0));
    b.emit_memcopy(p, q, sp(0, 1));
    let after_copy = b.read_memory(BasicBlockId(0));
    assert_ne!(after_copy, after_free);
    let place = willow::hir::instructions::MemoryLocation {
        base: willow::hir::instructions::AllocationId(0),
        projections: Vec::new(),
    };
    let r = b.emit_read_place(place, sp(0, 1));
    assert_eq!(b.read_memory(BasicBlockId(0)), after_copy);
    match &b.cfg().get_instr(r).kind {
        InstructionKind::Memory(willow::hir::instructions::MemoryInstr::ReadPlace { memory_in, .. }) => {
            assert_eq!(*memory_in, after_copy);
        },
        _ => panic!("expected a read"),
    }
}

#[test]
fn write_place_advances_memory() {
    let mut b = block_builder();
    let v = literal(&mut b, 9);
    let place = willow::hir::instructions::MemoryLocation {
        base: willow::hir::instructions::AllocationId(0),
        projections: Vec::new(),
    };
    let w = b.emit_write_place(place, v, sp(0, 1));
    let out = match &b.cfg().get_instr(w).kind {
        InstructionKind::Memory(willow::hir::instructions::MemoryInstr::WritePlace { value, memory_in, memory_out, .. }) => {
            assert_eq!(*value, v);
            assert_eq!(*memory_in, MemoryId(0));
            *memory_out
        },
        _ => panic!("expected a write"),
    };
    assert_eq!(b.read_memory(BasicBlockId(0)), out);
}

#[test]
fn pointer_offset_refers_to_its_operands() {
    let mut b = block_builder();
    let base = literal(&mut b, 1);
    let index = literal(&mut b, 2);
    let o = b.emit_ptr_offset(base, index, sp(0, 1));
    assert!(matches!(
        b.cfg().get_instr(o).kind,
        InstructionKind::Memory(willow::hir::instructions::MemoryInstr::PtrOffset { base_ptr, index: i }) if base_ptr == base && i == index
    ));
}

#[test]
fn variable_table_take_block_returns_that_block_only() {
    let mut defs = VarDefs::new();
    defs.insert(BasicBlockId(1), DeclarationId(5), InstrId(50));
    defs.insert(BasicBlockId(2), DeclarationId(5), InstrId(60));
    defs.insert(BasicBlockId(1), DeclarationId(3), InstrId(30));
    let taken = defs.take_block(BasicBlockId(1));
    assert_eq!(taken, vec![(DeclarationId(3), InstrId(30)), (DeclarationId(5), InstrId(50))]);
    assert_eq!(defs.get(BasicBlockId(1), DeclarationId(5)), None);
    assert_eq!(defs.get(BasicBlockId(2), DeclarationId(5)), Some(InstrId(60)));
}

#[test]
fn memory_table_insert_and_remove() {
    let mut defs = MemDefs::new();
    defs.insert(BasicBlockId(0), MemoryId(1));
    defs.insert(BasicBlockId(0), MemoryId(2));
    assert_eq!(defs.get(BasicBlockId(0)), Some(MemoryId(2)));
    assert_eq!(defs.remove(BasicBlockId(0)), Some(MemoryId(2)));
    assert_eq!(defs.remove(BasicBlockId(0)), None);
}

#[test]
fn module_builder_shares_state_and_hands_it_back() {
    let mut b = block_builder();
    b.errors.push(willow::hir::errors::SemanticError {
        kind: willow::hir::errors::SemanticErrorKind::CannotStaticAccess,
        span: sp(0, 1),
    });
    let mut m = b.as_module();
    assert_eq!(m.errors.len(), 1);
    assert!(b.errors.is_empty());
    assert!(m.program.find_cfg(FUNC).is_some());
    m.swap_shared(&mut b);
    assert_eq!(b.errors.len(), 1);
    assert!(b.program.find_cfg(FUNC).is_some());
}

#[test]
fn call_in_a_block_without_memory_version_reads_the_predecessor() {
    let mut b = block_builder();
    let f = b.emit_const_fn(DeclarationId(3), sp(0, 1));
    b.seal_block(BasicBlockId(0));
    let next = b.new_block();
    b.emit_jmp(next);
    b.use_basic_block(next);
    b.seal_block(next);
    let call = b.emit_call(f, vec![], sp(0, 5));
    let (memory_in, memory_out) = match &b.cfg().get_instr(call).kind {
        InstructionKind::Call(ci) => (ci.memory_in, ci.memory_out),
        _ => panic!("expected a call"),
    };
    assert_eq!(memory_in, MemoryId(0));
    assert_ne!(memory_out, memory_in);
    assert_eq!(b.read_memory(next), memory_out);
}

#[test]
fn recursive_read_replaces_a_definition_with_a_fresh_phi() {
    let mut b = block_builder();
    let v = literal(&mut b, 5);
    b.write_variable(BasicBlockId(0), DeclarationId(7), v);
    let before = b.cfg().instructions.len();
    let phi = b.read_variable_recursive(BasicBlockId(0), DeclarationId(7));
    assert_eq!(phi, InstrId(before));
    assert!(matches!(&b.cfg().get_instr(phi).kind, InstructionKind::Phi(p) if p.sources.is_empty()));
    assert_eq!(b.incomplete_phis.get(BasicBlockId(0), DeclarationId(7)), Some(phi));
    assert_eq!(b.read_variable(BasicBlockId(0), DeclarationId(7)), phi);
}

#[test]
fn memory_read_in_unsealed_block_waits_as_a_memory_phi() {
    let mut b = block_builder();
    let next = b.new_block();
    let fresh = b.cfg().next_memory_id;
    let mem = b.read_memory(next);
    assert_eq!(mem, MemoryId(fresh));
    assert_eq!(b.incomplete_memory_phis.get(next), Some(mem));
    assert_eq!(b.read_memory(next), mem);
}

#[test]
fn memory_read_across_a_merge_is_a_filled_memory_phi() {
    let mut b = block_builder();
    let cond = b.emit_bool(true, sp(0, 1));
    b.seal_block(BasicBlockId(0));
    let left = b.new_block();
    let right = b.new_block();
    let join = b.new_block();
    b.emit_cond_jmp(cond, left, right);
    b.use_basic_block(left);
    b.seal_block(left);
    b.emit_jmp(join);
    b.use_basic_block(right);
    b.seal_block(right);
    b.emit_jmp(join);
    b.use_basic_block(join);
    b.seal_block(join);
    let mem = b.read_memory(join);
    assert_ne!(mem, MemoryId(0));
    let phis = &b.get_bb(join).memory_phis;
    assert_eq!(phis.len(), 1);
    assert_eq!(phis[0].id, mem);
    assert_eq!(phis[0].sources.len(), 2);
    assert_eq!(phis[0].sources[0].block, left);
    assert_eq!(phis[0].sources[0].memory, MemoryId(0));
    assert_eq!(phis[0].sources[1].block, right);
    assert_eq!(phis[0].sources[1].memory, MemoryId(0));
}
