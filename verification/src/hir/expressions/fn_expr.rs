use vstd::prelude::*;

use crate::ast::decl::{Declaration, FnDecl, Param};
use crate::ast::measure::{block_info, fn_decl_info, no_info, node, SyntaxInfo};
use crate::ast::{DeclarationId, ModulePath};
use crate::globals::Globals;
use crate::hir::builders::defs::{MemDefs, VarDefs};
use crate::hir::builders::{Builder, InBlock, InModule, Program};
use crate::hir::errors::{SemanticError, SemanticErrorKind};
use crate::hir::instructions::{
    BasicBlockId, FunctionCFG, InstrDefinition, InstrId, InstructionKind, MakeLiteralKind, MemoryId, Terminator,
};
use crate::hir::scope::{lookup_in_frame, lookup_in_frames, Binding, ScopeKind};
use crate::ast::expr::{BlockContents, ExprKind};
use crate::hir::builders::ssa::{block_shape, shape};
use crate::hir::expressions::{block_value_shape, lemma_block_value_shape_kept, lemma_values_kept_trans, values_kept};

verus! {

/// Every binding of `scope` is to a declaration of `program`.
pub open spec fn scope_bound(scope: Seq<(ScopeKind, Seq<Binding>)>, program: Program) -> bool {
    forall|i: int, j: int| 0 <= i < scope.len() && 0 <= j < scope[i].1.len() ==> program.has_decl(
        (#[trigger] scope[i].1[j]).decl,
    )
}

/// A function may have a body where `scope` is: at the top of a file,
/// possibly inside its own generic parameters.
pub open spec fn fn_scope_valid(scope: Seq<(ScopeKind, Seq<Binding>)>) -> bool {
    ||| scope.len() > 0 && scope.last().0 == ScopeKind::File
    ||| scope.len() > 1 && scope.last().0 == ScopeKind::GenericParams && scope[scope.len() - 2].0 == ScopeKind::File
}

/// The error with which building the body of `f` is refused, if it is: where
/// `scope` is no place for a function body, where `f` is a `main` outside
/// `entry` (the program's entry file, when it has one; `path` is the file
/// being built) or a `main` with parameters. `names` are the interned
/// strings.
pub open spec fn fn_body_refusal(
    scope: Seq<(ScopeKind, Seq<Binding>)>,
    names: Seq<Seq<char>>,
    path: ModulePath,
    entry: Option<ModulePath>,
    f: FnDecl,
) -> Option<SemanticError> {
    let is_main = names[f.identifier.name.0 as int] == "main"@;
    if !fn_scope_valid(scope) {
        Some(SemanticError { kind: SemanticErrorKind::ClosuresNotSupportedYet, span: f.identifier.span })
    } else if is_main && (entry matches Some(p) && p.0@ != path.0@) {
        Some(SemanticError { kind: SemanticErrorKind::MainFunctionMustBeInEntryFile, span: f.identifier.span })
    } else if is_main && f.params@.len() > 0 {
        Some(SemanticError { kind: SemanticErrorKind::MainFunctionCannotHaveParameters, span: f.identifier.span })
    } else {
        None
    }
}

/// The graph `cfg` of a function returns the value of its body `body`:
/// some block ends by returning an instruction that is that value.
pub open spec fn fn_returns_body(cfg: FunctionCFG, body: BlockContents) -> bool {
    exists|b: int, v: InstrId|
        #![trigger cfg.blocks@[b], block_value_shape(cfg, body, v)]
        0 <= b < cfg.blocks.len() && cfg.blocks@[b].terminator == Some(Terminator::Return { value: v })
            && v.0 < cfg.instructions.len() && block_value_shape(cfg, body, v)
}

/// The bindings the parameters `params[0..n]` add, in order: each name to
/// its parameter's declaration.
pub open spec fn param_bindings(params: Seq<Param>, n: int) -> Seq<Binding> {
    Seq::new(n as nat, |k: int| Binding { name: params[k].identifier.name, decl: params[k].id })
}

/// In the bindings of the first `n` parameters, the name of parameter `k`,
/// which no later one of them has, resolves to parameter `k`.
pub proof fn lemma_param_lookup(params: Seq<Param>, n: int, k: int)
    requires
        0 <= k < n <= params.len(),
        forall|j: int| k < j < n ==> (#[trigger] params[j]).identifier.name != params[k].identifier.name,
    ensures
        lookup_in_frame(param_bindings(params, n), params[k].identifier.name) == Some(params[k].id),
    decreases n,
{
    let bs = param_bindings(params, n);
    if k < n - 1 {
        assert(bs.last().name == params[n - 1].identifier.name);
        assert(bs.drop_last() =~= param_bindings(params, n - 1));
        lemma_param_lookup(params, n - 1, k);
    }
}

/// Where the body of `f` is nothing but the name of one of its parameters,
/// the last one with that name and no later one with the same declaration,
/// the function returns that parameter, from its entry block.
pub open spec fn fn_returns_param(cfg: FunctionCFG, f: FnDecl) -> bool {
    forall|k: int|
        #![trigger f.params@[k]]
        0 <= k < f.params@.len() && f.body.statements@.len() == 0 && (f.body.final_expr matches Some(e)
            && e.kind matches ExprKind::Identifier(i) && i.name == f.params@[k].identifier.name) && (forall|j: int|
            k < j < f.params@.len() ==> (#[trigger] f.params@[j]).identifier.name != f.params@[k].identifier.name
                && f.params@[j].id != f.params@[k].id) ==> cfg.blocks@[0].terminator == Some(
            Terminator::Return { value: InstrId(k as usize) },
        )
}

impl Builder<InModule> {
    /// What building the body of a function described by `info` kept of
    /// `old` in `new`: the module's context, scope and tables are as they
    /// were, declarations were only added or replaced, graphs only added or,
    /// for functions declared in the syntax, replaced, and errors only added.
    pub open spec fn module_frame_kept(old: Self, new: Self, info: SyntaxInfo) -> bool {
        &&& new.context == old.context
        &&& new.current_scope == old.current_scope
        &&& new.current_def == old.current_def
        &&& new.incomplete_phis == old.incomplete_phis
        &&& new.current_memory_def == old.current_memory_def
        &&& new.incomplete_memory_phis == old.incomplete_memory_phis
        &&& new.program.decl_ids_unique()
        &&& new.program.cfg_ids_unique()
        &&& forall|d: DeclarationId| #[trigger] old.program.has_decl(d) ==> new.program.has_decl(d)
        &&& new.globals.string_interner.wf()
        &&& new.globals.string_interner@.len() >= old.globals.string_interner@.len()
        &&& new.program.modules == old.program.modules
        &&& new.program.entry_path == old.program.entry_path
        &&& new.program.target_ptr_size == old.program.target_ptr_size
        &&& new.program.target_ptr_align == old.program.target_ptr_align
        &&& new.program.foreign_links == old.program.foreign_links
        &&& new.program.cfgs.len() >= old.program.cfgs.len()
        &&& forall|i: int|
            0 <= i < old.program.cfgs.len() && !info.fns.contains((#[trigger] old.program.cfgs@[i]).id)
                ==> new.program.cfgs@[i] == old.program.cfgs@[i]
        &&& new.errors@.len() >= old.errors@.len()
        &&& new.errors@.subrange(0, old.errors@.len() as int) == old.errors@
    }

    /// Builds the body of function `fn_decl` into a graph of its own: its
    /// parameters are bound to its first instructions, the body is built
    /// in a scope of its own, and its value is returned unless the body
    /// already ended. A function whose body is not at the top of a file is
    /// refused, and so is a `main` outside the entry file or with
    /// parameters; nothing is built then.
    pub fn build_fn_body(&mut self, fn_decl: FnDecl) -> (res: Result<(), SemanticError>)
        requires
            old(self).program.decl_ids_unique(),
            old(self).program.cfg_ids_unique(),
            old(self).globals.string_interner.wf(),
            old(self).current_scope@.len() > 0,
            scope_bound(old(self).current_scope@, old(self).program),
            fn_decl_info(fn_decl).fns_ok,
            fn_decl_info(fn_decl).ifs_complete,
            2 + 5 * block_info(fn_decl.body).size < usize::MAX,
            fn_decl_info(fn_decl).name_bound <= old(self).globals.string_interner@.len(),
        ensures
            match res {
                Ok(()) => {
                    &&& Self::module_frame_kept(*old(self), *final(self), fn_decl_info(fn_decl))
                    &&& fn_scope_valid(old(self).current_scope@)
                    &&& final(self).program.has_cfg(fn_decl.id)
                    &&& final(self).program.cfg_of(fn_decl.id).wf()
                    &&& final(self).program.cfg_of(fn_decl.id).blocks@[0].sealed
                    &&& final(self).program.cfg_of(fn_decl.id).instructions@.len() >= fn_decl.params@.len()
                    &&& forall|k: int| 0 <= k < fn_decl.params@.len() ==> (#[trigger] final(self).program.cfg_of(
                        fn_decl.id,
                    ).instructions@[k]).kind == InstructionKind::Param(k as usize)
                    &&& forall|k: int| 0 <= k < fn_decl.params@.len() ==> final(self).program.has_decl(
                        (#[trigger] fn_decl.params@[k]).id,
                    )
                    &&& fn_returns_body(final(self).program.cfg_of(fn_decl.id), fn_decl.body)
                    &&& fn_returns_param(final(self).program.cfg_of(fn_decl.id), fn_decl)
                },
                Err(e) => *final(self) == *old(self),
            },
            match fn_body_refusal(
                old(self).current_scope@,
                old(self).globals.string_interner@,
                old(self).context.path,
                old(self).program.entry_path,
                fn_decl,
            ) {
                Some(e) => res == Err::<(), SemanticError>(e),
                None => res is Ok,
            },
        decreases block_info(fn_decl.body).size + 1, 0nat,
    {
        let is_valid_scope = match self.current_scope.kind() {
            ScopeKind::File => true,
            ScopeKind::GenericParams => match self.current_scope.parent() {
                Some(p) => p.is_file_scope(),
                None => false,
            },
            _ => false,
        };
        if !is_valid_scope {
            return Err(
                SemanticError { kind: SemanticErrorKind::ClosuresNotSupportedYet, span: fn_decl.identifier.span.clone() },
            );
        }
        let raw_name = self.globals.string_interner.resolve(fn_decl.identifier.name);
        let main_name = "main".to_owned();
        if raw_name == main_name {
            let in_other_file = match &self.program.entry_path {
                Some(entry_path) => !self.context.path.same_as(entry_path),
                None => false,
            };
            if in_other_file {
                return Err(
                    SemanticError {
                        kind: SemanticErrorKind::MainFunctionMustBeInEntryFile,
                        span: fn_decl.identifier.span.clone(),
                    },
                );
            }
            if fn_decl.params.len() > 0 {
                return Err(
                    SemanticError {
                        kind: SemanticErrorKind::MainFunctionCannotHaveParameters,
                        span: fn_decl.identifier.span.clone(),
                    },
                );
            }
        }
        let ghost m0 = *self;
        let decl_id = fn_decl.id;
        let cfg = FunctionCFG::new();
        self.program.insert_cfg(decl_id, cfg);
        let ghost m1 = *self;
        let entry_block_id = BasicBlockId(0);
        let FnDecl { params, body, .. } = fn_decl;
        let body_scope = self.current_scope.enter(ScopeKind::FunctionBody, body.span.start);
        let mut fn_builder = Builder {
            context: InBlock { path: self.context.path.clone(), func_id: decl_id, block_id: entry_block_id },
            program: Program::new(None, 0, 0),
            errors: Vec::new(),
            current_scope: body_scope,
            globals: Globals::new(),
            current_def: VarDefs::new(),
            incomplete_phis: VarDefs::new(),
            current_memory_def: MemDefs::new(),
            incomplete_memory_phis: MemDefs::new(),
        };
        core::mem::swap(&mut fn_builder.program, &mut self.program);
        core::mem::swap(&mut fn_builder.errors, &mut self.errors);
        core::mem::swap(&mut fn_builder.globals, &mut self.globals);
        fn_builder.write_memory(entry_block_id, MemoryId(0));
        let ghost f0 = fn_builder;
        proof {
            let c = f0.program.cfg_of(decl_id);
            assert(f0.program.has_cfg(decl_id));
            assert(f0.cfg_found());
            assert(f0.cur() == cfg);
            assert(crate::hir::builders::ssa::forward_rank(crate::hir::builders::ssa::shape(c), |x: int| 0nat));
            assert(crate::hir::builders::ssa::pred_rank(c, |x: int| 0nat));
            assert(f0.ssa_wf());
            assert(f0.build_wf());
            assert(crate::hir::builders::ssa::mem_missing(f0.current_memory_def@, 1) == 0) by {
                reveal_with_fuel(crate::hir::builders::ssa::mem_missing, 2);
            }
            assert(f0.cost() == 2);
        }
        let mut remaining = params;
        let param_count = remaining.len();
        let ghost all_params = remaining@;
        let mut i: usize = 0;
        proof {
            assert(param_bindings(all_params, 0) =~= Seq::<Binding>::empty());
            assert(f0.current_scope@.last() == (ScopeKind::FunctionBody, Seq::<Binding>::empty()));
            assert(fn_builder.current_scope@ =~= f0.current_scope@.update(
                f0.current_scope@.len() - 1,
                (ScopeKind::FunctionBody, param_bindings(all_params, 0)),
            ));
        }
        while remaining.len() > 0
            invariant
                i + remaining@.len() == param_count,
                all_params.len() == param_count,
                remaining@ == all_params.subrange(i as int, all_params.len() as int),
                fn_builder.cur().instructions@.len() == i,
                forall|k: int| 0 <= k < i ==> (#[trigger] fn_builder.cur().instructions@[k]).kind == InstructionKind::Param(
                    k as usize,
                ),
                forall|k: int| 0 <= k < i ==> fn_builder.program.has_decl((#[trigger] all_params[k]).id),
                block_info(body).name_bound <= fn_builder.globals.string_interner@.len(),
                fn_builder.globals.string_interner@.len() >= m0.globals.string_interner@.len(),
                fn_builder.build_wf(),
                fn_builder.open_block(),
                fn_builder.context == f0.context,
                fn_builder.context.block_id == entry_block_id,
                fn_builder.cost() == 2,
                fn_builder.program.decl_ids_unique(),
                fn_builder.globals.string_interner.wf(),
                fn_builder.current_scope@.len() == f0.current_scope@.len(),
                fn_builder.current_scope@.len() > 0,
                scope_bound(fn_builder.current_scope@, fn_builder.program),
                forall|d: DeclarationId| #[trigger] m1.program.has_decl(d) ==> fn_builder.program.has_decl(d),
                fn_builder.pos() == f0.pos(),
                fn_builder.program.cfgs.len() == f0.program.cfgs.len(),
                forall|k: int| 0 <= k < f0.program.cfgs.len() && k != f0.pos() ==> #[trigger] fn_builder.program.cfgs@[k]
                    == f0.program.cfgs@[k],
                fn_builder.program.modules == m1.program.modules,
                fn_builder.program.entry_path == m1.program.entry_path,
                fn_builder.program.target_ptr_size == m1.program.target_ptr_size,
                fn_builder.program.target_ptr_align == m1.program.target_ptr_align,
                fn_builder.program.foreign_links == m1.program.foreign_links,
                fn_builder.errors == m1.errors,
                fn_builder.cur().blocks.len() == 1,
                fn_builder.current_scope@ == f0.current_scope@.update(
                    f0.current_scope@.len() - 1,
                    (ScopeKind::FunctionBody, param_bindings(all_params, i as int)),
                ),
                f0.current_scope@.last() == (ScopeKind::FunctionBody, Seq::<Binding>::empty()),
                forall|k: int|
                    #![trigger all_params[k]]
                    0 <= k < i && (forall|j: int| k < j < i ==> (#[trigger] all_params[j]).id != all_params[k].id) ==> {
                        &&& fn_builder.current_def@.contains_key((entry_block_id, all_params[k].id))
                        &&& fn_builder.current_def@[(entry_block_id, all_params[k].id)] == InstrId(k as usize)
                        &&& fn_builder.program.decl_of(all_params[k].id) is Param
                    },
            decreases remaining@.len(),
        {
            let param = remaining.remove(0);
            let ghost pv = param;
            proof {
                assert(all_params[i as int] == pv);
            }
            let param_id = param.id;
            let name = param.identifier.name;
            let span = param.identifier.span.clone();
            let ghost p0 = fn_builder;
            let instr_id = fn_builder.push_instruction(InstructionKind::Param(i), span);
            let ghost p1 = fn_builder;
            fn_builder.write_variable(entry_block_id, param_id, instr_id);
            fn_builder.program.insert_declaration(param_id, Declaration::Param(param));
            fn_builder.current_scope.map_name_to_symbol(name, param_id);
            proof {
                Builder::<InBlock>::lemma_frame(p0, p1);
                let p2 = fn_builder;
                assert(p2.program.cfgs == p1.program.cfgs);
                assert(p2.cur() == p1.cur());
                assert(p2.cfg_found());
                assert(p2.ssa_wf());
                assert(p2.build_wf());
                assert(scope_bound(p2.current_scope@, p2.program)) by {
                    assert forall|a: int, b: int| 0 <= a < p2.current_scope@.len() && 0 <= b < p2.current_scope@[a].1.len()
                        implies p2.program.has_decl((#[trigger] p2.current_scope@[a].1[b]).decl) by {
                        let last = p2.current_scope@.len() - 1;
                        if a == last && b == p1.current_scope@[a].1.len() {
                            assert(p2.current_scope@[a].1[b].decl == param_id);
                        } else {
                            assert(p2.current_scope@[a].1[b] == p1.current_scope@[a].1[b]);
                            assert(p1.program.has_decl(p1.current_scope@[a].1[b].decl));
                        }
                    }
                }
                assert forall|d: DeclarationId| #[trigger] m1.program.has_decl(d) implies p2.program.has_decl(d) by {
                    assert(p1.program.has_decl(d));
                }
                assert forall|k: int| 0 <= k < i + 1 implies p2.program.has_decl((#[trigger] all_params[k]).id) by {
                    if k < i {
                        assert(p0.program.has_decl(all_params[k].id));
                        assert(p1.program.declarations == p0.program.declarations);
                        assert(p1.program.has_decl(all_params[k].id));
                    }
                }
                assert forall|k: int| 0 <= k < i + 1 implies (#[trigger] p2.cur().instructions@[k]).kind
                    == InstructionKind::Param(k as usize) by {
                    if k < i {
                        assert(p1.cur().instructions@[k] == p0.cur().instructions@[k]);
                    }
                }
                assert(p2.current_scope@ =~= f0.current_scope@.update(
                    f0.current_scope@.len() - 1,
                    (ScopeKind::FunctionBody, param_bindings(all_params, i + 1)),
                )) by {
                    assert(param_bindings(all_params, i as int).push(Binding { name, decl: param_id }) =~= param_bindings(
                        all_params,
                        i + 1,
                    ));
                }
                assert forall|k: int|
                    #![trigger all_params[k]]
                    0 <= k < i + 1 && (forall|j: int| k < j < i + 1 ==> (#[trigger] all_params[j]).id != all_params[k].id) implies {
                        &&& p2.current_def@.contains_key((entry_block_id, all_params[k].id))
                        &&& p2.current_def@[(entry_block_id, all_params[k].id)] == InstrId(k as usize)
                        &&& p2.program.decl_of(all_params[k].id) is Param
                    } by {
                    if k < i {
                        assert(all_params[i as int].id != all_params[k].id);
                        assert(p0.program.has_decl(all_params[k].id));
                        assert(p1.program.declarations == p0.program.declarations);
                        assert(p2.program.has_decl(all_params[k].id));
                    }
                }
            }
            i = i + 1;
            proof {
                assert(remaining@ =~= all_params.subrange(i as int, all_params.len() as int));
            }
        }
        let ghost f1 = fn_builder;
        proof {
            assert(f1.scope_ok());
            assert(f1.ready(block_info(body)));
        }
        let ghost body_v = body;
        let final_value = fn_builder.build_codeblock_expr(body);
        let ghost f2 = fn_builder;
        if fn_builder.bb().terminator.is_none() {
            fn_builder.emit_return(final_value);
        }
        let ghost f3 = fn_builder;
        proof {
            Builder::<InBlock>::lemma_frame(f2, f3);
            Builder::<InBlock>::lemma_seal_ok(f3.cur(), 0);
        }
        fn_builder.seal_block(entry_block_id);
        let ghost f4 = fn_builder;
        proof {
            let (c2, c3, c4) = (f2.cur(), f3.cur(), f4.cur());
            let eb = f2.context.block_id.0 as int;
            assert(c3.blocks@[eb].terminator == Some(Terminator::Return { value: final_value }));
            assert(shape(c4)[eb] == block_shape(c4.blocks@[eb]));
            assert(c4.blocks@[eb].terminator == Some(Terminator::Return { value: final_value }));
            assert(values_kept(c2, c3)) by {
                assert forall|bb: int| 0 <= bb < c2.blocks.len() && (#[trigger] c2.blocks@[bb]).sealed implies c3.blocks@[bb].sealed by {}
            }
            assert(values_kept(c3, c4)) by {
                assert forall|bb: int| 0 <= bb < c3.blocks.len() && (#[trigger] c3.blocks@[bb]).sealed implies c4.blocks@[bb].sealed by {
                    assert(shape(c4)[bb] == block_shape(c4.blocks@[bb]));
                    assert(shape(c3)[bb] == block_shape(c3.blocks@[bb]));
                }
            }
            lemma_values_kept_trans(c2, c3, c4);
            lemma_block_value_shape_kept(c2, c4, body_v, final_value);
            assert(fn_returns_body(c4, body_v));
            assert forall|k: int|
                #![trigger all_params[k]]
                0 <= k < all_params.len() && body_v.statements@.len() == 0 && (body_v.final_expr matches Some(e)
                    && e.kind matches ExprKind::Identifier(idn) && idn.name == all_params[k].identifier.name) && (forall|j: int|
                    k < j < all_params.len() ==> (#[trigger] all_params[j]).identifier.name != all_params[k].identifier.name
                        && all_params[j].id != all_params[k].id) implies c4.blocks@[0].terminator == Some(
                Terminator::Return { value: InstrId(k as usize) },
            ) by {
                let idn = body_v.final_expr->Some_0.kind->Identifier_0;
                let n = all_params.len() as int;
                lemma_param_lookup(all_params, n, k);
                let sc = f1.current_scope@;
                assert(sc.last().1 == param_bindings(all_params, n));
                assert(lookup_in_frames(sc, idn.name) == Some(all_params[k].id));
                assert(f1.current_def@[(entry_block_id, all_params[k].id)] == InstrId(k as usize));
                assert(final_value == InstrId(k as usize));
                assert(eb == 0);
            }
        }
        core::mem::swap(&mut fn_builder.program, &mut self.program);
        core::mem::swap(&mut fn_builder.errors, &mut self.errors);
        core::mem::swap(&mut fn_builder.globals, &mut self.globals);
        proof {
            let info = fn_decl_info(fn_decl);
            Builder::<InBlock>::lemma_frame(f2, f2);
            Builder::<InBlock>::lemma_frame(f3, f4);
            assert(self.program == f4.program);
            assert(f4.cfg_found());
            assert(self.program.has_cfg(decl_id));
            assert(f4.cur().blocks@[0].sealed);
            assert forall|d: DeclarationId| #[trigger] m0.program.has_decl(d) implies self.program.has_decl(d) by {
                assert(m1.program.has_decl(d));
                assert(f1.program.has_decl(d));
                assert(f2.program.has_decl(d));
            }
            assert forall|k: int|
                0 <= k < m0.program.cfgs.len() && !info.fns.contains((#[trigger] m0.program.cfgs@[k]).id)
                    implies self.program.cfgs@[k] == m0.program.cfgs@[k] by {
                assert(m0.program.cfgs@[k].id != decl_id);
                assert(m1.program.cfgs@[k] == m0.program.cfgs@[k]);
                assert(f0.program.cfgs@[k] == m1.program.cfgs@[k]);
                assert(k != f0.pos()) by {
                    assert(f0.program.cfgs@[f0.pos()].id == decl_id);
                }
                assert(f1.program.cfgs@[k] == f0.program.cfgs@[k]);
                assert(!block_info(body).fns.contains(f1.program.cfgs@[k].id));
                assert(f2.program.cfgs@[k] == f1.program.cfgs@[k]);
                assert(f4.program.cfgs@[k] == f2.program.cfgs@[k]);
            }
            assert(self.errors@.subrange(0, m0.errors@.len() as int) == m0.errors@) by {
                assert(f1.errors == m0.errors);
                assert(f4.errors == f2.errors);
            }
            assert(Self::module_frame_kept(m0, *self, info));
        }
        Ok(())
    }
}

impl Builder<InBlock> {
    /// Builds a function written where a value is expected: the value is
    /// the function itself. A function with generic parameters is refused
    /// and stands for a value of unknown type; otherwise its body is built
    /// as that of a declared function would be, and where that is refused
    /// the refusal is recorded.
    pub fn build_fn_expr(&mut self, fn_decl: FnDecl) -> (id: InstrId)
        requires
            old(self).ready(fn_decl_info(fn_decl)),
        ensures
            Self::built(*old(self), *final(self), fn_decl_info(fn_decl), id),
            fn_decl.generic_params@.len() > 0 ==> {
                &&& final(self).cur().instructions@[id.0 as int].kind == InstructionKind::MakeLiteral(
                    MakeLiteralKind::Unknown,
                )
                &&& final(self).errors@ == old(self).errors@.push(
                    SemanticError { kind: SemanticErrorKind::GenericClosuresNotSupported, span: fn_decl.identifier.span },
                )
            },
            fn_decl.generic_params@.len() == 0 ==> {
                &&& final(self).cur().instructions@[id.0 as int].kind == InstructionKind::MakeLiteral(
                    MakeLiteralKind::Fn(fn_decl.id),
                )
                &&& match fn_body_refusal(
                    old(self).current_scope@,
                    old(self).globals.string_interner@,
                    old(self).context.path,
                    old(self).program.entry_path,
                    fn_decl,
                ) {
                    Some(e) => final(self).errors@ == old(self).errors@.push(e),
                    None => {
                        &&& final(self).program.has_cfg(fn_decl.id)
                        &&& final(self).program.cfg_of(fn_decl.id).wf()
                    },
                }
            },
        decreases fn_decl_info(fn_decl).size, 3nat,
    {
        let ghost entry = *self;
        let ghost info = fn_decl_info(fn_decl);
        let decl_id = fn_decl.id;
        let span = fn_decl.identifier.span.clone();
        if fn_decl.generic_params.len() > 0 {
            let err = SemanticError { kind: SemanticErrorKind::GenericClosuresNotSupported, span };
            proof {
                Self::lemma_progress_refl(entry, info);
                Self::lemma_ready_after(entry, entry, info, no_info(), no_info());
            }
            let id = self.report_error_and_get_poison(err);
            proof {
                Self::lemma_built_weaken(entry, *self, no_info(), info, id);
            }
            return id;
        }
        let mut module = self.as_module();
        let ghost m0 = module;
        let res = module.build_fn_body(fn_decl);
        let ghost m1 = module;
        module.swap_shared(self);
        let ghost mid0 = *self;
        let ghost refusal = fn_body_refusal(
            entry.current_scope@,
            entry.globals.string_interner@,
            entry.context.path,
            entry.program.entry_path,
            fn_decl,
        );
        match res {
            Ok(()) => {},
            Err(e) => {
                self.errors.push(e);
            },
        }
        let ghost mid = *self;
        proof {
            let p = entry.pos();
            assert(entry.program.cfgs@[p].id == entry.context.func_id);
            assert(!info.fns.contains(entry.context.func_id));
            assert(mid.program.cfgs@[p] == entry.program.cfgs@[p]);
            assert(mid.program.cfg_ids_unique());
            assert(mid.program.has_cfg(mid.context.func_id));
            assert(mid.pos() == p);
            assert(mid.cur() == entry.cur());
            assert(mid.ssa_wf());
            assert(mid.build_wf());
            assert(mid.errors@.subrange(0, entry.errors@.len() as int) =~= entry.errors@);
            assert(mid.scope_ok()) by {
                assert forall|a: int, b: int|
                    0 <= a < mid.current_scope@.len() && 0 <= b < mid.current_scope@[a].1.len()
                        implies mid.program.has_decl((#[trigger] mid.current_scope@[a].1[b]).decl) by {
                    assert(entry.program.has_decl(entry.current_scope@[a].1[b].decl));
                }
            }
            assert forall|i: int|
                0 <= i < entry.program.cfgs.len() && i != entry.pos() && !info.fns.contains(
                    (#[trigger] entry.program.cfgs@[i]).id,
                ) implies mid.program.cfgs@[i] == entry.program.cfgs@[i] by {}
            assert(mid.cost() == entry.cost());
            assert(mid.globals.string_interner@.len() >= entry.globals.string_interner@.len());
            assert(Self::progressed_except_in(entry, mid, info, -1));
            assert(Self::progressed(entry, mid, info));
            assert(mid.ready(no_info()));
        }
        let id = self.push_instruction(InstructionKind::MakeLiteral(MakeLiteralKind::Fn(decl_id)), span);
        proof {
            Self::lemma_pushed_built(mid, *self, InstrDefinition {
                kind: InstructionKind::MakeLiteral(MakeLiteralKind::Fn(decl_id)),
                block: mid.context.block_id,
                span,
            }, id);
            Self::lemma_progress_trans(entry, mid, *self, info, no_info(), info);
            Self::lemma_frame(mid, *self);
            if refusal is None {
                let j = mid.program.cfg_index(decl_id);
                assert(mid.program.cfgs@[j].id == decl_id);
                assert(j != mid.pos());
                assert(self.program.cfgs@[j] == mid.program.cfgs@[j]);
                assert(self.program.has_cfg(decl_id));
                assert(self.program.cfg_index(decl_id) == j);
            }
        }
        id
    }
}

} // verus!
