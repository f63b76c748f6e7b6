use vstd::prelude::*;

use crate::ast::decl::Declaration;
use crate::ast::{DeclarationId, ModulePath};
use crate::globals::Globals;
use crate::hir::builders::defs::{MemDefs, VarDefs};
use crate::hir::errors::SemanticError;
use crate::hir::instructions::{BasicBlockId, FunctionCFG};
use crate::hir::scope::Scope;

pub mod basic_block;
pub mod constants;
pub mod control_flow;
pub mod defs;
pub mod function;
pub mod memory;
pub mod module;
pub mod ssa;
pub mod std_lib;

verus! {

/// A declaration of the program under its id.
#[derive(Debug)]
pub struct DeclEntry {
    pub id: DeclarationId,
    pub decl: Declaration,
}

/// The control-flow graph of the function with id `id`.
#[derive(Debug)]
pub struct CfgEntry {
    pub id: DeclarationId,
    pub cfg: FunctionCFG,
}

pub struct Program {
    pub modules: Vec<Module>,
    pub declarations: Vec<DeclEntry>,
    pub cfgs: Vec<CfgEntry>,
    pub entry_path: Option<ModulePath>,
    pub target_ptr_size: usize,
    pub target_ptr_align: usize,
    pub foreign_links: Vec<String>,
}

pub struct Module {
    pub path: ModulePath,
    pub root_scope: Scope,
}

pub trait BuilderContext {}

/// Builds the intermediate representation of a program, in the context `C`
/// (the whole program, one module, one function, or one basic block).
pub struct Builder<C: BuilderContext> {
    pub context: C,
    pub program: Program,
    pub errors: Vec<SemanticError>,
    pub current_scope: Scope,
    /// The declaration counters and the string interner.
    pub globals: Globals,
    /// The value of each variable at the end of each block, as known so far.
    pub current_def: VarDefs,
    /// Phis of unsealed blocks that still wait for their operands.
    pub incomplete_phis: VarDefs,
    /// The memory version at the end of each block, as known so far.
    pub current_memory_def: MemDefs,
    /// Memory phis of unsealed blocks that still wait for their operands.
    pub incomplete_memory_phis: MemDefs,
}

pub struct InGlobal;

impl BuilderContext for InGlobal {}

pub struct InModule {
    pub path: ModulePath,
}

impl BuilderContext for InModule {}

pub struct InFunction {
    pub path: ModulePath,
    pub func_id: DeclarationId,
}

impl BuilderContext for InFunction {}

pub struct InBlock {
    pub path: ModulePath,
    pub func_id: DeclarationId,
    pub block_id: BasicBlockId,
}

impl BuilderContext for InBlock {}

/// The builder state shared between `a` and `b` has been exchanged: each holds
/// what the other held; contexts and scopes stay.
pub open spec fn shared_swapped<C: BuilderContext, D: BuilderContext>(
    a_old: Builder<C>,
    b_old: Builder<D>,
    a_new: Builder<C>,
    b_new: Builder<D>,
) -> bool {
    &&& a_new.context == a_old.context
    &&& b_new.context == b_old.context
    &&& a_new.current_scope == a_old.current_scope
    &&& b_new.current_scope == b_old.current_scope
    &&& a_new.program == b_old.program
    &&& b_new.program == a_old.program
    &&& a_new.errors == b_old.errors
    &&& b_new.errors == a_old.errors
    &&& a_new.globals == b_old.globals
    &&& b_new.globals == a_old.globals
    &&& a_new.current_def == b_old.current_def
    &&& b_new.current_def == a_old.current_def
    &&& a_new.incomplete_phis == b_old.incomplete_phis
    &&& b_new.incomplete_phis == a_old.incomplete_phis
    &&& a_new.current_memory_def == b_old.current_memory_def
    &&& b_new.current_memory_def == a_old.current_memory_def
    &&& a_new.incomplete_memory_phis == b_old.incomplete_memory_phis
    &&& b_new.incomplete_memory_phis == a_old.incomplete_memory_phis
}

impl<C: BuilderContext> Builder<C> {
    /// Exchanges the shared state (program, errors, globals and the four
    /// tables) of `self` and `other`.
    pub fn swap_shared<D: BuilderContext>(&mut self, other: &mut Builder<D>)
        ensures
            shared_swapped(*old(self), *old(other), *final(self), *final(other)),
    {
        core::mem::swap(&mut self.program, &mut other.program);
        core::mem::swap(&mut self.errors, &mut other.errors);
        core::mem::swap(&mut self.globals, &mut other.globals);
        core::mem::swap(&mut self.current_def, &mut other.current_def);
        core::mem::swap(&mut self.incomplete_phis, &mut other.incomplete_phis);
        core::mem::swap(&mut self.current_memory_def, &mut other.current_memory_def);
        core::mem::swap(&mut self.incomplete_memory_phis, &mut other.incomplete_memory_phis);
    }
}

impl Program {
    /// A program with no module, declaration or graph yet.
    pub fn new(entry_path: Option<ModulePath>, target_ptr_size: usize, target_ptr_align: usize) -> (res: Self)
        ensures
            res.modules@.len() == 0,
            res.declarations@.len() == 0,
            res.cfgs@.len() == 0,
            res.entry_path == entry_path,
            res.target_ptr_size == target_ptr_size,
            res.target_ptr_align == target_ptr_align,
            res.foreign_links@.len() == 0,
            res.decl_ids_unique(),
            res.cfg_ids_unique(),
    {
        Program {
            modules: Vec::new(),
            declarations: Vec::new(),
            cfgs: Vec::new(),
            entry_path,
            target_ptr_size,
            target_ptr_align,
            foreign_links: Vec::new(),
        }
    }

    /// No two graphs belong to the same function.
    pub open spec fn cfg_ids_unique(self) -> bool {
        forall|i: int, j: int|
            0 <= i < self.cfgs.len() && 0 <= j < self.cfgs.len() && i != j ==> (#[trigger] self.cfgs@[i]).id
                != (#[trigger] self.cfgs@[j]).id
    }

    /// The function `id` has a graph.
    pub open spec fn has_cfg(self, id: DeclarationId) -> bool {
        exists|i: int| 0 <= i < self.cfgs.len() && (#[trigger] self.cfgs@[i]).id == id
    }

    /// Where the graph of function `id` is stored.
    pub open spec fn cfg_index(self, id: DeclarationId) -> int {
        choose|i: int| 0 <= i < self.cfgs.len() && (#[trigger] self.cfgs@[i]).id == id
    }

    /// The graph of function `id`.
    pub open spec fn cfg_of(self, id: DeclarationId) -> FunctionCFG {
        self.cfgs@[self.cfg_index(id)].cfg
    }

    /// No two declarations share an id.
    pub open spec fn decl_ids_unique(self) -> bool {
        forall|i: int, j: int|
            0 <= i < self.declarations.len() && 0 <= j < self.declarations.len() && i != j ==> (
            #[trigger] self.declarations@[i]).id != (#[trigger] self.declarations@[j]).id
    }

    /// A declaration with id `id` exists.
    pub open spec fn has_decl(self, id: DeclarationId) -> bool {
        exists|i: int| 0 <= i < self.declarations.len() && (#[trigger] self.declarations@[i]).id == id
    }

    /// Where the declaration `id` is stored.
    pub open spec fn decl_index(self, id: DeclarationId) -> int {
        choose|i: int| 0 <= i < self.declarations.len() && (#[trigger] self.declarations@[i]).id == id
    }

    /// The declaration with id `id`.
    pub open spec fn decl_of(self, id: DeclarationId) -> Declaration {
        self.declarations@[self.decl_index(id)].decl
    }

    /// The position of the declaration `id`.
    pub fn find_decl(&self, id: DeclarationId) -> (res: Option<usize>)
        requires
            self.decl_ids_unique(),
        ensures
            match res {
                Some(i) => self.has_decl(id) && i == self.decl_index(id),
                None => !self.has_decl(id),
            },
    {
        let n = self.declarations.len();
        let mut i: usize = 0;
        while i < n
            invariant
                n == self.declarations.len(),
                i <= n,
                self.decl_ids_unique(),
                forall|j: int| 0 <= j < i ==> (#[trigger] self.declarations@[j]).id != id,
            decreases n - i,
        {
            if self.declarations[i].id.0 == id.0 {
                proof {
                    let c = self.decl_index(id);
                    assert(self.declarations@[i as int].id == id);
                    assert(self.declarations@[c].id == id);
                }
                return Some(i);
            }
            i = i + 1;
        }
        None
    }

    /// Records `decl` under `id`, replacing the declaration with that id if
    /// there is one.
    pub fn insert_declaration(&mut self, id: DeclarationId, decl: Declaration)
        requires
            old(self).decl_ids_unique(),
        ensures
            final(self).decl_ids_unique(),
            final(self).has_decl(id),
            final(self).decl_of(id) == decl,
            forall|other: DeclarationId| other != id ==> (#[trigger] final(self).has_decl(other) == old(self).has_decl(other))
                && (old(self).has_decl(other) ==> final(self).decl_of(other) == old(self).decl_of(other)),
            final(self).modules == old(self).modules,
            final(self).cfgs == old(self).cfgs,
            final(self).entry_path == old(self).entry_path,
            final(self).target_ptr_size == old(self).target_ptr_size,
            final(self).target_ptr_align == old(self).target_ptr_align,
            final(self).foreign_links == old(self).foreign_links,
    {
        let ghost before = self.declarations@;
        match self.find_decl(id) {
            Some(i) => {
                self.declarations.set(i, DeclEntry { id, decl });
                proof {
                    assert(self.declarations@[i as int].id == id);
                    assert forall|other: DeclarationId| other != id implies (#[trigger] self.has_decl(other)
                        == old(self).has_decl(other)) && (old(self).has_decl(other) ==> self.decl_of(other) == old(
                        self,
                    ).decl_of(other)) by {
                        if old(self).has_decl(other) {
                            let k = old(self).decl_index(other);
                            assert(self.declarations@[k].id == other);
                            let k2 = self.decl_index(other);
                            assert(self.declarations@[k2].id == other);
                            assert(k2 != i);
                            assert(before[k2].id == other);
                        }
                        if self.has_decl(other) {
                            let k2 = self.decl_index(other);
                            assert(before[k2].id == other);
                        }
                    }
                    let c = self.decl_index(id);
                    assert(self.declarations@[c].id == id);
                }
            },
            None => {
                self.declarations.push(DeclEntry { id, decl });
                proof {
                    let n = before.len() as int;
                    assert(self.declarations@[n].id == id);
                    assert forall|i: int, j: int|
                        0 <= i < self.declarations.len() && 0 <= j < self.declarations.len() && i != j implies (
                        #[trigger] self.declarations@[i]).id != (#[trigger] self.declarations@[j]).id by {
                        if i < n && j < n {
                            assert(before[i].id != before[j].id);
                        } else if i < n {
                            assert(before[i].id != id);
                        } else if j < n {
                            assert(before[j].id != id);
                        }
                    }
                    let c = self.decl_index(id);
                    assert(self.declarations@[c].id == id);
                    if c < n {
                        assert(before[c].id == id);
                    }
                    assert forall|other: DeclarationId| other != id implies (#[trigger] self.has_decl(other)
                        == old(self).has_decl(other)) && (old(self).has_decl(other) ==> self.decl_of(other) == old(
                        self,
                    ).decl_of(other)) by {
                        if old(self).has_decl(other) {
                            let k = old(self).decl_index(other);
                            assert(self.declarations@[k].id == other);
                            let k2 = self.decl_index(other);
                            assert(self.declarations@[k2].id == other);
                            assert(k2 != n);
                            assert(before[k2].id == other);
                        }
                        if self.has_decl(other) {
                            let k2 = self.decl_index(other);
                            assert(k2 != n);
                            assert(before[k2].id == other);
                        }
                    }
                }
            },
        }
    }

    /// Records `cfg` as the graph of function `id`, replacing the one it had.
    pub fn insert_cfg(&mut self, id: DeclarationId, cfg: FunctionCFG)
        requires
            old(self).cfg_ids_unique(),
        ensures
            final(self).cfg_ids_unique(),
            final(self).has_cfg(id),
            final(self).cfg_of(id) == cfg,
            final(self).cfgs.len() >= old(self).cfgs.len(),
            forall|i: int| 0 <= i < old(self).cfgs.len() && (#[trigger] old(self).cfgs@[i]).id != id ==> final(self).cfgs@[i]
                == old(self).cfgs@[i],
            forall|i: int| 0 <= i < final(self).cfgs.len() ==> (#[trigger] final(self).cfgs@[i]).id == id || (i
                < old(self).cfgs.len() && final(self).cfgs@[i] == old(self).cfgs@[i]),
            final(self).modules == old(self).modules,
            final(self).declarations == old(self).declarations,
            final(self).entry_path == old(self).entry_path,
            final(self).target_ptr_size == old(self).target_ptr_size,
            final(self).target_ptr_align == old(self).target_ptr_align,
            final(self).foreign_links == old(self).foreign_links,
    {
        let ghost before = self.cfgs@;
        match self.find_cfg(id) {
            Some(i) => {
                self.cfgs.set(i, CfgEntry { id, cfg });
                proof {
                    assert(self.cfgs@[i as int].id == id);
                    let c = self.cfg_index(id);
                    assert(self.cfgs@[c].id == id);
                    assert(c == i);
                }
            },
            None => {
                self.cfgs.push(CfgEntry { id, cfg });
                proof {
                    let n = before.len() as int;
                    assert(self.cfgs@[n].id == id);
                    assert forall|i: int, j: int|
                        0 <= i < self.cfgs.len() && 0 <= j < self.cfgs.len() && i != j implies (
                        #[trigger] self.cfgs@[i]).id != (#[trigger] self.cfgs@[j]).id by {
                        if i < n && j < n {
                            assert(before[i].id != before[j].id);
                        } else if i < n {
                            assert(before[i].id != id);
                        } else if j < n {
                            assert(before[j].id != id);
                        }
                    }
                    let c = self.cfg_index(id);
                    assert(self.cfgs@[c].id == id);
                    if c < n {
                        assert(before[c].id == id);
                    }
                }
            },
        }
    }

    /// The position of the graph of function `id`.
    pub fn find_cfg(&self, id: DeclarationId) -> (res: Option<usize>)
        requires
            self.cfg_ids_unique(),
        ensures
            match res {
                Some(i) => self.has_cfg(id) && i == self.cfg_index(id),
                None => !self.has_cfg(id),
            },
    {
        let n = self.cfgs.len();
        let mut i: usize = 0;
        while i < n
            invariant
                n == self.cfgs.len(),
                i <= n,
                self.cfg_ids_unique(),
                forall|j: int| 0 <= j < i ==> (#[trigger] self.cfgs@[j]).id != id,
            decreases n - i,
        {
            if self.cfgs[i].id.0 == id.0 {
                proof {
                    let c = self.cfg_index(id);
                    assert(self.cfgs@[i as int].id == id);
                    assert(self.cfgs@[c].id == id);
                    assert(c == i as int);
                }
                return Some(i);
            }
            i = i + 1;
        }
        None
    }
}

} // verus!
