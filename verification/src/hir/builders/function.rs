use vstd::prelude::*;

use crate::ast::decl::{Declaration, FnDecl};
use crate::ast::DeclarationId;
use crate::globals::Globals;
use crate::hir::builders::defs::{MemDefs, VarDefs};
use crate::hir::builders::{Builder, DeclEntry, InBlock, InFunction, InModule, Program};
use crate::hir::instructions::{BasicBlockId, FunctionCFG};

verus! {

impl Program {
    /// Declaration `id` is a function with a body.
    pub open spec fn is_fn_decl(self, id: DeclarationId) -> bool {
        &&& self.decl_ids_unique()
        &&& self.has_decl(id)
        &&& self.decl_of(id) is Fn
    }

    /// The function declared as `id`.
    pub fn fn_decl(&self, id: DeclarationId) -> (f: &FnDecl)
        requires
            self.is_fn_decl(id),
        ensures
            self.decl_of(id) == Declaration::Fn(*f),
    {
        let i = match self.find_decl(id) {
            Some(i) => i,
            None => vstd::pervasive::unreached(),
        };
        match &self.declarations[i].decl {
            Declaration::Fn(f) => f,
            _ => vstd::pervasive::unreached(),
        }
    }

    /// The function declared as `id`, for changing it.
    pub fn fn_decl_mut(&mut self, id: DeclarationId) -> (f: &mut FnDecl)
        requires
            old(self).is_fn_decl(id),
        ensures
            old(self).decl_of(id) == Declaration::Fn(*f),
            final(self).declarations@ == old(self).declarations@.update(
                old(self).decl_index(id),
                DeclEntry { id, decl: Declaration::Fn(*final(f)) },
            ),
            final(self).modules == old(self).modules,
            final(self).cfgs == old(self).cfgs,
            final(self).entry_path == old(self).entry_path,
            final(self).target_ptr_size == old(self).target_ptr_size,
            final(self).target_ptr_align == old(self).target_ptr_align,
            final(self).foreign_links == old(self).foreign_links,
    {
        let i = match self.find_decl(id) {
            Some(i) => i,
            None => vstd::pervasive::unreached(),
        };
        let entry = &mut self.declarations[i];
        match &mut entry.decl {
            Declaration::Fn(f) => f,
            _ => vstd::pervasive::unreached(),
        }
    }
}

impl Builder<InFunction> {
    /// The declaration of the function being built.
    pub fn get_fn(&self) -> (f: &FnDecl)
        requires
            self.program.is_fn_decl(self.context.func_id),
        ensures
            self.program.decl_of(self.context.func_id) == Declaration::Fn(*f),
    {
        self.program.fn_decl(self.context.func_id)
    }

    /// The declaration of the function being built, for changing it.
    pub fn get_fn_mut(&mut self) -> (f: &mut FnDecl)
        requires
            old(self).program.is_fn_decl(old(self).context.func_id),
        ensures
            old(self).program.decl_of(old(self).context.func_id) == Declaration::Fn(*f),
            final(self).program.declarations@ == old(self).program.declarations@.update(
                old(self).program.decl_index(old(self).context.func_id),
                DeclEntry { id: old(self).context.func_id, decl: Declaration::Fn(*final(f)) },
            ),
            final(self).program.cfgs == old(self).program.cfgs,
            final(self).program.modules == old(self).program.modules,
            final(self).context == old(self).context,
            final(self).errors == old(self).errors,
            final(self).globals == old(self).globals,
            final(self).current_scope == old(self).current_scope,
            final(self).current_def == old(self).current_def,
            final(self).incomplete_phis == old(self).incomplete_phis,
            final(self).current_memory_def == old(self).current_memory_def,
            final(self).incomplete_memory_phis == old(self).incomplete_memory_phis,
            final(self).program.entry_path == old(self).program.entry_path,
            final(self).program.target_ptr_size == old(self).program.target_ptr_size,
            final(self).program.target_ptr_align == old(self).program.target_ptr_align,
            final(self).program.foreign_links == old(self).program.foreign_links,
    {
        let id = self.context.func_id;
        self.program.fn_decl_mut(id)
    }

    /// Adds a fresh block to the graph of the function being built.
    pub fn new_bb(&mut self) -> (id: BasicBlockId)
        requires
            old(self).program.cfg_ids_unique(),
            old(self).program.has_cfg(old(self).context.func_id),
            old(self).program.cfg_of(old(self).context.func_id).graph_wf(),
            old(self).program.cfg_of(old(self).context.func_id).next_block_id < usize::MAX,
        ensures
            ({
                let oc = old(self).program.cfg_of(old(self).context.func_id);
                let i = old(self).program.cfg_index(old(self).context.func_id);
                let nc = final(self).program.cfgs@[i].cfg;
                &&& final(self).program.cfgs@ == old(self).program.cfgs@.update(i, crate::hir::builders::CfgEntry { id: old(self).context.func_id, cfg: nc })
                &&& nc.graph_wf()
                &&& id.0 == oc.next_block_id
                &&& nc.next_block_id == oc.next_block_id + 1
                &&& nc.blocks.len() == oc.blocks.len() + 1
                &&& forall|b: int| 0 <= b < oc.blocks.len() ==> #[trigger] nc.blocks@[b] == oc.blocks@[b]
                &&& nc.blocks@[id.0 as int].id == id
                &&& nc.block_is_fresh(id.0 as int)
                &&& nc.instructions == oc.instructions
                &&& nc.entry_block == oc.entry_block
                &&& nc.next_memory_id == oc.next_memory_id
                &&& (oc.wf() ==> nc.wf())
            }),
            final(self).program.declarations == old(self).program.declarations,
            final(self).program.modules == old(self).program.modules,
            final(self).context == old(self).context,
            final(self).errors == old(self).errors,
            final(self).globals == old(self).globals,
            final(self).current_scope == old(self).current_scope,
            final(self).current_def == old(self).current_def,
            final(self).incomplete_phis == old(self).incomplete_phis,
            final(self).current_memory_def == old(self).current_memory_def,
            final(self).incomplete_memory_phis == old(self).incomplete_memory_phis,
    {
        let i = match self.program.find_cfg(self.context.func_id) {
            Some(i) => i,
            None => vstd::pervasive::unreached(),
        };
        let entry = &mut self.program.cfgs[i];
        let cfg: &mut FunctionCFG = &mut entry.cfg;
        cfg.new_block()
    }
}

impl Builder<InBlock> {
    /// A builder for the module of the current function that holds this
    /// builder's shared state; `swap_shared` hands it back.
    pub fn as_module(&mut self) -> (res: Builder<InModule>)
        ensures
            res.context.path == old(self).context.path,
            res.current_scope@ == old(self).current_scope@,
            res.program == old(self).program,
            res.errors == old(self).errors,
            res.globals == old(self).globals,
            res.current_def == old(self).current_def,
            res.incomplete_phis == old(self).incomplete_phis,
            res.current_memory_def == old(self).current_memory_def,
            res.incomplete_memory_phis == old(self).incomplete_memory_phis,
            final(self).context == old(self).context,
            final(self).current_scope == old(self).current_scope,
            final(self).program.modules@.len() == 0,
            final(self).program.declarations@.len() == 0,
            final(self).program.cfgs@.len() == 0,
            final(self).errors@.len() == 0,
            final(self).globals.string_interner@.len() == 0,
            final(self).current_def@.len() == 0,
            final(self).incomplete_phis@.len() == 0,
            final(self).current_memory_def@.len() == 0,
            final(self).incomplete_memory_phis@.len() == 0,
    {
        let mut res = Builder {
            context: InModule { path: self.context.path.clone() },
            program: Program::new(None, 0, 0),
            errors: Vec::new(),
            current_scope: self.current_scope.copy(),
            globals: Globals::new(),
            current_def: VarDefs::new(),
            incomplete_phis: VarDefs::new(),
            current_memory_def: MemDefs::new(),
            incomplete_memory_phis: MemDefs::new(),
        };
        res.swap_shared(self);
        res
    }

    /// A builder for the current function that holds this builder's shared
    /// state; `swap_shared` hands it back.
    pub fn as_fn(&mut self) -> (res: Builder<InFunction>)
        ensures
            res.context.path == old(self).context.path,
            res.context.func_id == old(self).context.func_id,
            res.current_scope@ == old(self).current_scope@,
            res.program == old(self).program,
            res.errors == old(self).errors,
            res.globals == old(self).globals,
            res.current_def == old(self).current_def,
            res.incomplete_phis == old(self).incomplete_phis,
            res.current_memory_def == old(self).current_memory_def,
            res.incomplete_memory_phis == old(self).incomplete_memory_phis,
            final(self).context == old(self).context,
            final(self).current_scope == old(self).current_scope,
            final(self).program.modules@.len() == 0,
            final(self).program.declarations@.len() == 0,
            final(self).program.cfgs@.len() == 0,
            final(self).errors@.len() == 0,
            final(self).globals.string_interner@.len() == 0,
            final(self).current_def@.len() == 0,
            final(self).incomplete_phis@.len() == 0,
            final(self).current_memory_def@.len() == 0,
            final(self).incomplete_memory_phis@.len() == 0,
    {
        let mut res = Builder {
            context: InFunction { path: self.context.path.clone(), func_id: self.context.func_id },
            program: Program::new(None, 0, 0),
            errors: Vec::new(),
            current_scope: self.current_scope.copy(),
            globals: Globals::new(),
            current_def: VarDefs::new(),
            incomplete_phis: VarDefs::new(),
            current_memory_def: MemDefs::new(),
            incomplete_memory_phis: MemDefs::new(),
        };
        res.swap_shared(self);
        res
    }

    /// The declaration of the function being built.
    pub fn get_fn(&self) -> (f: &FnDecl)
        requires
            self.program.is_fn_decl(self.context.func_id),
        ensures
            self.program.decl_of(self.context.func_id) == Declaration::Fn(*f),
    {
        self.program.fn_decl(self.context.func_id)
    }

    /// The declaration of the function being built, for changing it.
    pub fn get_fn_mut(&mut self) -> (f: &mut FnDecl)
        requires
            old(self).program.is_fn_decl(old(self).context.func_id),
        ensures
            old(self).program.decl_of(old(self).context.func_id) == Declaration::Fn(*f),
            final(self).program.declarations@ == old(self).program.declarations@.update(
                old(self).program.decl_index(old(self).context.func_id),
                DeclEntry { id: old(self).context.func_id, decl: Declaration::Fn(*final(f)) },
            ),
            final(self).program.cfgs == old(self).program.cfgs,
            final(self).program.modules == old(self).program.modules,
            final(self).context == old(self).context,
            final(self).errors == old(self).errors,
            final(self).globals == old(self).globals,
            final(self).current_scope == old(self).current_scope,
            final(self).current_def == old(self).current_def,
            final(self).incomplete_phis == old(self).incomplete_phis,
            final(self).current_memory_def == old(self).current_memory_def,
            final(self).incomplete_memory_phis == old(self).incomplete_memory_phis,
            final(self).program.entry_path == old(self).program.entry_path,
            final(self).program.target_ptr_size == old(self).program.target_ptr_size,
            final(self).program.target_ptr_align == old(self).program.target_ptr_align,
            final(self).program.foreign_links == old(self).program.foreign_links,
    {
        let id = self.context.func_id;
        self.program.fn_decl_mut(id)
    }
}

} // verus!
