use vstd::prelude::*;

use crate::ast::copy::{law_same_type_kind, same_fn, same_type};

use crate::ast::decl::{Declaration, FnDecl};
use crate::ast::{DeclarationId, ModulePath};
use crate::globals::Globals;
use crate::hir::builders::defs::{MemDefs, VarDefs};
use crate::hir::builders::{Builder, InGlobal, InModule, Module, Program};
use crate::hir::scope::bound;

verus! {

impl Program {
    /// No two modules share a path.
    pub open spec fn module_paths_unique(self) -> bool {
        forall|i: int, j: int|
            0 <= i < self.modules.len() && 0 <= j < self.modules.len() && i != j ==> (
            #[trigger] self.modules@[i]).path.0@ != (#[trigger] self.modules@[j]).path.0@
    }

    /// A module with path `path` exists.
    pub open spec fn has_module(self, path: ModulePath) -> bool {
        exists|i: int| 0 <= i < self.modules.len() && (#[trigger] self.modules@[i]).path.0@ == path.0@
    }

    /// Where the module with path `path` is stored.
    pub open spec fn module_index(self, path: ModulePath) -> int {
        choose|i: int| 0 <= i < self.modules.len() && (#[trigger] self.modules@[i]).path.0@ == path.0@
    }

    /// The position of the module with path `path`.
    pub fn find_module(&self, path: &ModulePath) -> (res: Option<usize>)
        requires
            self.module_paths_unique(),
        ensures
            match res {
                Some(i) => self.has_module(*path) && i == self.module_index(*path),
                None => !self.has_module(*path),
            },
    {
        let n = self.modules.len();
        let mut i: usize = 0;
        while i < n
            invariant
                n == self.modules.len(),
                i <= n,
                self.module_paths_unique(),
                forall|j: int| 0 <= j < i ==> (#[trigger] self.modules@[j]).path.0@ != path.0@,
            decreases n - i,
        {
            if self.modules[i].path.same_as(path) {
                proof {
                    let c = self.module_index(*path);
                    assert(self.modules@[i as int].path.0@ == path.0@);
                    assert(self.modules@[c].path.0@ == path.0@);
                }
                return Some(i);
            }
            i = i + 1;
        }
        None
    }
}

impl Builder<InModule> {
    /// A builder for the whole program that holds this builder's shared
    /// state; `swap_shared` hands it back.
    pub fn as_program(&mut self) -> (res: Builder<InGlobal>)
        ensures
            res.context == InGlobal,
            res.current_scope@ == old(self).current_scope@,
            res.program == old(self).program,
            res.errors == old(self).errors,
            res.globals == old(self).globals,
            res.current_def == old(self).current_def,
            res.incomplete_phis == old(self).incomplete_phis,
            res.current_memory_def == old(self).current_memory_def,
            res.incomplete_memory_phis == old(self).incomplete_memory_phis,
            final(self).context == old(self).context,
            final(self).current_scope == old(self).current_scope,
            final(self).program.modules@.len() == 0,
            final(self).program.declarations@.len() == 0,
            final(self).program.cfgs@.len() == 0,
            final(self).errors@.len() == 0,
            final(self).globals.string_interner@.len() == 0,
            final(self).current_def@.len() == 0,
            final(self).incomplete_phis@.len() == 0,
            final(self).current_memory_def@.len() == 0,
            final(self).incomplete_memory_phis@.len() == 0,
    {
        let mut res = Builder {
            context: InGlobal,
            program: Program::new(None, 0, 0),
            errors: Vec::new(),
            current_scope: self.current_scope.copy(),
            globals: Globals::new(),
            current_def: VarDefs::new(),
            incomplete_phis: VarDefs::new(),
            current_memory_def: MemDefs::new(),
            incomplete_memory_phis: MemDefs::new(),
        };
        res.swap_shared(self);
        res
    }

    /// The module being built.
    pub fn module(&mut self) -> (m: &mut Module)
        requires
            old(self).program.module_paths_unique(),
            old(self).program.has_module(old(self).context.path),
        ensures
            *m == old(self).program.modules@[old(self).program.module_index(old(self).context.path)],
            final(self).program.modules@ == old(self).program.modules@.update(
                old(self).program.module_index(old(self).context.path),
                *final(m),
            ),
            final(self).program.declarations == old(self).program.declarations,
            final(self).program.cfgs == old(self).program.cfgs,
            final(self).program.entry_path == old(self).program.entry_path,
            final(self).context == old(self).context,
            final(self).errors == old(self).errors,
            final(self).globals == old(self).globals,
            final(self).current_scope == old(self).current_scope,
    {
        let i = match self.program.find_module(&self.context.path) {
            Some(i) => i,
            None => vstd::pervasive::unreached(),
        };
        &mut self.program.modules[i]
    }
}

impl Builder<InModule> {
    /// Declares the function `f` by its signature and binds its name in the
    /// current scope, so that it can be referred to before its body is
    /// built.
    pub fn register_fn_signature(&mut self, f: &FnDecl)
        requires
            old(self).program.decl_ids_unique(),
            old(self).current_scope@.len() > 0,
        ensures
            final(self).program.decl_ids_unique(),
            final(self).program.decl_of(f.id) matches Declaration::Fn(g) && g.id == f.id && g.identifier
                == f.identifier && g.is_exported == f.is_exported && g.documentation == f.documentation
                && g.params@.len() == f.params@.len() && (forall|k: int| 0 <= k < f.params@.len() ==> (
            #[trigger] g.params@[k]).id == f.params@[k].id && g.params@[k].identifier == f.params@[k].identifier)
                && g.body.span == f.body.span && g.return_type.span == f.return_type.span && same_fn(*f, g)
                && (forall|k: int| 0 <= k < f.params@.len() ==> #[trigger] same_type(f.params@[k].constraint, g.params@[k].constraint))
                && g.generic_params@.len() == f.generic_params@.len()
                && same_type(f.return_type, g.return_type)
                && (f.return_type.kind is Void <==> g.return_type.kind is Void)
                && (f.return_type.kind is Identifier ==> g.return_type.kind == f.return_type.kind),
            final(self).program.has_decl(f.id),
            forall|other: DeclarationId| other != f.id ==> (#[trigger] final(self).program.has_decl(other)
                == old(self).program.has_decl(other)) && (old(self).program.has_decl(other)
                ==> final(self).program.decl_of(other) == old(self).program.decl_of(other)),
            final(self).current_scope@ == bound(old(self).current_scope@, f.identifier.name, f.id),
            final(self).program.modules == old(self).program.modules,
            final(self).program.cfgs == old(self).program.cfgs,
            final(self).program.entry_path == old(self).program.entry_path,
            final(self).context == old(self).context,
            final(self).errors == old(self).errors,
            final(self).globals == old(self).globals,
    {
        let decl_id = f.id;
        let decl_name = f.identifier.name;
        self.program.insert_declaration(decl_id, Declaration::Fn(f.duplicate()));
        proof {
            let g = self.program.decl_of(decl_id)->Fn_0;
            law_same_type_kind(f.return_type, g.return_type);
        }
        self.current_scope.map_name_to_symbol(decl_name, decl_id);
    }
}

} // verus!
