use vstd::prelude::*;

use crate::ast::decl::{Declaration, ExternFnDecl, ImportItem, Param};
use crate::ast::type_annotation::{TypeAnnotation, TypeAnnotationKind};
use crate::ast::{IdentifierNode, Span};
use crate::compile::interner::{law_intern_stable, table_extends, StringId};
use crate::globals::{counter_after, lemma_counter_after_add, law_ids_distinct, next_declaration_id, Globals};
use crate::hir::builders::{Builder, InModule};
use crate::hir::errors::{SemanticError, SemanticErrorKind};

verus! {

/// The names and types of the parameters, and the result type, of the
/// function `symbol` of the standard module `module`, written at `span`;
/// `None` where the standard library has no such function.
pub open spec fn std_signature(module: Seq<char>, symbol: Seq<char>, span: Span) -> Option<
    (Seq<(Seq<char>, TypeAnnotation)>, TypeAnnotation),
> {
    let void_ty = TypeAnnotation { kind: TypeAnnotationKind::Void, span };
    let string_ty = TypeAnnotation { kind: TypeAnnotationKind::String, span };
    let usize_ty = TypeAnnotation { kind: TypeAnnotationKind::USize, span };
    let strings_ty = TypeAnnotation { kind: TypeAnnotationKind::List(Box::new(string_ty)), span };
    if module == "std/io"@ && symbol == "print"@ {
        Some((seq![("s"@, string_ty)], void_ty))
    } else if module == "std/string"@ && symbol == "concat"@ {
        Some((seq![("parts"@, strings_ty), ("count"@, usize_ty)], string_ty))
    } else if module == "std/fs"@ && symbol == "read_file"@ {
        Some((seq![("path"@, string_ty)], string_ty))
    } else {
        None
    }
}

/// `f` declares `symbol` with parameters `params` and result `ret`, all
/// named at `span`; `names` are the interned strings.
pub open spec fn declares_builtin(
    f: ExternFnDecl,
    names: Seq<Seq<char>>,
    symbol: Seq<char>,
    params: Seq<(Seq<char>, TypeAnnotation)>,
    ret: TypeAnnotation,
    span: Span,
) -> bool {
    &&& f.documentation is None
    &&& f.identifier.span == span
    &&& f.identifier.name.0 < names.len()
    &&& names[f.identifier.name.0 as int] == symbol
    &&& f.return_type == ret
    &&& f.params@.len() == params.len()
    &&& forall|k: int|
        0 <= k < params.len() ==> {
            &&& (#[trigger] f.params@[k]).constraint == params[k].1
            &&& f.params@[k].identifier.span == span
            &&& f.params@[k].identifier.name.0 < names.len()
            &&& names[f.params@[k].identifier.name.0 as int] == params[k].0
        }
}

/// `f` declares the function `symbol` of the standard module `module` as
/// the standard library has it, named at `span`.
pub open spec fn is_std_fn(f: ExternFnDecl, names: Seq<Seq<char>>, module: Seq<char>, symbol: Seq<char>, span: Span) -> bool {
    match std_signature(module, symbol, span) {
        Some((params, ret)) => declares_builtin(f, names, symbol, params, ret, span),
        None => false,
    }
}

/// The functions of the standard library, as an import declares them:
/// `print` from `std/io` takes a string `s` and returns nothing; `concat` from
/// `std/string` takes a list of strings `parts` and a `usize` `count` and
/// returns a string; `read_file` from `std/fs` takes a string `path` and
/// returns the file's text as a string. Nothing else is one of them. Each is
/// declared under its own name, without documentation.
pub proof fn law_std_functions(f: ExternFnDecl, names: Seq<Seq<char>>, module: Seq<char>, symbol: Seq<char>, span: Span)
    requires
        is_std_fn(f, names, module, symbol, span),
    ensures
        (module == "std/io"@ && symbol == "print"@) || (module == "std/string"@ && symbol == "concat"@) || (module
            == "std/fs"@ && symbol == "read_file"@),
        f.identifier.name.0 < names.len() && names[f.identifier.name.0 as int] == symbol,
        f.documentation is None,
        module == "std/io"@ && symbol == "print"@ ==> {
            &&& f.params@.len() == 1
            &&& f.params@[0].constraint.kind == TypeAnnotationKind::String
            &&& names[f.params@[0].identifier.name.0 as int] == "s"@
            &&& f.return_type.kind == TypeAnnotationKind::Void
        },
        module == "std/string"@ && symbol == "concat"@ ==> {
            &&& f.params@.len() == 2
            &&& f.params@[0].constraint.kind matches TypeAnnotationKind::List(inner) && inner.kind == TypeAnnotationKind::String
            &&& names[f.params@[0].identifier.name.0 as int] == "parts"@
            &&& f.params@[1].constraint.kind == TypeAnnotationKind::USize
            &&& names[f.params@[1].identifier.name.0 as int] == "count"@
            &&& f.return_type.kind == TypeAnnotationKind::String
        },
        module == "std/fs"@ && symbol == "read_file"@ ==> {
            &&& f.params@.len() == 1
            &&& f.params@[0].constraint.kind == TypeAnnotationKind::String
            &&& names[f.params@[0].identifier.name.0 as int] == "path"@
            &&& f.return_type.kind == TypeAnnotationKind::String
        },
{
    reveal_strlit("std/io");
    reveal_strlit("std/string");
    reveal_strlit("std/fs");
    reveal_strlit("print");
    reveal_strlit("concat");
    reveal_strlit("read_file");
    assert("std/string"@ != "std/io"@) by {
        assert("std/string"@.len() != "std/io"@.len());
    }
    assert("std/fs"@ != "std/io"@) by {
        assert("std/fs"@[4] != "std/io"@[4]);
    }
    assert("std/fs"@ != "std/string"@) by {
        assert("std/fs"@.len() != "std/string"@.len());
    }
    let (ps, r) = std_signature(module, symbol, span)->Some_0;
    if f.params@.len() > 0 {
        assert(f.params@[0].constraint == ps[0].1);
    }
    if f.params@.len() > 1 {
        assert(f.params@[1].constraint == ps[1].1);
    }
}

/// After an import from the standard module `module`, each name it bound is
/// to an external function that is the standard library's, as
/// `law_std_functions` describes: importing `read_file` from `std/fs`, in
/// particular, declares a function from a string path to a string.
pub proof fn law_std_import_declares(
    scope: Seq<(crate::hir::scope::ScopeKind, Seq<crate::hir::scope::Binding>)>,
    base: int,
    program: crate::hir::builders::Program,
    names: Seq<Seq<char>>,
    module: Seq<char>,
    bindings: Seq<(StringId, Seq<char>, Span)>,
    j: int,
)
    requires
        binds_std_functions(scope, base, program, names, module, bindings),
        0 <= j < bindings.len(),
    ensures
        program.decl_of(scope.last().1[base + j].decl) matches Declaration::ExternFn(f) && {
            &&& module == "std/fs"@ && bindings[j].1 == "read_file"@ ==> f.params@.len() == 1
                && f.params@[0].constraint.kind == TypeAnnotationKind::String && f.return_type.kind
                == TypeAnnotationKind::String
            &&& module == "std/io"@ && bindings[j].1 == "print"@ ==> f.params@.len() == 1
                && f.params@[0].constraint.kind == TypeAnnotationKind::String && f.return_type.kind
                == TypeAnnotationKind::Void
            &&& module == "std/string"@ && bindings[j].1 == "concat"@ ==> f.params@.len() == 2
                && f.params@[1].constraint.kind == TypeAnnotationKind::USize && f.return_type.kind
                == TypeAnnotationKind::String
        },
{
    let b = scope.last().1[base + j];
    let f = program.decl_of(b.decl)->ExternFn_0;
    law_std_functions(f, names, module, bindings[j].1, bindings[j].2);
}

/// A declaration stays what it declares when more strings are interned.
proof fn lemma_declares_builtin_grows(
    f: ExternFnDecl,
    names: Seq<Seq<char>>,
    more: Seq<Seq<char>>,
    symbol: Seq<char>,
    params: Seq<(Seq<char>, TypeAnnotation)>,
    ret: TypeAnnotation,
    span: Span,
)
    requires
        declares_builtin(f, names, symbol, params, ret, span),
        table_extends(more, names),
    ensures
        declares_builtin(f, more, symbol, params, ret, span),
{
    assert forall|k: int| 0 <= k < params.len() implies {
        &&& (#[trigger] f.params@[k]).constraint == params[k].1
        &&& f.params@[k].identifier.span == span
        &&& f.params@[k].identifier.name.0 < more.len()
        &&& more[f.params@[k].identifier.name.0 as int] == params[k].0
    } by {
        assert(more[f.params@[k].identifier.name.0 as int] == names[f.params@[k].identifier.name.0 as int]);
    }
    assert(more[f.identifier.name.0 as int] == names[f.identifier.name.0 as int]);
}

/// The error that importing `item` from `module` records, if any: a name
/// the standard library does not have, or a function declared as external,
/// is reported as undeclared.
pub open spec fn import_error(module: Seq<char>, names: Seq<Seq<char>>, item: ImportItem) -> Option<SemanticError> {
    match item {
        ImportItem::Symbol { identifier, alias } => {
            if std_signature(module, names[identifier.name.0 as int], identifier.span) is Some {
                None
            } else {
                Some(
                    SemanticError { kind: SemanticErrorKind::UndeclaredIdentifier(identifier), span: identifier.span },
                )
            }
        },
        ImportItem::ExternFn(f) => Some(
            SemanticError { kind: SemanticErrorKind::UndeclaredIdentifier(f.identifier), span: f.identifier.span },
        ),
    }
}

/// The errors that importing `items` from `module` records, in order.
pub open spec fn import_errors(module: Seq<char>, names: Seq<Seq<char>>, items: Seq<ImportItem>) -> Seq<SemanticError>
    decreases items.len(),
{
    if items.len() == 0 {
        seq![]
    } else {
        let rest = import_errors(module, names, items.drop_last());
        match import_error(module, names, items.last()) {
            Some(e) => rest.push(e),
            None => rest,
        }
    }
}

/// The binding that importing `item` from `module` adds, if any: the name
/// bound (the alias, where there is one), the standard function it stands
/// for, and where that was named.
pub open spec fn import_binding(module: Seq<char>, names: Seq<Seq<char>>, item: ImportItem) -> Option<
    (StringId, Seq<char>, Span),
> {
    match item {
        ImportItem::Symbol { identifier, alias } => {
            let symbol = names[identifier.name.0 as int];
            if std_signature(module, symbol, identifier.span) is Some {
                Some(
                    (
                        match alias {
                            Some(a) => a.name,
                            None => identifier.name,
                        },
                        symbol,
                        identifier.span,
                    ),
                )
            } else {
                None
            }
        },
        ImportItem::ExternFn(f) => None,
    }
}

/// The bindings that importing `items` from `module` adds, in order.
pub open spec fn import_bindings(module: Seq<char>, names: Seq<Seq<char>>, items: Seq<ImportItem>) -> Seq<
    (StringId, Seq<char>, Span),
>
    decreases items.len(),
{
    if items.len() == 0 {
        seq![]
    } else {
        let rest = import_bindings(module, names, items.drop_last());
        match import_binding(module, names, items.last()) {
            Some(b) => rest.push(b),
            None => rest,
        }
    }
}

/// Declares the built-in function `name` with parameters `params` and
/// result `return_type`, all named at `span`; the function and then each
/// parameter take the next declaration id.
fn make_builtin_fn(
    globals: &mut Globals,
    name: &str,
    span: Span,
    params: Vec<(&str, TypeAnnotation)>,
    return_type: TypeAnnotation,
) -> (res: ExternFnDecl)
    requires
        old(globals).string_interner.wf(),
    ensures
        final(globals).string_interner.wf(),
        table_extends(final(globals).string_interner@, old(globals).string_interner@),
        final(globals).generic_declaration_counter == old(globals).generic_declaration_counter,
        final(globals).declaration_counter == counter_after(old(globals).declaration_counter, params@.len() + 1),
        res.id.0 == old(globals).declaration_counter,
        forall|k: int| 0 <= k < params@.len() ==> (#[trigger] res.params@[k]).id.0 == counter_after(
            old(globals).declaration_counter,
            (k + 1) as nat,
        ),
        declares_builtin(
            res,
            final(globals).string_interner@,
            name@,
            params@.map_values(|p: (&str, TypeAnnotation)| (p.0@, p.1)),
            return_type,
            span,
        ),
{
    let ghost c0 = globals.declaration_counter;
    let ghost t0 = globals.string_interner@;
    let ghost wanted = params@.map_values(|p: (&str, TypeAnnotation)| (p.0@, p.1));
    let id = next_declaration_id(globals);
    let ghost t_before = globals.string_interner@;
    let name_id = globals.string_interner.intern(name);
    proof {
        law_intern_stable(t_before, name@);
    }
    let identifier = IdentifierNode { name: name_id, span: span.clone() };
    let mut function_params: Vec<Param> = Vec::new();
    let mut remaining = params;
    let ghost all = remaining@;
    proof {
        reveal_with_fuel(counter_after, 2);
    }
    while remaining.len() > 0
        invariant
            function_params@.len() + remaining@.len() == all.len(),
            remaining@ == all.subrange(function_params@.len() as int, all.len() as int),
            wanted == all.map_values(|p: (&str, TypeAnnotation)| (p.0@, p.1)),
            globals.string_interner.wf(),
            table_extends(globals.string_interner@, t0),
            name_id.0 < globals.string_interner@.len(),
            globals.string_interner@[name_id.0 as int] == name@,
            globals.generic_declaration_counter == old(globals).generic_declaration_counter,
            globals.declaration_counter == counter_after(c0, function_params@.len() + 1),
            forall|k: int| 0 <= k < function_params@.len() ==> {
                &&& (#[trigger] function_params@[k]).id.0 == counter_after(c0, (k + 1) as nat)
                &&& function_params@[k].constraint == wanted[k].1
                &&& function_params@[k].identifier.span == span
                &&& function_params@[k].identifier.name.0 < globals.string_interner@.len()
                &&& globals.string_interner@[function_params@[k].identifier.name.0 as int] == wanted[k].0
            },
        decreases remaining@.len(),
    {
        let ghost done = function_params@.len();
        let ghost t1 = globals.string_interner@;
        let (p_name, p_ty) = remaining.remove(0);
        assert(all[done as int] == (p_name, p_ty));
        let pid = next_declaration_id(globals);
        let pn = globals.string_interner.intern(p_name);
        proof {
            law_intern_stable(t1, p_name@);
        }
        function_params.push(Param { id: pid, identifier: IdentifierNode { name: pn, span: span.clone() }, constraint: p_ty });
        proof {
            let t2 = globals.string_interner@;
            assert forall|k: int| 0 <= k < function_params@.len() implies {
                &&& (#[trigger] function_params@[k]).id.0 == counter_after(c0, (k + 1) as nat)
                &&& function_params@[k].constraint == wanted[k].1
                &&& function_params@[k].identifier.span == span
                &&& function_params@[k].identifier.name.0 < t2.len()
                &&& t2[function_params@[k].identifier.name.0 as int] == wanted[k].0
            } by {
                if k < done {
                    assert(t2[function_params@[k].identifier.name.0 as int] == t1[function_params@[k].identifier.name.0 as int]);
                }
            }
            assert(remaining@ =~= all.subrange(function_params@.len() as int, all.len() as int));
        }
    }
    proof {
        assert(function_params@.len() == all.len());
    }
    ExternFnDecl { id, documentation: None, identifier, params: function_params, return_type }
}

/// The declaration of the function `symbol` of the standard module
/// `module`, named at `span`, when the standard library has one.
fn get_std_function(globals: &mut Globals, module: &str, symbol: &str, span: Span) -> (res: Option<ExternFnDecl>)
    requires
        old(globals).string_interner.wf(),
    ensures
        final(globals).string_interner.wf(),
        table_extends(final(globals).string_interner@, old(globals).string_interner@),
        final(globals).generic_declaration_counter == old(globals).generic_declaration_counter,
        res is Some <==> std_signature(module@, symbol@, span) is Some,
        match res {
            Some(f) => {
                &&& f.id.0 == old(globals).declaration_counter
                &&& final(globals).declaration_counter == counter_after(
                    old(globals).declaration_counter,
                    f.params@.len() + 1,
                )
                &&& f.params@.len() <= 2
                &&& is_std_fn(f, final(globals).string_interner@, module@, symbol@, span)
            },
            None => *final(globals) == *old(globals),
        },
{
    let module_name = module.to_owned();
    let symbol_name = symbol.to_owned();
    let void_ty = TypeAnnotation { kind: TypeAnnotationKind::Void, span: span.clone() };
    let string_ty = TypeAnnotation { kind: TypeAnnotationKind::String, span: span.clone() };
    let usize_ty = TypeAnnotation { kind: TypeAnnotationKind::USize, span: span.clone() };
    if module_name == "std/io".to_owned() && symbol_name == "print".to_owned() {
        let params = vec![("s", string_ty)];
        let f = make_builtin_fn(globals, symbol, span, params, void_ty);
        Some(f)
    } else if module_name == "std/string".to_owned() && symbol_name == "concat".to_owned() {
        let list_of_strings = TypeAnnotation {
            kind: TypeAnnotationKind::List(Box::new(TypeAnnotation { kind: TypeAnnotationKind::String, span: span.clone() })),
            span: span.clone(),
        };
        let params = vec![("parts", list_of_strings), ("count", usize_ty)];
        let f = make_builtin_fn(globals, symbol, span, params, string_ty);
        Some(f)
    } else if module_name == "std/fs".to_owned() && symbol_name == "read_file".to_owned() {
        let path_ty = TypeAnnotation { kind: TypeAnnotationKind::String, span: span.clone() };
        let params = vec![("path", path_ty)];
        let f = make_builtin_fn(globals, symbol, span, params, string_ty);
        Some(f)
    } else {
        None
    }
}

/// The bindings of the last frame of `scope` beyond the first `base`, each
/// binding a name as `bindings` says, to a declaration of `program` that
/// declares the standard function named there; `names` are the interned
/// strings.
pub open spec fn binds_std_functions(
    scope: Seq<(crate::hir::scope::ScopeKind, Seq<crate::hir::scope::Binding>)>,
    base: int,
    program: crate::hir::builders::Program,
    names: Seq<Seq<char>>,
    module: Seq<char>,
    bindings: Seq<(StringId, Seq<char>, Span)>,
) -> bool {
    &&& scope.last().1.len() == base + bindings.len()
    &&& forall|j: int|
        0 <= j < bindings.len() ==> {
            let b = #[trigger] scope.last().1[base + j];
            &&& b.name == bindings[j].0
            &&& program.has_decl(b.decl)
            &&& program.decl_of(b.decl) matches Declaration::ExternFn(f) && is_std_fn(
                f,
                names,
                module,
                bindings[j].1,
                bindings[j].2,
            )
        }
}

/// How the declarations of an import of `items` took their ids, from `old`
/// to `new`: the counter moved on by `t` ids; the standard function bound
/// `j`-th took the id the counter had after `ts[j]` steps, each later one a
/// later id; and every declaration of `old` whose id is none of those `t`
/// is as it was.
pub open spec fn std_ids_taken(
    old: Builder<InModule>,
    new: Builder<InModule>,
    items: Seq<ImportItem>,
    ts: Seq<nat>,
    t: nat,
) -> bool {
    let c0 = old.globals.declaration_counter;
    let base = old.current_scope@.last().1.len() as int;
    &&& ts.len() == new.current_scope@.last().1.len() - base
    &&& t <= 3 * items.len()
    &&& new.globals.declaration_counter == counter_after(c0, t)
    &&& forall|j: int| #![trigger ts[j]] 0 <= j < ts.len() ==> ts[j] < t && (j > 0 ==> ts[j - 1] < ts[j])
        && new.current_scope@.last().1[base + j].decl.0 == counter_after(c0, ts[j])
    &&& forall|d: crate::ast::DeclarationId| #[trigger] old.program.has_decl(d) && (forall|x: nat| x < t ==> #[trigger] counter_after(c0, x) != d.0)
        ==> new.program.decl_of(d) == old.program.decl_of(d)
}

impl Builder<InModule> {
    /// Imports `items` from the standard module `module`: each name the
    /// standard library has there is declared as an external function and
    /// bound in the current scope (under its alias, where it has one); any
    /// other name, and any function declared as external, is reported as
    /// undeclared.
    pub fn build_std_import(&mut self, module: &str, items: Vec<ImportItem>, _span: Span)
        requires
            old(self).program.decl_ids_unique(),
            old(self).globals.string_interner.wf(),
            old(self).current_scope@.len() > 0,
            forall|k: int|
                0 <= k < items@.len() ==> (#[trigger] items@[k] matches ImportItem::Symbol { identifier, .. }
                    ==> identifier.name.0 < old(self).globals.string_interner@.len()),
            3 * items@.len() <= usize::MAX,
        ensures
            final(self).errors@ == old(self).errors@ + import_errors(
                module@,
                old(self).globals.string_interner@,
                items@,
            ),
            final(self).current_scope@.len() == old(self).current_scope@.len(),
            forall|i: int|
                0 <= i < old(self).current_scope@.len() - 1 ==> #[trigger] final(self).current_scope@[i]
                    == old(self).current_scope@[i],
            final(self).current_scope@.last().0 == old(self).current_scope@.last().0,
            final(self).current_scope@.last().1.subrange(0, old(self).current_scope@.last().1.len() as int)
                == old(self).current_scope@.last().1,
            binds_std_functions(
                final(self).current_scope@,
                old(self).current_scope@.last().1.len() as int,
                final(self).program,
                final(self).globals.string_interner@,
                module@,
                import_bindings(module@, old(self).globals.string_interner@, items@),
            ),
            final(self).program.decl_ids_unique(),
            forall|d: crate::ast::DeclarationId| #[trigger] old(self).program.has_decl(d)
                ==> final(self).program.has_decl(d),
            final(self).program.modules == old(self).program.modules,
            final(self).program.cfgs == old(self).program.cfgs,
            final(self).program.entry_path == old(self).program.entry_path,
            final(self).globals.string_interner.wf(),
            table_extends(final(self).globals.string_interner@, old(self).globals.string_interner@),
            final(self).globals.generic_declaration_counter == old(self).globals.generic_declaration_counter,
            final(self).context == old(self).context,
            final(self).current_def == old(self).current_def,
            final(self).incomplete_phis == old(self).incomplete_phis,
            final(self).current_memory_def == old(self).current_memory_def,
            final(self).incomplete_memory_phis == old(self).incomplete_memory_phis,
            exists|ts: Seq<nat>, t: nat|
                #![trigger std_ids_taken(*old(self), *final(self), items@, ts, t)]
                std_ids_taken(*old(self), *final(self), items@, ts, t),
    {
        let ghost names0 = self.globals.string_interner@;
        let ghost s0 = self.current_scope@;
        let ghost base = s0.last().1.len() as int;
        let ghost e0 = self.errors@;
        let ghost c0 = self.globals.declaration_counter;
        let ghost m = module@;
        let ghost all = items@;
        let mut remaining = items;
        let ghost mut done: int = 0;
        let ghost mut t: nat = 0;
        let ghost mut ts: Seq<nat> = seq![];
        proof {
            assert(all.subrange(0, 0) =~= Seq::<ImportItem>::empty());
            assert(self.current_scope@.last().1.subrange(0, base) =~= s0.last().1);
        }
        while remaining.len() > 0
            invariant
                m == module@,
                0 <= done <= all.len(),
                remaining@ == all.subrange(done, all.len() as int),
                forall|k: int|
                    0 <= k < all.len() ==> (#[trigger] all[k] matches ImportItem::Symbol { identifier, .. }
                        ==> identifier.name.0 < names0.len()),
                3 * all.len() <= usize::MAX,
                self.errors@ == e0 + import_errors(m, names0, all.subrange(0, done)),
                ts.len() == import_bindings(m, names0, all.subrange(0, done)).len(),
                t <= 3 * done,
                forall|j: int| 0 <= j < ts.len() ==> #[trigger] ts[j] < t,
                self.globals.declaration_counter == counter_after(c0, t),
                self.globals.string_interner.wf(),
                table_extends(self.globals.string_interner@, names0),
                self.globals.generic_declaration_counter == old(self).globals.generic_declaration_counter,
                self.program.decl_ids_unique(),
                forall|d: crate::ast::DeclarationId| #[trigger] old(self).program.has_decl(d) ==> self.program.has_decl(d),
                self.program.modules == old(self).program.modules,
                self.program.cfgs == old(self).program.cfgs,
                self.program.entry_path == old(self).program.entry_path,
                self.context == old(self).context,
                self.current_def == old(self).current_def,
                self.incomplete_phis == old(self).incomplete_phis,
                self.current_memory_def == old(self).current_memory_def,
                self.incomplete_memory_phis == old(self).incomplete_memory_phis,
                self.current_scope@.len() == s0.len(),
                s0.len() > 0,
                base == s0.last().1.len(),
                forall|i: int| 0 <= i < s0.len() - 1 ==> #[trigger] self.current_scope@[i] == s0[i],
                self.current_scope@.last().0 == s0.last().0,
                self.current_scope@.last().1.subrange(0, base) == s0.last().1,
                binds_std_functions(
                    self.current_scope@,
                    base,
                    self.program,
                    self.globals.string_interner@,
                    m,
                    import_bindings(m, names0, all.subrange(0, done)),
                ),
                forall|j: int|
                    0 <= j < ts.len() ==> (#[trigger] self.current_scope@.last().1[base + j]).decl.0
                        == counter_after(c0, ts[j]),
                forall|i: int, j: int| 0 <= i < j < ts.len() ==> #[trigger] ts[i] < #[trigger] ts[j],
                forall|d: crate::ast::DeclarationId| #[trigger] old(self).program.has_decl(d) && (forall|x: nat| x < t ==> #[trigger] counter_after(c0, x) != d.0)
                    ==> self.program.decl_of(d) == old(self).program.decl_of(d),
            decreases remaining@.len(),
        {
            let ghost st = *self;
            let ghost prefix = all.subrange(0, done + 1);
            let ghost bs = import_bindings(m, names0, all.subrange(0, done));
            let item = remaining.remove(0);
            let ghost it = item;
            proof {
                assert(all[done] == item);
                assert(prefix.drop_last() =~= all.subrange(0, done));
                assert(prefix.last() == item);
            }
            match item {
                ImportItem::Symbol { identifier, alias } => {
                    let symbol_name = self.globals.string_interner.resolve(identifier.name);
                    proof {
                        assert(symbol_name@ == names0[identifier.name.0 as int]);
                    }
                    let symbol: &str = symbol_name.as_str();
                    let symbol_span = identifier.span.clone();
                    assert(symbol@ == symbol_name@);
                    assert(symbol_span == identifier.span);
                    let looked_up = get_std_function(&mut self.globals, module, symbol, symbol_span);
                    match looked_up {
                        Some(func) => {
                            let ghost fv = func;
                            let decl_id = func.id;
                            let ghost st1 = *self;
                            self.program.insert_declaration(decl_id, Declaration::ExternFn(func));
                            let name_to_bind = match alias {
                                Some(a) => a.name,
                                None => identifier.name,
                            };
                            self.current_scope.map_name_to_symbol(name_to_bind, decl_id);
                            proof {
                                let nb = import_bindings(m, names0, prefix);
                                assert(it == ImportItem::Symbol { identifier, alias });
                                assert(std_signature(m, symbol_name@, identifier.span) is Some);
                                assert(import_binding(m, names0, it) == Some((name_to_bind, symbol_name@, identifier.span)));
                                assert(nb == bs.push((name_to_bind, symbol_name@, identifier.span)));
                                assert(import_errors(m, names0, prefix) == import_errors(m, names0, all.subrange(0, done)));
                                let names1 = self.globals.string_interner@;
                                let sc = self.current_scope@;
                                assert forall|j: int| 0 <= j < ts.len() implies counter_after(c0, ts[j]) != decl_id.0 by {
                                    law_ids_distinct(c0, ts[j], t);
                                }
                                assert forall|j: int| 0 <= j < nb.len() implies {
                                    let b = #[trigger] sc.last().1[base + j];
                                    &&& b.name == nb[j].0
                                    &&& self.program.has_decl(b.decl)
                                    &&& self.program.decl_of(b.decl) matches Declaration::ExternFn(f) && is_std_fn(
                                        f,
                                        names1,
                                        m,
                                        nb[j].1,
                                        nb[j].2,
                                    )
                                } by {
                                    if j < bs.len() {
                                        let b = st.current_scope@.last().1[base + j];
                                        assert(sc.last().1[base + j] == b);
                                        assert(b.decl.0 == counter_after(c0, ts[j]));
                                        assert(b.decl != decl_id);
                                        assert(st.program.has_decl(b.decl));
                                        let f = st.program.decl_of(b.decl)->ExternFn_0;
                                        assert(is_std_fn(f, st.globals.string_interner@, m, bs[j].1, bs[j].2));
                                        let (ps, r) = std_signature(m, bs[j].1, bs[j].2)->Some_0;
                                        lemma_declares_builtin_grows(
                                            f,
                                            st.globals.string_interner@,
                                            names1,
                                            bs[j].1,
                                            ps,
                                            r,
                                            bs[j].2,
                                        );
                                        assert(st1.program == st.program);
                                        assert(self.program.has_decl(b.decl) == st1.program.has_decl(b.decl));
                                        assert(self.program.decl_of(b.decl) == st.program.decl_of(b.decl));
                                        assert(is_std_fn(f, names1, m, bs[j].1, bs[j].2));
                                        assert(nb[j] == bs[j]);
                                    } else {
                                        assert(j == bs.len());
                                        assert(st1.current_scope@ == st.current_scope@);
                                        assert(sc.last().1[base + j] == crate::hir::scope::Binding { name: name_to_bind, decl: decl_id });
                                        assert(self.program.decl_of(decl_id) == Declaration::ExternFn(fv));
                                        assert(names1 == st1.globals.string_interner@);
                                        assert(is_std_fn(fv, names1, m, symbol_name@, identifier.span));
                                    }
                                }
                                assert(sc.last().1.subrange(0, base) =~= s0.last().1) by {
                                    assert forall|i: int| 0 <= i < base implies sc.last().1[i] == s0.last().1[i] by {
                                        assert(st.current_scope@.last().1.subrange(0, base)[i] == s0.last().1[i]);
                                    }
                                }
                                lemma_counter_after_add(c0, t, fv.params@.len() + 1);
                                let t0 = t;
                                assert forall|d: crate::ast::DeclarationId| #[trigger] old(self).program.has_decl(d) && (forall|x: nat|
                                    x < t0 + fv.params@.len() + 1 ==> #[trigger] counter_after(c0, x) != d.0) implies self.program.decl_of(d)
                                    == old(self).program.decl_of(d) by {
                                    assert(counter_after(c0, t0) != d.0);
                                    assert(forall|x: nat| x < t0 ==> #[trigger] counter_after(c0, x) != d.0);
                                    assert(d != decl_id);
                                    assert(st.program.decl_of(d) == old(self).program.decl_of(d));
                                    assert(st1.program == st.program);
                                    assert(st1.program.has_decl(d));
                                    assert(self.program.has_decl(d));
                                }
                                let ots = ts;
                                ts = ts.push(t);
                                t = t + fv.params@.len() + 1;
                                assert forall|i: int, j: int| 0 <= i < j < ts.len() implies #[trigger] ts[i] < #[trigger] ts[j] by {
                                    if j < ots.len() {
                                        assert(ts[i] == ots[i] && ts[j] == ots[j]);
                                    } else {
                                        assert(ts[i] == ots[i]);
                                    }
                                }
                            }
                        },
                        None => {
                            let err = SemanticError {
                                kind: SemanticErrorKind::UndeclaredIdentifier(identifier.clone()),
                                span: identifier.span,
                            };
                            self.errors.push(err);
                            proof {
                                assert(import_bindings(m, names0, prefix) == bs);
                                assert(self.errors@ =~= e0 + import_errors(m, names0, prefix));
                            }
                        },
                    }
                },
                ImportItem::ExternFn(f) => {
                    let err = SemanticError {
                        kind: SemanticErrorKind::UndeclaredIdentifier(f.identifier.clone()),
                        span: f.identifier.span,
                    };
                    self.errors.push(err);
                    proof {
                        assert(import_bindings(m, names0, prefix) == bs);
                        assert(self.errors@ =~= e0 + import_errors(m, names0, prefix));
                    }
                },
            }
            proof {
                done = done + 1;
                assert(remaining@ =~= all.subrange(done, all.len() as int));
            }
        }
        proof {
            assert(all.subrange(0, done) =~= all);
            assert(std_ids_taken(*old(self), *self, items@, ts, t)) by {
                assert forall|j: int| #![trigger ts[j]] 0 <= j < ts.len() implies ts[j] < t && (j > 0 ==> ts[j - 1] < ts[j])
                    && self.current_scope@.last().1[base + j].decl.0 == counter_after(c0, ts[j]) by {
                    if j > 0 {
                        assert(ts[j - 1] < ts[j]);
                    }
                }
            }
        }
    }
}

} // verus!
