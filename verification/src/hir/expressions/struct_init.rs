use vstd::prelude::*;

use crate::ast::expr::Expr;
use crate::ast::measure::{expr_info, fields_info, join, no_info, node};
use crate::ast::{IdentifierNode, Span};
use crate::compile::interner::StringId;
use crate::hir::builders::{Builder, InBlock};
use crate::hir::expressions::value_shape;
use crate::hir::errors::{SemanticError, SemanticErrorKind};
use crate::hir::instructions::{InstrDefinition, InstrId, InstructionKind, StructInitInstr};

verus! {

/// Whether `name` is among `seen`.
fn name_seen(seen: &Vec<StringId>, name: StringId) -> (res: bool)
    ensures
        res == seen@.contains(name),
{
    let mut k: usize = 0;
    while k < seen.len()
        invariant
            k <= seen.len(),
            forall|j: int| 0 <= j < k ==> seen@[j] != name,
        decreases seen.len() - k,
    {
        if seen[k].0 == name.0 {
            assert(seen@[k as int] == name);
            return true;
        }
        k = k + 1;
    }
    false
}

/// The error for the second initializer of the field named by `field`.
pub open spec fn duplicate_field_error(field: IdentifierNode) -> SemanticError {
    SemanticError { kind: SemanticErrorKind::DuplicateStructFieldInitializer(field), span: field.span }
}

/// Whether field `j` of `fields` repeats the name of an earlier field.
pub open spec fn repeats_earlier_name(fields: Seq<(IdentifierNode, Expr)>, j: int) -> bool {
    exists|i: int| 0 <= i < j && #[trigger] fields[i].0.name == fields[j].0.name
}

/// The error that the struct literal itself reports at field `j`: one
/// duplicate-field error where the field repeats an earlier name, none
/// otherwise.
pub open spec fn own_field_errors(fields: Seq<(IdentifierNode, Expr)>, j: int) -> Seq<SemanticError> {
    if repeats_earlier_name(fields, j) {
        seq![duplicate_field_error(fields[j].0)]
    } else {
        Seq::empty()
    }
}

/// The errors of the first `n` fields in the order they are reported: for
/// each field, its own error (if any), then `sub[k]`, what building its value
/// reported.
pub open spec fn field_errors(fields: Seq<(IdentifierNode, Expr)>, sub: Seq<Seq<SemanticError>>, n: nat) -> Seq<
    SemanticError,
>
    decreases n,
{
    if n == 0 {
        Seq::empty()
    } else {
        field_errors(fields, sub, (n - 1) as nat) + own_field_errors(fields, n - 1) + sub[n - 1]
    }
}

/// `field_errors` of `n` fields reads only the first `n` entries of `sub`.
proof fn lemma_field_errors_prefix(
    fields: Seq<(IdentifierNode, Expr)>,
    s1: Seq<Seq<SemanticError>>,
    s2: Seq<Seq<SemanticError>>,
    n: nat,
)
    requires
        n <= s1.len(),
        n <= s2.len(),
        forall|k: int| 0 <= k < n ==> #[trigger] s1[k] == s2[k],
    ensures
        field_errors(fields, s1, n) == field_errors(fields, s2, n),
    decreases n,
{
    if n > 0 {
        lemma_field_errors_prefix(fields, s1, s2, (n - 1) as nat);
    }
}

impl Builder<InBlock> {
    /// Builds the struct literal of `fields`: each field's value in order,
    /// then the struct. A field named a second time is an error at that
    /// name, and is built all the same.
    pub fn build_struct_init_expr(&mut self, span: Span, fields: Vec<(IdentifierNode, Expr)>, by_value: bool) -> (id: InstrId)
        requires
            old(self).ready(node(fields_info(fields@))),
        ensures
            Self::built(*old(self), *final(self), node(fields_info(fields@)), id),
            final(self).cur().instructions@[id.0 as int].kind matches InstructionKind::StructInit(si) && si.by_value
                == by_value && si.fields@.len() == fields@.len() && forall|k: int|
                0 <= k < si.fields@.len() ==> (#[trigger] si.fields@[k]).0 == fields@[k].0 && final(self).cur().has_instr(
                si.fields@[k].1,
            ) && value_shape(final(self).cur(), fields@[k].1, si.fields@[k].1),
            forall|i: int, j: int|
                0 <= i < j < fields@.len() && (#[trigger] fields@[i]).0.name == (#[trigger] fields@[j]).0.name
                    ==> final(self).errors@.contains(duplicate_field_error(fields@[j].0)),
            exists|sub: Seq<Seq<SemanticError>>|
                sub.len() == fields@.len() && final(self).errors@ == old(self).errors@ + field_errors(
                    fields@,
                    sub,
                    fields@.len(),
                ),
        decreases fields_info(fields@).size + 1, 2nat,
    {
        let ghost a = *self;
        let ghost total = fields_info(fields@);
        let ghost info = node(total);
        let ghost n = fields@.len();
        let mut remaining = fields;
        let mut seen_names: Vec<StringId> = Vec::new();
        let mut evaluated_fields: Vec<(IdentifierNode, InstrId)> = Vec::new();
        let ghost mut used = no_info();
        let ghost mut sub: Seq<Seq<SemanticError>> = Seq::empty();
        proof {
            Self::lemma_progress_refl(a, info);
            assert(remaining@ =~= fields@.subrange(0, n as int));
        }
        while remaining.len() > 0
            invariant
                a.ready(info),
                total == fields_info(fields@),
                info == node(total),
                n == fields@.len(),
                Self::progressed(a, *self, used),
                used.size + fields_info(remaining@).size == total.size,
                used.fns.subset_of(total.fns),
                used.name_bound <= total.name_bound,
                fields_info(remaining@).fns.subset_of(total.fns),
                fields_info(remaining@).name_bound <= total.name_bound,
                fields_info(remaining@).fns_ok,
                fields_info(remaining@).ifs_complete,
                evaluated_fields@.len() + remaining@.len() == n,
                remaining@ == fields@.subrange(evaluated_fields@.len() as int, n as int),
                forall|x: StringId| #[trigger] seen_names@.contains(x) <==> exists|k: int|
                    0 <= k < evaluated_fields@.len() && fields@[k].0.name == x,
                forall|k: int|
                    0 <= k < evaluated_fields@.len() ==> (#[trigger] evaluated_fields@[k]).0 == fields@[k].0
                        && self.cur().has_instr(evaluated_fields@[k].1) && value_shape(self.cur(), fields@[k].1, evaluated_fields@[k].1),
                forall|i: int, j: int|
                    0 <= i < j < evaluated_fields@.len() && (#[trigger] fields@[i]).0.name == (#[trigger] fields@[j]).0.name
                        ==> self.errors@.contains(duplicate_field_error(fields@[j].0)),
                sub.len() == evaluated_fields@.len(),
                self.errors@ == a.errors@ + field_errors(fields@, sub, evaluated_fields@.len() as nat),
            decreases remaining@.len(),
        {
            let ghost done = evaluated_fields@.len() as int;
            let ghost before_items = remaining@;
            let (field_name, field_expr) = remaining.remove(0);
            proof {
                assert(remaining@ =~= before_items.subrange(1, before_items.len() as int));
                assert(before_items[0] == fields@[done]);
                assert(fields_info(before_items) == join(expr_info(field_expr), fields_info(remaining@)));
                assert(remaining@ =~= fields@.subrange(done + 1, n as int));
            }
            let ghost e0 = *self;
            let ghost seen_before = seen_names@;
            let already = name_seen(&seen_names, field_name.name);
            if already {
                self.errors.push(
                    SemanticError {
                        kind: SemanticErrorKind::DuplicateStructFieldInitializer(field_name.clone()),
                        span: field_name.span.clone(),
                    },
                );
            } else {
                seen_names.push(field_name.name);
            }
            let ghost before = *self;
            proof {
                assert(before.errors@.subrange(0, e0.errors@.len() as int) =~= e0.errors@);
                assert(before.cur() == e0.cur());
                Self::lemma_ready_after(a, e0, info, used, expr_info(field_expr));
                assert(before.ready(expr_info(field_expr)));
            }
            let ghost fe = field_expr;
            let val_id = self.build_expr(field_expr);
            proof {
                // What building the value reported comes right after.
                let built = self.errors@.subrange(before.errors@.len() as int, self.errors@.len() as int);
                assert(self.errors@.subrange(0, before.errors@.len() as int) == before.errors@) by {
                    Self::lemma_progress_refl(e0, expr_info(field_expr));
                }
                assert(self.errors@ =~= before.errors@ + built);
                let sub2 = sub.push(built);
                lemma_field_errors_prefix(fields@, sub, sub2, done as nat);
                assert(already == repeats_earlier_name(fields@, done)) by {
                    if already {
                        let k = choose|k: int| 0 <= k < done && fields@[k].0.name == field_name.name;
                        assert(fields@[k].0.name == fields@[done].0.name);
                    }
                    if repeats_earlier_name(fields@, done) {
                        let i = choose|i: int| 0 <= i < done && #[trigger] fields@[i].0.name == fields@[done].0.name;
                        assert(seen_before.contains(field_name.name));
                    }
                }
                if already {
                    assert(before.errors@ =~= e0.errors@ + own_field_errors(fields@, done));
                } else {
                    assert(before.errors@ =~= e0.errors@ + own_field_errors(fields@, done));
                }
                assert(field_errors(fields@, sub2, (done + 1) as nat) == field_errors(fields@, sub2, done as nat)
                    + own_field_errors(fields@, done) + sub2[done]);
                assert(self.errors@ =~= a.errors@ + field_errors(fields@, sub2, (done + 1) as nat));
                sub = sub2;
            }
            proof {
                assert(fields@[done].1 == fe);
                assert forall|k: int| 0 <= k < done implies value_shape(self.cur(), fields@[k].1, (#[trigger] evaluated_fields@[k]).1) by {
                    assert(e0.cur() == before.cur());
                    Self::lemma_value_after_progress(before, *self, expr_info(fe), -1, fields@[k].1, evaluated_fields@[k].1);
                }
                Self::lemma_progress_refl(e0, expr_info(field_expr));
                Self::lemma_after_errors(e0, before, *self, expr_info(field_expr), val_id);
                Self::lemma_progress_trans(a, e0, *self, used, expr_info(field_expr), join(used, expr_info(field_expr)));
                used = join(used, expr_info(field_expr));
                assert forall|i: int, j: int|
                    0 <= i < j < done + 1 && (#[trigger] fields@[i]).0.name == (#[trigger] fields@[j]).0.name
                        implies self.errors@.contains(duplicate_field_error(fields@[j].0)) by {
                    if j < done {
                        let k = choose|k: int| 0 <= k < e0.errors@.len() && e0.errors@[k] == duplicate_field_error(fields@[j].0);
                        assert(self.errors@.subrange(0, e0.errors@.len() as int)[k] == self.errors@[k]);
                    } else {
                        assert(already);
                        let k = e0.errors@.len() as int;
                        assert(before.errors@[k] == duplicate_field_error(fields@[j].0));
                        assert(self.errors@.subrange(0, before.errors@.len() as int)[k] == self.errors@[k]);
                    }
                }
            }
            evaluated_fields.push((field_name, val_id));
            proof {
                assert forall|x: StringId| #[trigger] seen_names@.contains(x) <==> exists|k: int|
                    0 <= k < evaluated_fields@.len() && fields@[k].0.name == x by {
                    if seen_names@.contains(x) && !seen_before.contains(x) {
                        assert(fields@[done].0.name == x);
                    }
                    if exists|k: int| 0 <= k < evaluated_fields@.len() && fields@[k].0.name == x {
                        let k = choose|k: int| 0 <= k < evaluated_fields@.len() && fields@[k].0.name == x;
                        if k < done {
                            assert(seen_before.contains(x));
                            assert(seen_names@.contains(x)) by {
                                let p = choose|p: int| 0 <= p < seen_before.len() && seen_before[p] == x;
                                assert(seen_names@[p] == x);
                            }
                        } else if !already {
                            assert(seen_names@[seen_names@.len() - 1] == x);
                        }
                    }
                }
            }
        }
        let ghost b = *self;
        let ghost instr = InstrDefinition {
            kind: InstructionKind::StructInit(StructInitInstr { fields: evaluated_fields, by_value }),
            block: b.context.block_id,
            span,
        };
        proof {
            Self::lemma_progress_refl(b, no_info());
            Self::lemma_ready_after(a, b, info, used, no_info());
        }
        let ghost ef = evaluated_fields@;
        let id = self.push_instruction(InstructionKind::StructInit(StructInitInstr { fields: evaluated_fields, by_value }), span);
        proof {
            Self::lemma_node_built(a, b, b, *self, used, no_info(), info, instr, id);
            assert forall|k: int| 0 <= k < ef.len() implies value_shape(self.cur(), fields@[k].1, (#[trigger] ef[k]).1) by {
                Self::lemma_value_after_push(b, *self, instr, id, fields@[k].1, ef[k].1);
            }
            assert(self.errors@ == a.errors@ + field_errors(fields@, sub, fields@.len()));
        }
        id
    }
}

} // verus!
