use vstd::prelude::*;

use crate::ast::DeclarationId;
use crate::compile::interner::{interned_index, interned_table, StringId, StringInterner};

verus! {

/// Handles of identifiers the compiler itself refers to.
pub struct CommonIdentifiers {
    pub ptr: StringId,
    pub cap: StringId,
    pub len: StringId,
    pub id: StringId,
    pub val: StringId,
}

/// State shared by the whole compilation: the counters that hand out
/// declaration ids and the string interner.
pub struct Globals {
    pub declaration_counter: usize,
    pub generic_declaration_counter: usize,
    pub string_interner: StringInterner,
}

impl Globals {
    /// Fresh counters and an empty interner.
    pub fn new() -> (res: Self)
        ensures
            res.declaration_counter == 0,
            res.generic_declaration_counter == 0,
            res.string_interner.wf(),
            res.string_interner@ == Seq::<Seq<char>>::empty(),
    {
        Globals { declaration_counter: 0, generic_declaration_counter: 0, string_interner: StringInterner::new() }
    }

    /// The handles of the common identifiers, interning them first when
    /// needed, in the order `id`, `val`, `len`, `cap`, `ptr`.
    pub fn common_identifiers(&mut self) -> (res: CommonIdentifiers)
        requires
            old(self).string_interner.wf(),
        ensures
            final(self).string_interner.wf(),
            final(self).declaration_counter == old(self).declaration_counter,
            final(self).generic_declaration_counter == old(self).generic_declaration_counter,
            ({
                let t0 = old(self).string_interner@;
                let t1 = interned_table(t0, "id"@);
                let t2 = interned_table(t1, "val"@);
                let t3 = interned_table(t2, "len"@);
                let t4 = interned_table(t3, "cap"@);
                &&& res.id.0 == interned_index(t0, "id"@)
                &&& res.val.0 == interned_index(t1, "val"@)
                &&& res.len.0 == interned_index(t2, "len"@)
                &&& res.cap.0 == interned_index(t3, "cap"@)
                &&& res.ptr.0 == interned_index(t4, "ptr"@)
                &&& final(self).string_interner@ == interned_table(t4, "ptr"@)
            }),
    {
        let id = self.string_interner.intern("id");
        let val = self.string_interner.intern("val");
        let len = self.string_interner.intern("len");
        let cap = self.string_interner.intern("cap");
        let ptr = self.string_interner.intern("ptr");
        CommonIdentifiers { ptr, cap, len, id, val }
    }
}

/// The declaration counter after one step: it wraps around at its limit.
pub open spec fn counter_step(c: usize) -> usize {
    if c == usize::MAX {
        0
    } else {
        (c + 1) as usize
    }
}

/// The declaration counter after `n` steps from `c`.
pub open spec fn counter_after(c: usize, n: nat) -> usize
    decreases n,
{
    if n == 0 {
        c
    } else {
        counter_step(counter_after(c, (n - 1) as nat))
    }
}

/// Stepping the counter is adding modulo its range.
pub proof fn lemma_counter_after(c: usize, n: nat)
    ensures
        counter_after(c, n) == (c + n) % (usize::MAX + 1),
    decreases n,
{
    let m: int = usize::MAX + 1;
    if n == 0 {
        vstd::arithmetic::div_mod::lemma_fundamental_div_mod_converse(c as int, m, 0, c as int);
    } else {
        lemma_counter_after(c, (n - 1) as nat);
        let x: int = c + n - 1;
        vstd::arithmetic::div_mod::lemma_fundamental_div_mod(x, m);
        let q = x / m;
        let r = x % m;
        assert(0 <= r < m) by {
            vstd::arithmetic::div_mod::lemma_mod_bound(x, m);
        }
        if r == usize::MAX {
            assert(x + 1 == (q + 1) * m + 0) by (nonlinear_arith)
                requires
                    x == m * q + r,
                    r == m - 1,
            ;
            vstd::arithmetic::div_mod::lemma_fundamental_div_mod_converse(x + 1, m, q + 1, 0);
        } else {
            assert(x + 1 == q * m + (r + 1)) by (nonlinear_arith)
                requires
                    x == m * q + r,
            ;
            vstd::arithmetic::div_mod::lemma_fundamental_div_mod_converse(x + 1, m, q, r + 1);
        }
    }
}

/// Stepping `a` times and then `b` times is stepping `a + b` times.
pub proof fn lemma_counter_after_add(c: usize, a: nat, b: nat)
    ensures
        counter_after(counter_after(c, a), b) == counter_after(c, a + b),
    decreases b,
{
    if b > 0 {
        lemma_counter_after_add(c, a, (b - 1) as nat);
    }
}

/// Ids handed out one after another are pairwise distinct as long as
/// fewer are handed out than the counter has values.
pub proof fn law_ids_distinct(c: usize, a: nat, b: nat)
    requires
        a < b,
        b <= usize::MAX,
    ensures
        counter_after(c, a) != counter_after(c, b),
{
    lemma_counter_after(c, a);
    lemma_counter_after(c, b);
    let m: int = usize::MAX + 1;
    let xa: int = c + a;
    let xb: int = c + b;
    vstd::arithmetic::div_mod::lemma_fundamental_div_mod(xa, m);
    vstd::arithmetic::div_mod::lemma_fundamental_div_mod(xb, m);
    if xa % m == xb % m {
        let qa = xa / m;
        let qb = xb / m;
        let r = xa % m;
        assert(b - a == m * (qb - qa)) by (nonlinear_arith)
            requires
                xa == m * qa + r,
                xb == m * qb + r,
                xb - xa == b - a,
        ;
        assert(false) by (nonlinear_arith)
            requires
                b - a == m * (qb - qa),
                0 < b - a < m,
        ;
    }
}

/// Hands out the next declaration id; the counter wraps around as an atomic
/// counter does.
pub fn next_declaration_id(globals: &mut Globals) -> (id: DeclarationId)
    ensures
        id.0 == old(globals).declaration_counter,
        final(globals).declaration_counter == counter_step(old(globals).declaration_counter),
        final(globals).generic_declaration_counter == old(globals).generic_declaration_counter,
        final(globals).string_interner == old(globals).string_interner,
{
    let id = globals.declaration_counter;
    globals.declaration_counter = id.wrapping_add(1);
    DeclarationId(id)
}

/// Starts the declaration ids over and empties the interner.
pub fn reset_globals(globals: &mut Globals)
    ensures
        final(globals).declaration_counter == 0,
        final(globals).generic_declaration_counter == old(globals).generic_declaration_counter,
        final(globals).string_interner.wf(),
        final(globals).string_interner@ == Seq::<Seq<char>>::empty(),
{
    globals.declaration_counter = 0;
    globals.string_interner.clear();
}

} // verus!
