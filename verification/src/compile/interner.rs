use vstd::prelude::*;

verus! {

/// Handle of an interned string: its index in the interner's table.
#[derive(Debug, Default, Clone, Copy, PartialEq, Eq, Hash, PartialOrd, Ord)]
pub struct StringId(pub usize);

/// Handle of an interned type.
#[derive(Debug, Default, Clone, Copy, PartialEq, Eq, Hash, PartialOrd, Ord)]
pub struct TypeId(pub u32);

/// Maps strings to small integer handles and back.
///
/// Every distinct string is stored once; its handle is the position at which it
/// was first interned.
pub struct StringInterner {
    backward: Vec<String>,
}

/// The strings of `table` are pairwise distinct.
pub open spec fn distinct_strings(table: Seq<Seq<char>>) -> bool {
    forall|i: int, j: int| 0 <= i < table.len() && 0 <= j < table.len() && i != j
        ==> #[trigger] table[i] != #[trigger] table[j]
}

/// `key` occurs in `table`.
pub open spec fn table_contains(table: Seq<Seq<char>>, key: Seq<char>) -> bool {
    exists|i: int| 0 <= i < table.len() && #[trigger] table[i] == key
}

/// The handle that interning `key` into `table` yields: the position of `key`
/// when it is present, otherwise the next free position.
pub open spec fn interned_index(table: Seq<Seq<char>>, key: Seq<char>) -> nat {
    if table_contains(table, key) {
        (choose|i: int| 0 <= i < table.len() && #[trigger] table[i] == key) as nat
    } else {
        table.len()
    }
}

/// The table after interning `key`.
pub open spec fn interned_table(table: Seq<Seq<char>>, key: Seq<char>) -> Seq<Seq<char>> {
    if table_contains(table, key) {
        table
    } else {
        table.push(key)
    }
}

/// `new` holds every string of `old` under the same handle, and maybe more.
pub open spec fn table_extends(new: Seq<Seq<char>>, old: Seq<Seq<char>>) -> bool {
    &&& new.len() >= old.len()
    &&& forall|i: int| 0 <= i < old.len() ==> #[trigger] new[i] == old[i]
}

/// Interning keeps every handle handed out before, and the handle it
/// yields resolves to the interned string.
pub proof fn law_intern_stable(table: Seq<Seq<char>>, key: Seq<char>)
    ensures
        table_extends(interned_table(table, key), table),
        interned_index(table, key) < interned_table(table, key).len(),
        interned_table(table, key)[interned_index(table, key) as int] == key,
{
}

/// Interning a string that is already present changes nothing and yields
/// its handle again.
pub proof fn law_intern_idempotent(table: Seq<Seq<char>>, key: Seq<char>)
    ensures
        interned_table(interned_table(table, key), key) == interned_table(table, key),
        interned_index(interned_table(table, key), key) == interned_index(table, key),
{
    law_intern_stable(table, key);
    let t = interned_table(table, key);
    assert(table_contains(t, key)) by {
        assert(t[interned_index(table, key) as int] == key);
    }
    if !table_contains(table, key) {
        let i = interned_index(t, key) as int;
        assert(t[i] == key);
        assert(i == table.len()) by {
            if i < table.len() {
                assert(table[i] == key);
            }
        }
    }
}

/// In a table without repeats, two strings get the same handle only when
/// they are the same string, whichever is interned first.
pub proof fn law_intern_injective(table: Seq<Seq<char>>, a: Seq<char>, b: Seq<char>)
    requires
        distinct_strings(table),
    ensures
        distinct_strings(interned_table(table, a)),
        interned_index(table, a) == interned_index(interned_table(table, a), b) <==> a == b,
{
    law_intern_stable(table, a);
    let t = interned_table(table, a);
    law_intern_stable(t, b);
    if !table_contains(table, a) {
        assert forall|i: int, j: int| 0 <= i < t.len() && 0 <= j < t.len() && i != j implies #[trigger] t[i] != #[trigger] t[j] by {
            if i == table.len() as int {
                assert(t[j] == table[j]);
            } else if j == table.len() as int {
                assert(t[i] == table[i]);
            }
        }
    }
    if a == b {
        law_intern_idempotent(table, a);
    }
}

impl View for StringInterner {
    type V = Seq<Seq<char>>;

    /// The table of interned strings, indexed by handle.
    closed spec fn view(&self) -> Seq<Seq<char>> {
        self.backward@.map_values(|s: String| s@)
    }
}

impl Default for StringInterner {
    fn default() -> (res: Self)
        ensures
            res.wf(),
            res@ == Seq::<Seq<char>>::empty(),
    {
        StringInterner::new()
    }
}

impl StringInterner {
    /// Well-formedness: no string is stored twice.
    pub open spec fn wf(&self) -> bool {
        distinct_strings(self@)
    }

    /// An interner that holds no string.
    pub fn new() -> (res: Self)
        ensures
            res.wf(),
            res@ == Seq::<Seq<char>>::empty(),
    {
        let res = StringInterner { backward: Vec::new() };
        assert(res@ =~= Seq::<Seq<char>>::empty());
        res
    }

    /// Returns the handle of `key`, storing `key` first when it is new.
    pub fn intern(&mut self, key: &str) -> (id: StringId)
        requires
            old(self).wf(),
        ensures
            final(self).wf(),
            id.0 == interned_index(old(self)@, key@),
            final(self)@ == interned_table(old(self)@, key@),
            final(self)@[id.0 as int] == key@,
    {
        let owned: String = key.to_owned();
        let n = self.backward.len();
        let mut i: usize = 0;
        while i < n
            invariant
                n == self.backward.len(),
                0 <= i <= n,
                owned@ == key@,
                self.wf(),
                forall|j: int| 0 <= j < i ==> #[trigger] self@[j] != key@,
            decreases n - i,
        {
            if self.backward[i] == owned {
                proof {
                    assert(self@[i as int] == key@);
                    assert(table_contains(self@, key@));
                    let c = choose|k: int| 0 <= k < self@.len() && #[trigger] self@[k] == key@;
                    assert(c == i as int);
                }
                return StringId(i);
            }
            i = i + 1;
        }
        proof {
            assert(!table_contains(self@, key@));
        }
        let ghost before = self@;
        self.backward.push(owned);
        proof {
            assert(self@ =~= before.push(key@));
            assert(distinct_strings(self@)) by {
                assert forall|a: int, b: int|
                    0 <= a < self@.len() && 0 <= b < self@.len() && a != b
                    implies #[trigger] self@[a] != #[trigger] self@[b] by {
                    if a < before.len() && b < before.len() {
                        assert(self@[a] == before[a]);
                        assert(self@[b] == before[b]);
                    } else if a == before.len() {
                        assert(self@[b] == before[b]);
                    } else {
                        assert(self@[a] == before[a]);
                    }
                }
            }
        }
        StringId(n)
    }

    /// Returns the string stored under `key`.
    pub fn resolve(&self, key: StringId) -> (s: String)
        requires
            key.0 < self@.len(),
        ensures
            s@ == self@[key.0 as int],
    {
        self.backward[key.0].clone()
    }

    /// Forgets every interned string.
    pub fn clear(&mut self)
        ensures
            final(self).wf(),
            final(self)@ == Seq::<Seq<char>>::empty(),
    {
        self.backward.clear();
        assert(self@ =~= Seq::<Seq<char>>::empty());
    }

    /// Number of interned strings.
    pub fn len(&self) -> (n: usize)
        ensures
            n == self@.len(),
    {
        self.backward.len()
    }
}

} // verus!
