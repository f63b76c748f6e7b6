use vstd::prelude::*;

use crate::ast::DeclarationId;
use crate::hir::instructions::{BasicBlockId, InstrId, MemoryId};

verus! {

/// The value that variable `var` holds at the end of block `block`.
#[derive(Clone, Copy, Debug)]
pub struct VarDef {
    pub block: BasicBlockId,
    pub var: DeclarationId,
    pub value: InstrId,
}

/// A finite map from (block, variable) to the instruction that defines the
/// variable there.
pub struct VarDefs {
    entries: Vec<VarDef>,
    map: Ghost<Map<(BasicBlockId, DeclarationId), InstrId>>,
}

/// The memory version current at the end of block `block`.
#[derive(Clone, Copy, Debug)]
pub struct MemDef {
    pub block: BasicBlockId,
    pub memory: MemoryId,
}

/// A finite map from block to memory version.
pub struct MemDefs {
    entries: Vec<MemDef>,
    map: Ghost<Map<BasicBlockId, MemoryId>>,
}

pub open spec fn def_key(d: VarDef) -> (BasicBlockId, DeclarationId) {
    (d.block, d.var)
}

impl View for VarDefs {
    type V = Map<(BasicBlockId, DeclarationId), InstrId>;

    closed spec fn view(&self) -> Map<(BasicBlockId, DeclarationId), InstrId> {
        self.map@
    }
}

impl VarDefs {
    /// The entries and the map agree, and no key occurs twice.
    pub closed spec fn wf(&self) -> bool {
        &&& forall|i: int| 0 <= i < self.entries.len() ==> {
            &&& self.map@.contains_key(def_key(#[trigger] self.entries@[i]))
            &&& self.map@[def_key(self.entries@[i])] == self.entries@[i].value
        }
        &&& forall|k: (BasicBlockId, DeclarationId)| #[trigger] self.map@.contains_key(k) ==> exists|i: int|
            0 <= i < self.entries.len() && def_key(#[trigger] self.entries@[i]) == k
        &&& forall|i: int, j: int|
            0 <= i < self.entries.len() && 0 <= j < self.entries.len() && i != j ==> def_key(
                #[trigger] self.entries@[i],
            ) != def_key(#[trigger] self.entries@[j])
    }

    pub fn new() -> (res: Self)
        ensures
            res.wf(),
            res@ == Map::<(BasicBlockId, DeclarationId), InstrId>::empty(),
    {
        VarDefs { entries: Vec::new(), map: Ghost(Map::empty()) }
    }

    /// Position of the entry for (`block`, `var`), if any.
    fn find(&self, block: BasicBlockId, var: DeclarationId) -> (res: Option<usize>)
        requires
            self.wf(),
        ensures
            match res {
                Some(i) => i < self.entries.len() && def_key(self.entries@[i as int]) == (block, var),
                None => !self@.contains_key((block, var)),
            },
    {
        let n = self.entries.len();
        let mut i: usize = 0;
        while i < n
            invariant
                n == self.entries.len(),
                i <= n,
                forall|j: int| 0 <= j < i ==> def_key(#[trigger] self.entries@[j]) != (block, var),
            decreases n - i,
        {
            let e = self.entries[i];
            if e.block.0 == block.0 && e.var.0 == var.0 {
                return Some(i);
            }
            i = i + 1;
        }
        None
    }

    /// The definition of `var` in `block`, if any.
    pub fn get(&self, block: BasicBlockId, var: DeclarationId) -> (res: Option<InstrId>)
        requires
            self.wf(),
        ensures
            res == self@.get((block, var)),
    {
        match self.find(block, var) {
            Some(i) => {
                let e = self.entries[i];
                Some(e.value)
            },
            None => None,
        }
    }

    /// Records that `var` holds `value` at the end of `block`.
    pub fn insert(&mut self, block: BasicBlockId, var: DeclarationId, value: InstrId)
        requires
            old(self).wf(),
        ensures
            final(self).wf(),
            final(self)@ == old(self)@.insert((block, var), value),
    {
        let ghost new_map = self.map@.insert((block, var), value);
        match self.find(block, var) {
            Some(i) => {
                let ghost before = self.entries@;
                self.entries.set(i, VarDef { block, var, value });
                self.map = Ghost(new_map);
                proof {
                    assert forall|k: (BasicBlockId, DeclarationId)| #[trigger] self.map@.contains_key(k) implies exists|j: int|
                        0 <= j < self.entries.len() && def_key(#[trigger] self.entries@[j]) == k by {
                        if k == (block, var) {
                            assert(def_key(self.entries@[i as int]) == k);
                        } else {
                            let j = choose|j: int| 0 <= j < before.len() && def_key(#[trigger] before[j]) == k;
                            assert(def_key(self.entries@[j]) == k);
                        }
                    }
                    assert forall|a: int, b: int|
                        0 <= a < self.entries.len() && 0 <= b < self.entries.len() && a != b implies def_key(
                            #[trigger] self.entries@[a],
                        ) != def_key(#[trigger] self.entries@[b]) by {
                        assert(def_key(before[a]) != def_key(before[b]));
                    }
                }
            },
            None => {
                let ghost before = self.entries@;
                self.entries.push(VarDef { block, var, value });
                self.map = Ghost(new_map);
                proof {
                    assert forall|k: (BasicBlockId, DeclarationId)| #[trigger] self.map@.contains_key(k) implies exists|j: int|
                        0 <= j < self.entries.len() && def_key(#[trigger] self.entries@[j]) == k by {
                        if k == (block, var) {
                            assert(def_key(self.entries@[before.len() as int]) == k);
                        } else {
                            let j = choose|j: int| 0 <= j < before.len() && def_key(#[trigger] before[j]) == k;
                            assert(def_key(self.entries@[j]) == k);
                        }
                    }
                    assert forall|a: int, b: int|
                        0 <= a < self.entries.len() && 0 <= b < self.entries.len() && a != b implies def_key(
                            #[trigger] self.entries@[a],
                        ) != def_key(#[trigger] self.entries@[b]) by {
                        if a < before.len() && b < before.len() {
                            assert(def_key(before[a]) != def_key(before[b]));
                        } else if a < before.len() {
                            assert(self.entries@[a] == before[a]);
                            assert(before.contains(before[a]));
                        }
                    }
                }
            },
        }
    }

    /// Removes every definition made in `block` and returns them ordered by
    /// ascending variable id.
    pub fn take_block(&mut self, block: BasicBlockId) -> (res: Vec<(DeclarationId, InstrId)>)
        requires
            old(self).wf(),
        ensures
            final(self).wf(),
            final(self)@ == old(self)@.remove_keys(
                Set::new(|k: (BasicBlockId, DeclarationId)| k.0 == block),
            ),
            forall|i: int, j: int| 0 <= i < j < res@.len() ==> (#[trigger] res@[i]).0.0 < (#[trigger] res@[j]).0.0,
            forall|i: int| 0 <= i < res@.len() ==> old(self)@.contains_key((block, (#[trigger] res@[i]).0))
                && old(self)@[(block, res@[i].0)] == res@[i].1,
            forall|v: DeclarationId| #[trigger] old(self)@.contains_key((block, v)) ==> exists|i: int|
                0 <= i < res@.len() && (#[trigger] res@[i]).0 == v,
    {
        let ghost orig = self@;
        let mut res: Vec<(DeclarationId, InstrId)> = Vec::new();
        loop
            invariant
                self.wf(),
                orig == old(self)@,
                forall|k: (BasicBlockId, DeclarationId)| k.0 != block ==> (#[trigger] self@.contains_key(k) == orig.contains_key(k)),
                forall|k: (BasicBlockId, DeclarationId)| self@.contains_key(k) ==> #[trigger] orig.contains_key(k) && self@[k] == orig[k],
                forall|i: int, j: int| 0 <= i < j < res@.len() ==> (#[trigger] res@[i]).0.0 < (#[trigger] res@[j]).0.0,
                forall|i: int| 0 <= i < res@.len() ==> orig.contains_key((block, (#[trigger] res@[i]).0))
                    && orig[(block, res@[i].0)] == res@[i].1,
                forall|i: int| 0 <= i < res@.len() ==> !self@.contains_key((block, (#[trigger] res@[i]).0)),
                forall|v: DeclarationId| #[trigger] orig.contains_key((block, v)) ==> self@.contains_key((block, v))
                    || exists|i: int| 0 <= i < res@.len() && (#[trigger] res@[i]).0 == v,
                forall|v: DeclarationId| #[trigger] self@.contains_key((block, v)) ==> (res@.len() == 0 || res@.last().0.0 < v.0),
            decreases self.entries.len(),
        {
            // Find the entry of `block` with the smallest variable id.
            let n = self.entries.len();
            let mut best: Option<usize> = None;
            let mut i: usize = 0;
            while i < n
                invariant
                    n == self.entries.len(),
                    i <= n,
                    match best {
                        Some(b) => b < i && self.entries@[b as int].block == block && forall|j: int|
                            0 <= j < i && (#[trigger] self.entries@[j]).block == block ==> self.entries@[b as int].var.0 <= self.entries@[j].var.0,
                        None => forall|j: int| 0 <= j < i ==> (#[trigger] self.entries@[j]).block != block,
                    },
                decreases n - i,
            {
                let e = self.entries[i];
                if e.block.0 == block.0 {
                    match best {
                        Some(b) => {
                            if e.var.0 < self.entries[b].var.0 {
                                best = Some(i);
                            }
                        },
                        None => {
                            best = Some(i);
                        },
                    }
                }
                i = i + 1;
            }
            match best {
                None => {
                    proof {
                        assert forall|v: DeclarationId| !#[trigger] self@.contains_key((block, v)) by {
                            if self@.contains_key((block, v)) {
                                let j = choose|j: int| 0 <= j < self.entries.len() && def_key(#[trigger] self.entries@[j]) == (block, v);
                                assert(self.entries@[j].block == block);
                            }
                        }
                        assert(self@ =~= orig.remove_keys(
                            Set::new(|k: (BasicBlockId, DeclarationId)| k.0 == block),
                        ));
                    }
                    return res;
                },
                Some(b) => {
                    let e = self.entries[b];
                    let ghost before = self.entries@;
                    let ghost before_map = self@;
                    let ghost old_res = res@;
                    let last = self.entries.len() - 1;
                    let moved = self.entries[last];
                    self.entries.set(b, moved);
                    self.entries.pop();
                    self.map = Ghost(self.map@.remove((block, e.var)));
                    res.push((e.var, e.value));
                    proof {
                        assert(before_map.contains_key(def_key(before[b as int])));
                        assert forall|j: int| 0 <= j < self.entries.len() implies {
                            &&& self.map@.contains_key(def_key(#[trigger] self.entries@[j]))
                            &&& self.map@[def_key(self.entries@[j])] == self.entries@[j].value
                        } by {
                            if j == b {
                                assert(self.entries@[j] == before[last as int]);
                                assert(def_key(before[last as int]) != def_key(before[b as int]));
                            } else {
                                assert(self.entries@[j] == before[j]);
                                assert(def_key(before[j]) != def_key(before[b as int]));
                            }
                        }
                        assert forall|k: (BasicBlockId, DeclarationId)| #[trigger] self.map@.contains_key(k) implies exists|j: int|
                            0 <= j < self.entries.len() && def_key(#[trigger] self.entries@[j]) == k by {
                            let j = choose|j: int| 0 <= j < before.len() && def_key(#[trigger] before[j]) == k;
                            if j == last {
                                assert(def_key(self.entries@[b as int]) == k);
                            } else {
                                assert(j != b);
                                assert(def_key(self.entries@[j]) == k);
                            }
                        }
                        assert forall|x: int, y: int|
                            0 <= x < self.entries.len() && 0 <= y < self.entries.len() && x != y implies def_key(
                                #[trigger] self.entries@[x],
                            ) != def_key(#[trigger] self.entries@[y]) by {
                            let ox = if x == b { last as int } else { x };
                            let oy = if y == b { last as int } else { y };
                            assert(self.entries@[x] == before[ox]);
                            assert(self.entries@[y] == before[oy]);
                        }
                        assert forall|v: DeclarationId| #[trigger] self@.contains_key((block, v)) implies (res@.len() == 0 || res@.last().0.0 < v.0) by {
                            let j = choose|j: int| 0 <= j < before.len() && def_key(#[trigger] before[j]) == (block, v);
                            assert(before[j].block == block);
                            assert(j != b);
                        }
                        assert forall|v: DeclarationId| #[trigger] orig.contains_key((block, v)) implies self@.contains_key((block, v))
                            || exists|i: int| 0 <= i < res@.len() && (#[trigger] res@[i]).0 == v by {
                            if v == e.var {
                                assert(res@[res@.len() - 1].0 == v);
                            } else if before_map.contains_key((block, v)) {
                                assert(self@.contains_key((block, v)));
                            } else {
                                let i = choose|i: int| 0 <= i < old_res.len() && (#[trigger] old_res[i]).0 == v;
                                assert(res@[i] == old_res[i]);
                            }
                        }
                    }
                },
            }
        }
    }
}

impl View for MemDefs {
    type V = Map<BasicBlockId, MemoryId>;

    closed spec fn view(&self) -> Map<BasicBlockId, MemoryId> {
        self.map@
    }
}

impl MemDefs {
    /// The entries and the map agree, and no block occurs twice.
    pub closed spec fn wf(&self) -> bool {
        &&& forall|i: int| 0 <= i < self.entries.len() ==> {
            &&& self.map@.contains_key((#[trigger] self.entries@[i]).block)
            &&& self.map@[self.entries@[i].block] == self.entries@[i].memory
        }
        &&& forall|k: BasicBlockId| #[trigger] self.map@.contains_key(k) ==> exists|i: int|
            0 <= i < self.entries.len() && (#[trigger] self.entries@[i]).block == k
        &&& forall|i: int, j: int|
            0 <= i < self.entries.len() && 0 <= j < self.entries.len() && i != j ==> (
            #[trigger] self.entries@[i]).block != (#[trigger] self.entries@[j]).block
    }

    pub fn new() -> (res: Self)
        ensures
            res.wf(),
            res@ == Map::<BasicBlockId, MemoryId>::empty(),
    {
        MemDefs { entries: Vec::new(), map: Ghost(Map::empty()) }
    }

    fn find(&self, block: BasicBlockId) -> (res: Option<usize>)
        requires
            self.wf(),
        ensures
            match res {
                Some(i) => i < self.entries.len() && self.entries@[i as int].block == block,
                None => !self@.contains_key(block),
            },
    {
        let n = self.entries.len();
        let mut i: usize = 0;
        while i < n
            invariant
                n == self.entries.len(),
                i <= n,
                forall|j: int| 0 <= j < i ==> (#[trigger] self.entries@[j]).block != block,
            decreases n - i,
        {
            let e = self.entries[i];
            if e.block.0 == block.0 {
                return Some(i);
            }
            i = i + 1;
        }
        None
    }

    /// The memory version recorded for `block`, if any.
    pub fn get(&self, block: BasicBlockId) -> (res: Option<MemoryId>)
        requires
            self.wf(),
        ensures
            res == self@.get(block),
    {
        match self.find(block) {
            Some(i) => {
                let e = self.entries[i];
                Some(e.memory)
            },
            None => None,
        }
    }

    /// Records `memory` as the version current at the end of `block`.
    pub fn insert(&mut self, block: BasicBlockId, memory: MemoryId)
        requires
            old(self).wf(),
        ensures
            final(self).wf(),
            final(self)@ == old(self)@.insert(block, memory),
    {
        let ghost new_map = self.map@.insert(block, memory);
        let ghost before = self.entries@;
        match self.find(block) {
            Some(i) => {
                self.entries.set(i, MemDef { block, memory });
                self.map = Ghost(new_map);
                proof {
                    assert forall|k: BasicBlockId| #[trigger] self.map@.contains_key(k) implies exists|j: int|
                        0 <= j < self.entries.len() && (#[trigger] self.entries@[j]).block == k by {
                        if k == block {
                            assert(self.entries@[i as int].block == k);
                        } else {
                            let j = choose|j: int| 0 <= j < before.len() && (#[trigger] before[j]).block == k;
                            assert(self.entries@[j].block == k);
                        }
                    }
                    assert forall|a: int, b: int|
                        0 <= a < self.entries.len() && 0 <= b < self.entries.len() && a != b implies (
                        #[trigger] self.entries@[a]).block != (#[trigger] self.entries@[b]).block by {
                        assert(before[a].block != before[b].block);
                    }
                }
            },
            None => {
                self.entries.push(MemDef { block, memory });
                self.map = Ghost(new_map);
                proof {
                    assert forall|k: BasicBlockId| #[trigger] self.map@.contains_key(k) implies exists|j: int|
                        0 <= j < self.entries.len() && (#[trigger] self.entries@[j]).block == k by {
                        if k == block {
                            assert(self.entries@[before.len() as int].block == k);
                        } else {
                            let j = choose|j: int| 0 <= j < before.len() && (#[trigger] before[j]).block == k;
                            assert(self.entries@[j].block == k);
                        }
                    }
                    assert forall|a: int, b: int|
                        0 <= a < self.entries.len() && 0 <= b < self.entries.len() && a != b implies (
                        #[trigger] self.entries@[a]).block != (#[trigger] self.entries@[b]).block by {
                        if a < before.len() && b < before.len() {
                            assert(before[a].block != before[b].block);
                        } else if a < before.len() {
                            assert(self.entries@[a] == before[a]);
                        }
                    }
                }
            },
        }
    }

    /// Removes the version recorded for `block` and returns it.
    pub fn remove(&mut self, block: BasicBlockId) -> (res: Option<MemoryId>)
        requires
            old(self).wf(),
        ensures
            final(self).wf(),
            res == old(self)@.get(block),
            final(self)@ == old(self)@.remove(block),
    {
        match self.find(block) {
            None => {
                assert(self@ =~= self@.remove(block));
                None
            },
            Some(b) => {
                let e = self.entries[b];
                let ghost before = self.entries@;
                let last = self.entries.len() - 1;
                let moved = self.entries[last];
                self.entries.set(b, moved);
                self.entries.pop();
                self.map = Ghost(self.map@.remove(block));
                proof {
                    assert forall|j: int| 0 <= j < self.entries.len() implies {
                        &&& self.map@.contains_key((#[trigger] self.entries@[j]).block)
                        &&& self.map@[self.entries@[j].block] == self.entries@[j].memory
                    } by {
                        if j == b {
                            assert(self.entries@[j] == before[last as int]);
                        } else {
                            assert(self.entries@[j] == before[j]);
                        }
                    }
                    assert forall|k: BasicBlockId| #[trigger] self.map@.contains_key(k) implies exists|j: int|
                        0 <= j < self.entries.len() && (#[trigger] self.entries@[j]).block == k by {
                        let j = choose|j: int| 0 <= j < before.len() && (#[trigger] before[j]).block == k;
                        if j == last {
                            assert(self.entries@[b as int].block == k);
                        } else {
                            assert(self.entries@[j].block == k);
                        }
                    }
                    assert forall|x: int, y: int|
                        0 <= x < self.entries.len() && 0 <= y < self.entries.len() && x != y implies (
                        #[trigger] self.entries@[x]).block != (#[trigger] self.entries@[y]).block by {
                        let ox = if x == b { last as int } else { x };
                        let oy = if y == b { last as int } else { y };
                        assert(self.entries@[x] == before[ox]);
                        assert(self.entries@[y] == before[oy]);
                    }
                }
                Some(e.memory)
            },
        }
    }
}

} // verus!
