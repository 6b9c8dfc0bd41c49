//! Arena storage for level records.
//!
//! `Pool` is dense storage of mutable levels addressed by integer index, with
//! a free list for slot reuse: freeing pushes the slot's own index, and a
//! later allocation pops it back off. The pool never shrinks, and growth never
//! relocates live slots, so an index stays valid until the slot is freed.
//! `OidMap` is a flat index-keyed table of levels that grows on demand.

use vstd::prelude::*;

use crate::types::Level;
use crate::types::Price;
use crate::types::Qty;

verus! {

/// Dense indexed storage of level records with free-list reuse.
#[derive(Debug)]
pub struct Pool {
    allocated: Vec<Level>,
    free: Vec<usize>,
}

impl Pool {
    /// The stored records, slot by slot, freed slots included.
    pub closed spec fn slots(&self) -> Seq<Level> {
        self.allocated@
    }

    /// The indices of slots waiting for reuse, oldest first.
    pub closed spec fn free_list(&self) -> Seq<usize> {
        self.free@
    }

    /// Every reclaimed index names an existing slot.
    pub open spec fn wf(&self) -> bool {
        forall|i: int|
            0 <= i < self.free_list().len() ==> (#[trigger] self.free_list()[i])
                < self.slots().len()
    }

    pub fn new() -> (r: Self)
        ensures
            r.slots() =~= Seq::<Level>::empty(),
            r.free_list() =~= Seq::<usize>::empty(),
            r.wf(),
    {
        Pool { allocated: Vec::with_capacity(16), free: Vec::new() }
    }

    pub fn with_capacity(capacity: usize) -> (r: Self)
        ensures
            r.slots() =~= Seq::<Level>::empty(),
            r.free_list() =~= Seq::<usize>::empty(),
            r.wf(),
    {
        Pool { allocated: Vec::with_capacity(capacity), free: Vec::new() }
    }

    /// Direct mutable access to an allocated slot. An index out of bounds is a
    /// desynchronization fault, which the callers' invariants rule out.
    pub fn get(&mut self, idx: usize) -> (element: &mut Level)
        requires
            idx < old(self).slots().len(),
        ensures
            *element == old(self).slots()[idx as int],
            final(self).slots() == old(self).slots().update(idx as int, *final(element)),
            final(self).free_list() == old(self).free_list(),
    {
        &mut self.allocated[idx]
    }

    /// Read-only access to an allocated slot.
    pub fn read(&self, idx: usize) -> (element: &Level)
        requires
            idx < self.slots().len(),
        ensures
            *element == self.slots()[idx as int],
    {
        &self.allocated[idx]
    }

    /// Returns a free slot: the most recently reclaimed index if one waits,
    /// else a fresh slot pre-filled with the default level. Existing slots
    /// keep their indices.
    pub fn allocate(&mut self) -> (idx: usize)
        requires
            old(self).wf(),
            old(self).slots().len() < usize::MAX,
        ensures
            idx < final(self).slots().len(),
            final(self).wf(),
            old(self).free_list().len() == 0 ==> {
                &&& idx == old(self).slots().len()
                &&& final(self).slots() == old(self).slots().push(
                    (Level { price: Price(0), qty: Qty(0) }),
                )
                &&& final(self).free_list() == old(self).free_list()
            },
            old(self).free_list().len() > 0 ==> {
                &&& idx == old(self).free_list().last()
                &&& final(self).slots() == old(self).slots()
                &&& final(self).free_list() == old(self).free_list().drop_last()
            },
    {
        if self.free.is_empty() {
            let idx = self.allocated.len();
            self.allocated.push(Level::default());
            idx
        } else {
            let idx = self.free.pop().unwrap();
            idx
        }
    }

    /// An independent copy of the whole arena, slot for slot.
    pub fn snapshot(&self) -> (r: Pool)
        ensures
            r.slots() == self.slots(),
            r.free_list() == self.free_list(),
    {
        let allocated = self.allocated.clone();
        let free = self.free.clone();
        proof {
            assert(allocated@ =~= self.allocated@);
            assert(free@ =~= self.free@);
        }
        Pool { allocated, free }
    }

    /// How many slots the arena holds, live and freed together.
    pub fn size(&self) -> (n: usize)
        ensures
            n == self.slots().len(),
    {
        self.allocated.len()
    }

    /// Returns a slot to the free list for reuse: the index itself is pushed,
    /// and nothing in the slot storage moves.
    pub fn free(&mut self, idx: usize)
        requires
            idx < old(self).slots().len(),
        ensures
            final(self).slots() == old(self).slots(),
            final(self).free_list() == old(self).free_list().push(idx),
            old(self).wf() ==> final(self).wf(),
    {
        self.free.push(idx);
    }
}

/// A flat table of levels keyed by a dense integer id, growing on demand.
/// Ids past the filled range read as the default level after an insert
/// stretched the table over them.
#[derive(Debug)]
pub struct OidMap {
    data: Vec<Level>,
}

impl OidMap {
    /// The stored records, id by id.
    pub closed spec fn entries(&self) -> Seq<Level> {
        self.data@
    }

    pub fn new() -> (r: Self)
        ensures
            r.entries() =~= Seq::<Level>::empty(),
    {
        OidMap { data: Vec::new() }
    }

    /// Stores `value` under `oid`, stretching the table with default levels
    /// if `oid` lies past its end. Other ids keep their records.
    pub fn insert(&mut self, oid: usize, value: Level)
        requires
            oid < usize::MAX,
        ensures
            final(self).entries().len() == if oid < old(self).entries().len() {
                old(self).entries().len() as int
            } else {
                oid + 1
            },
            final(self).entries()[oid as int] == value,
            forall|j: int|
                0 <= j < final(self).entries().len() && j != oid
                    ==> #[trigger] final(self).entries()[j] == if j < old(
                    self,
                ).entries().len() {
                    old(self).entries()[j]
                } else {
                    (Level { price: Price(0), qty: Qty(0) })
                },
    {
        if oid >= self.data.len() {
            while self.data.len() <= oid
                invariant
                    oid < usize::MAX,
                    old(self).entries().len() <= self.data@.len(),
                    self.data@.len() <= oid + 1,
                    forall|j: int|
                        0 <= j < self.data@.len() ==> #[trigger] self.data@[j] == if j < old(
                            self,
                        ).entries().len() {
                            old(self).entries()[j]
                        } else {
                            (Level { price: Price(0), qty: Qty(0) })
                        },
                decreases oid + 1 - self.data@.len(),
            {
                self.data.push(Level::default());
            }
        }
        self.data[oid] = value;
    }

    /// The record stored under `oid`.
    pub fn get(&self, oid: usize) -> (r: &Level)
        requires
            oid < self.entries().len(),
        ensures
            *r == self.entries()[oid as int],
    {
        &self.data[oid]
    }

    /// Removes the record under `oid`; records past it shift down by one.
    pub fn remove(&mut self, oid: usize)
        requires
            oid < old(self).entries().len(),
        ensures
            final(self).entries() == old(self).entries().remove(oid as int),
    {
        self.data.remove(oid);
    }
}

} // verus!
