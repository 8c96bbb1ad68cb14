//! The pluggable backing store: raw slot access behind a capability trait.
//!
//! A backing store holds component values at integer slots without needing
//! every slot populated.  Its model is the partial map `contents` from slot
//! index to value.  The raw accessors are "unchecked" in the sense that
//! they carry no runtime liveness test of their own: each demands, as a
//! precondition, that the slot be live.  The container discharges that
//! obligation from its presence set, so a misuse that would be undefined
//! behaviour in a raw-memory store is a verification error here.

use vstd::prelude::*;

verus! {

/// Capability contract the container demands of a backing store.
pub trait RawStorage<C>: Sized {
    /// The values currently held, as a partial map from slot index.
    spec fn contents(&self) -> Map<u32, C>;

    /// A store with nothing in it.
    fn empty() -> (s: Self)
        ensures
            s.contents() == Map::<u32, C>::empty(),
    ;

    /// Reads the value at a live slot.
    fn raw_get(&self, idx: u32) -> (r: &C)
        requires
            self.contents().dom().contains(idx),
        ensures
            *r == self.contents()[idx],
    ;

    /// Borrows the value at a live slot exclusively.
    fn raw_get_mut(&mut self, idx: u32) -> (r: &mut C)
        requires
            old(self).contents().dom().contains(idx),
        ensures
            *r == old(self).contents()[idx],
            final(self).contents() =~= old(self).contents().insert(idx, *final(r)),
    ;

    /// Writes a value at a slot, initializing or overwriting it.  The
    /// container never writes outside the presence set's index bound, so
    /// a store may rely on that bound when sizing itself.
    fn raw_insert(&mut self, idx: u32, comp: C)
        requires
            idx <= crate::bits::MAX_INDEX,
        ensures
            final(self).contents() == old(self).contents().insert(idx, comp),
    ;

    /// Takes the value out of a live slot.
    fn raw_remove(&mut self, idx: u32) -> (r: C)
        requires
            old(self).contents().dom().contains(idx),
        ensures
            r == old(self).contents()[idx],
            final(self).contents() == old(self).contents().remove(idx),
    ;

    /// Releases every held value.  `present` is the authoritative presence
    /// set at the end of the container's life; a store of raw slots may
    /// walk it to find its live values, while a self-managing store may
    /// ignore it.
    ///
    /// The container calls this only from its explicit `cleanup`; on the
    /// plain drop path no presence set is handed over.  A store must
    /// therefore also release its values when it is simply dropped — a
    /// store whose slots own their values, as `DenseStorage`'s do, does
    /// so by construction — and must never *depend* on `clean` running
    /// first.
    fn clean(&mut self, present: &hibitset::BitSet)
        ensures
            final(self).contents() == Map::<u32, C>::empty(),
    ;
}

/// A dense backing store: a flat vector of slots, grown on demand, with
/// unoccupied slots empty.
pub struct DenseStorage<C> {
    slots: Vec<Option<C>>,
}

impl<C> RawStorage<C> for DenseStorage<C> {
    closed spec fn contents(&self) -> Map<u32, C> {
        Map::new(
            |i: u32| i < self.slots@.len() && self.slots@[i as int] is Some,
            |i: u32| self.slots@[i as int]->Some_0,
        )
    }

    fn empty() -> (s: Self)
        ensures
            s.contents() == Map::<u32, C>::empty(),
    {
        let s = DenseStorage { slots: Vec::new() };
        proof {
            assert(s.contents() =~= Map::<u32, C>::empty());
        }
        s
    }

    fn raw_get(&self, idx: u32) -> (r: &C) {
        match &self.slots[idx as usize] {
            Some(c) => c,
            None => vstd::pervasive::unreached(),
        }
    }

    fn raw_get_mut(&mut self, idx: u32) -> (r: &mut C) {
        let slot = &mut self.slots[idx as usize];
        match slot {
            Some(c) => c,
            None => vstd::pervasive::unreached(),
        }
    }

    fn raw_insert(&mut self, idx: u32, comp: C) {
        let i: usize = idx as usize;
        while self.slots.len() <= i
            invariant
                i == idx,
                self.slots@.len() >= old(self).slots@.len(),
                forall|k: int|
                    0 <= k < old(self).slots@.len() ==> self.slots@[k] == old(self).slots@[k],
                forall|k: int|
                    old(self).slots@.len() <= k < self.slots@.len() ==> self.slots@[k] is None,
            decreases i + 1 - self.slots@.len(),
        {
            self.slots.push(None);
        }
        let slot = &mut self.slots[i];
        *slot = Some(comp);
        proof {
            assert(self.contents() =~= old(self).contents().insert(idx, comp));
        }
    }

    fn raw_remove(&mut self, idx: u32) -> (r: C) {
        let slot = &mut self.slots[idx as usize];
        let taken = slot.take();
        proof {
            assert(self.contents() =~= old(self).contents().remove(idx));
        }
        match taken {
            Some(c) => c,
            None => vstd::pervasive::unreached(),
        }
    }

    fn clean(&mut self, _present: &hibitset::BitSet) {
        let n = self.slots.len();
        let mut k: usize = 0;
        while k < n
            invariant
                n == self.slots@.len(),
                k <= n,
                forall|j: int| 0 <= j < k ==> self.slots@[j] is None,
            decreases n - k,
        {
            let slot = &mut self.slots[k];
            *slot = None;
            k = k + 1;
        }
        proof {
            assert(self.contents() =~= Map::<u32, C>::empty());
        }
    }
}

} // verus!
