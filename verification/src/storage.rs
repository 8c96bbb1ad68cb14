//! The indexed storage container: one presence set beside one backing
//! store.
//!
//! The container's model is the partial map from slot index to component
//! value (`self@`), and its one invariant — `well_formed` — is that the
//! presence set holds an index exactly when the backing store holds a
//! value there.  Every externally reachable operation consults the
//! presence set before touching the store, so the store's unchecked
//! accessors are only ever reached with their liveness precondition
//! discharged.

use core::marker::PhantomData;
use vstd::prelude::*;

use crate::backing::RawStorage;
use crate::bits::bits_of;
use crate::bits::bitset_add;
use crate::bits::bitset_clear;
use crate::bits::bitset_elements;
use crate::bits::bitset_contains;
use crate::bits::bitset_new;
use crate::bits::bitset_remove;
use crate::bits::MAX_INDEX;
use crate::ident::Id;

verus! {

/// A storage for components addressed by an [`Id`] rather than by an
/// allocated entity handle.  `C` is the component type, `D` the backing
/// store, and `I` the identifier type of the index space; many such
/// containers may coexist, one per component type, each independent.
pub struct Storage<C, D: RawStorage<C>, I: Id> {
    pub(crate) data: D,
    pub(crate) bitset: hibitset::BitSet,
    pub(crate) phantom: PhantomData<(C, I)>,
}

impl<C, D: RawStorage<C>, I: Id> View for Storage<C, D, I> {
    type V = Map<u32, C>;

    /// The abstract contents: which slot indices hold which value.
    closed spec fn view(&self) -> Map<u32, C> {
        self.data.contents()
    }
}

impl<C, D: RawStorage<C>, I: Id> Storage<C, D, I> {
    /// The presence invariant: an index is in the presence set exactly
    /// when the backing store holds a value at it, and every held index
    /// is within the presence set's own bound.  Every constructor
    /// establishes this and every operation preserves it; it is what
    /// lets a presence check stand in for the store's own liveness
    /// precondition.
    pub closed spec fn well_formed(&self) -> bool {
        &&& bits_of(self.bitset) =~= self.data.contents().dom()
        &&& forall|i: u32| self.data.contents().dom().contains(i) ==> i <= MAX_INDEX
    }

    /// Tries to retrieve a component by its `Id`.  This only checks
    /// whether a component is inserted, without any liveness check for
    /// the id itself.
    pub fn get(&self, id: I) -> (r: Option<&C>)
        requires
            self.well_formed(),
        ensures
            match r {
                Some(c) => self@.dom().contains(id.index()) && *c == self@[id.index()],
                None => !self@.dom().contains(id.index()),
            },
    {
        let idx: u32 = id.id();
        if bitset_contains(&self.bitset, idx) {
            Some(self.data.raw_get(idx))
        } else {
            None
        }
    }

    /// Tries to retrieve a component mutably by its `Id`.  The returned
    /// borrow is exclusive; whatever the caller writes through it is what
    /// the container holds at that identifier afterwards.
    pub fn get_mut(&mut self, id: I) -> (r: Option<&mut C>)
        requires
            old(self).well_formed(),
        ensures
            final(self).well_formed(),
            match r {
                Some(m) => old(self)@.dom().contains(id.index()) && *m == old(self)@[id.index()]
                    && final(self)@ =~= old(self)@.insert(id.index(), *final(m)),
                None => !old(self)@.dom().contains(id.index()) && *final(self) == *old(self),
            },
    {
        let idx: u32 = id.id();
        if bitset_contains(&self.bitset, idx) {
            Some(self.data.raw_get_mut(idx))
        } else {
            None
        }
    }

    /// Inserts `comp` at `id`; if a value was already there, it is
    /// handed back.  In contrast to entities, **there are no invalid
    /// ids**, only the presence set's own index bound.
    pub fn insert(&mut self, id: I, comp: C) -> (r: Option<C>)
        requires
            old(self).well_formed(),
            id.index() <= MAX_INDEX,
        ensures
            final(self).well_formed(),
            final(self)@ == old(self)@.insert(id.index(), comp),
            r == (if old(self)@.dom().contains(id.index()) {
                Some(old(self)@[id.index()])
            } else {
                None::<C>
            }),
    {
        let idx: u32 = id.id();
        let prev = match bitset_add(&mut self.bitset, idx) {
            true => Some(self.data.raw_remove(idx)),
            false => None,
        };
        self.data.raw_insert(idx, comp);
        proof {
            assert(self@ =~= old(self)@.insert(id.index(), comp));
        }
        prev
    }

    /// Removes and returns the component at `id`; on an identifier that
    /// holds nothing this is a no-op that leaves the container untouched.
    pub fn remove(&mut self, id: I) -> (r: Option<C>)
        requires
            old(self).well_formed(),
        ensures
            final(self).well_formed(),
            final(self)@ == old(self)@.remove(id.index()),
            r == (if old(self)@.dom().contains(id.index()) {
                Some(old(self)@[id.index()])
            } else {
                None::<C>
            }),
            !old(self)@.dom().contains(id.index()) ==> *final(self) == *old(self),
    {
        let idx: u32 = id.id();
        let r = match bitset_remove(&mut self.bitset, idx) {
            true => Some(self.data.raw_remove(idx)),
            false => None,
        };
        proof {
            assert(self@ =~= old(self)@.remove(id.index()));
        }
        r
    }

    /// The read half of the iteration protocol's "open": the presence
    /// set and the backing store, side by side.  The store's raw
    /// accessors demand liveness as a precondition, so a holder of this
    /// pair can only reach slots the presence set first shows live —
    /// which is exactly the intersect-then-visit discipline the join
    /// drivers below follow.
    pub fn open(&self) -> (r: (&hibitset::BitSet, &D))
        requires
            self.well_formed(),
        ensures
            bits_of(*r.0) =~= self@.dom(),
            r.1.contents() == self@,
    {
        (&self.bitset, &self.data)
    }

    /// The cleanup pass at the end of the container's life: hands the
    /// backing store the authoritative presence set so it can release
    /// exactly the live slots, then resets the presence set.  A backing
    /// store whose slots own their values also releases them when the
    /// container is simply dropped; a caller holding such a store may
    /// rely on either path.
    pub fn cleanup(&mut self)
        requires
            old(self).well_formed(),
        ensures
            final(self).well_formed(),
            final(self)@ == Map::<u32, C>::empty(),
    {
        self.data.clean(&self.bitset);
        bitset_clear(&mut self.bitset);
    }
}

impl<C, D: RawStorage<C>, I: Id> Default for Storage<C, D, I> {
    /// A fresh container: empty presence set, empty backing store.
    fn default() -> (s: Self)
        ensures
            s.well_formed(),
            s@ == Map::<u32, C>::empty(),
    {
        let s = Storage { data: D::empty(), bitset: bitset_new(), phantom: PhantomData };
        proof {
            assert(s.data.contents().dom() =~= Set::<u32>::empty());
        }
        s
    }
}

/// A full read pass over one storage: every present index in ascending
/// order, each paired with a read borrow of its value.  The per-slot
/// access is the store's unchecked `raw_get`; it is safe here because
/// membership in the presence set was just established for exactly the
/// indices visited.
pub fn read_join<'a, C, D: RawStorage<C>, I: Id>(s: &'a Storage<C, D, I>) -> (r: Vec<
    (u32, &'a C),
>)
    requires
        s.well_formed(),
    ensures
        forall|k: int, l: int| 0 <= k < l < r@.len() ==> r@[k].0 < r@[l].0,
        forall|k: int|
            0 <= k < r@.len() ==> s@.dom().contains(#[trigger] r@[k].0) && *r@[k].1 == s@[r@[k].0],
        forall|i: u32| #[trigger] s@.dom().contains(i) ==> exists|k: int|
            0 <= k < r@.len() && (#[trigger] r@[k]).0 == i,
{
    let ids = bitset_elements(&s.bitset);
    let mut out: Vec<(u32, &'a C)> = Vec::new();
    let mut k: usize = 0;
    while k < ids.len()
        invariant
            s.well_formed(),
            k <= ids@.len(),
            out@.len() == k,
            forall|j: int, l: int| 0 <= j < l < ids@.len() ==> ids@[j] < ids@[l],
            forall|j: int| 0 <= j < ids@.len() ==> bits_of(s.bitset).contains(#[trigger] ids@[j]),
            forall|j: int| 0 <= j < k ==> (#[trigger] out@[j]).0 == ids@[j],
            forall|j: int| 0 <= j < k ==> *(#[trigger] out@[j]).1 == s@[ids@[j]],
        decreases ids@.len() - k,
    {
        let i: u32 = ids[k];
        let c: &'a C = s.data.raw_get(i);
        out.push((i, c));
        k = k + 1;
    }
    proof {
        assert forall|i: u32| #[trigger] s@.dom().contains(i) implies exists|k0: int|
            0 <= k0 < out@.len() && (#[trigger] out@[k0]).0 == i by {
            assert(bits_of(s.bitset).contains(i));
            assert(ids@.contains(i));
            let j = choose|j: int| 0 <= j < ids@.len() && ids@[j] == i;
            assert(out@[j].0 == i);
        }
    }
    out
}

/// A read join over two storages sharing one index space: visits exactly
/// the identifiers present in both, in ascending order, yielding paired
/// read borrows of the two values.
pub fn read_join2<'a, C1, D1, C2, D2, I>(
    a: &'a Storage<C1, D1, I>,
    b: &'a Storage<C2, D2, I>,
) -> (r: Vec<(u32, &'a C1, &'a C2)>) where D1: RawStorage<C1>, D2: RawStorage<C2>, I: Id
    requires
        a.well_formed(),
        b.well_formed(),
    ensures
        forall|k: int, l: int| 0 <= k < l < r@.len() ==> r@[k].0 < r@[l].0,
        forall|k: int|
            0 <= k < r@.len() ==> {
                &&& a@.dom().contains(#[trigger] r@[k].0)
                &&& b@.dom().contains(r@[k].0)
                &&& *r@[k].1 == a@[r@[k].0]
                &&& *r@[k].2 == b@[r@[k].0]
            },
        forall|i: u32|
            #[trigger] a@.dom().contains(i) && #[trigger] b@.dom().contains(i) ==> exists|k: int|
                0 <= k < r@.len() && (#[trigger] r@[k]).0 == i,
{
    let ids = bitset_elements(&a.bitset);
    let mut out: Vec<(u32, &'a C1, &'a C2)> = Vec::new();
    let mut k: usize = 0;
    while k < ids.len()
        invariant
            a.well_formed(),
            b.well_formed(),
            k <= ids@.len(),
            forall|j: int, l: int| 0 <= j < l < ids@.len() ==> ids@[j] < ids@[l],
            forall|j: int| 0 <= j < ids@.len() ==> bits_of(a.bitset).contains(#[trigger] ids@[j]),
            forall|l: int|
                0 <= l < out@.len() ==> exists|j: int|
                    0 <= j < k && (#[trigger] out@[l]).0 == ids@[j],
            forall|l1: int, l2: int| 0 <= l1 < l2 < out@.len() ==> out@[l1].0 < out@[l2].0,
            forall|l: int|
                0 <= l < out@.len() ==> {
                    &&& a@.dom().contains((#[trigger] out@[l]).0)
                    &&& b@.dom().contains(out@[l].0)
                    &&& *out@[l].1 == a@[out@[l].0]
                    &&& *out@[l].2 == b@[out@[l].0]
                },
            forall|j: int|
                0 <= j < k && b@.dom().contains(#[trigger] ids@[j]) ==> exists|l: int|
                    0 <= l < out@.len() && (#[trigger] out@[l]).0 == ids@[j],
        decreases ids@.len() - k,
    {
        let i: u32 = ids[k];
        let present = bitset_contains(&b.bitset, i);
        if present {
            proof {
                assert forall|l: int| 0 <= l < out@.len() implies out@[l].0 < i by {
                    let j = choose|j: int| 0 <= j < k && out@[l].0 == ids@[j];
                    assert(ids@[j] < ids@[k as int]);
                }
            }
            let ghost out0 = out@;
            let c1: &'a C1 = a.data.raw_get(i);
            let c2: &'a C2 = b.data.raw_get(i);
            out.push((i, c1, c2));
            proof {
                assert forall|j: int|
                    0 <= j < k + 1 && b@.dom().contains(#[trigger] ids@[j]) implies exists|l: int|
                    0 <= l < out@.len() && (#[trigger] out@[l]).0 == ids@[j] by {
                    if j == k {
                        assert(out@[out@.len() - 1].0 == ids@[j]);
                    } else {
                        let l0 = choose|l0: int|
                            0 <= l0 < out0.len() && (#[trigger] out0[l0]).0 == ids@[j];
                        assert(out@[l0].0 == ids@[j]);
                    }
                }
            }
        } else {
            proof {
                assert(!b@.dom().contains(ids@[k as int]));
            }
        }
        k = k + 1;
    }
    proof {
        assert forall|i: u32|
            #[trigger] a@.dom().contains(i) && #[trigger] b@.dom().contains(i) implies exists|
            k0: int,
        |
            0 <= k0 < out@.len() && (#[trigger] out@[k0]).0 == i by {
            assert(bits_of(a.bitset).contains(i));
            assert(ids@.contains(i));
            let j = choose|j: int| 0 <= j < ids@.len() && ids@[j] == i;
        }
    }
    out
}

/// A write pass over one storage: visits every present identifier in
/// ascending order exactly once and replaces the value there by
/// `f(index, value)`.  The pass holds the one exclusive borrow of the
/// whole storage and narrows it to a single slot per visit; the
/// ascending visitation order is what guarantees no slot is touched
/// twice within the pass.
pub fn write_join<C, D: RawStorage<C>, I: Id, F: Fn(u32, C) -> C>(
    s: &mut Storage<C, D, I>,
    f: F,
)
    requires
        old(s).well_formed(),
        forall|i: u32|
            #[trigger] old(s)@.dom().contains(i) ==> call_requires(f, (i, old(s)@[i])),
    ensures
        final(s).well_formed(),
        final(s)@.dom() =~= old(s)@.dom(),
        forall|i: u32|
            #[trigger] old(s)@.dom().contains(i) ==> call_ensures(
                f,
                (i, old(s)@[i]),
                final(s)@[i],
            ),
{
    let ids = bitset_elements(&s.bitset);
    let n: usize = ids.len();
    let mut k: usize = 0;
    while k < n
        invariant
            n == ids@.len(),
            k <= n,
            s.bitset == old(s).bitset,
            s.well_formed(),
            old(s).well_formed(),
            s@.dom() =~= old(s)@.dom(),
            forall|i: u32|
                #[trigger] old(s)@.dom().contains(i) ==> call_requires(f, (i, old(s)@[i])),
            forall|j: int, l: int| 0 <= j < l < ids@.len() ==> ids@[j] < ids@[l],
            forall|j: int|
                0 <= j < ids@.len() ==> bits_of(old(s).bitset).contains(#[trigger] ids@[j]),
            forall|i: u32| #[trigger] bits_of(old(s).bitset).contains(i) ==> ids@.contains(i),
            forall|j: int|
                0 <= j < k ==> call_ensures(
                    f,
                    (ids@[j], old(s)@[ids@[j]]),
                    s@[#[trigger] ids@[j]],
                ),
            forall|j: int| k <= j < ids@.len() ==> s@[#[trigger] ids@[j]] == old(s)@[ids@[j]],
        decreases n - k,
    {
        let i: u32 = ids[k];
        let c: C = s.data.raw_remove(i);
        let c2: C = f(i, c);
        s.data.raw_insert(i, c2);
        proof {
            assert(s@.dom() =~= old(s)@.dom());
            assert forall|j: int| k + 1 <= j < ids@.len() implies s@[#[trigger] ids@[j]] == old(
                s,
            )@[ids@[j]] by {
                assert(ids@[j] != ids@[k as int]);
            }
        }
        k = k + 1;
    }
    proof {
        assert forall|i: u32| #[trigger] old(s)@.dom().contains(i) implies call_ensures(
            f,
            (i, old(s)@[i]),
            s@[i],
        ) by {
            assert(bits_of(old(s).bitset).contains(i));
            assert(ids@.contains(i));
            let j = choose|j: int| 0 <= j < ids@.len() && ids@[j] == i;
            assert(call_ensures(f, (ids@[j], old(s)@[ids@[j]]), s@[ids@[j]]));
        }
    }
}

/// A lookup finds a value at an identifier exactly when an insert there
/// has not since been undone by a remove: inserting puts the identifier
/// in the model's domain, removing takes it out, and operations at any
/// other identifier leave it untouched.  Together with the exact `get`,
/// `insert` and `remove` contracts above, this pins down presence across
/// any operation sequence.
pub proof fn lemma_presence<C>(m: Map<u32, C>, i: u32, j: u32, v: C)
    ensures
        m.insert(i, v).dom().contains(i),
        !m.remove(i).dom().contains(i),
        i != j ==> m.insert(j, v).dom().contains(i) == m.dom().contains(i),
        i != j ==> m.remove(j).dom().contains(i) == m.dom().contains(i),
{
}

/// Inserting twice at one identifier: the container afterwards holds the
/// second value, and the second insert hands back the first value, which
/// is what the first insert left at that identifier.
pub proof fn lemma_insert_replaces<C>(m: Map<u32, C>, i: u32, v1: C, v2: C)
    ensures
        m.insert(i, v1)[i] == v1,
        m.insert(i, v1).dom().contains(i),
        m.insert(i, v1).insert(i, v2) =~= m.insert(i, v2),
        m.insert(i, v1).insert(i, v2)[i] == v2,
{
}

/// Removing an identifier that was never inserted changes nothing in the
/// model; the executable `remove` contract sharpens this to "the whole
/// container is left untouched".
pub proof fn lemma_remove_absent<C>(m: Map<u32, C>, i: u32)
    ensures
        !m.dom().contains(i) ==> m.remove(i) =~= m,
{
}

/// Round trip: after an insert, removing the same identifier hands that
/// very value back, and a lookup then finds nothing there.
pub proof fn lemma_round_trip<C>(m: Map<u32, C>, i: u32, v: C)
    ensures
        m.insert(i, v)[i] == v,
        m.insert(i, v).dom().contains(i),
        !m.insert(i, v).remove(i).dom().contains(i),
        !m.dom().contains(i) ==> m.insert(i, v).remove(i) =~= m,
{
}

/// Taking a subset out of a finite set leaves exactly the set's size
/// less the subset's.
proof fn lemma_len_difference_subset<A>(s: Set<A>, a: Set<A>)
    requires
        s.finite(),
        a.subset_of(s),
    ensures
        s.difference(a).len() == s.len() - a.len(),
    decreases a.len(),
{
    vstd::set_lib::lemma_len_subset(a, s);
    if a.is_empty() {
        assert(s.difference(a) =~= s);
    } else {
        let x = a.choose();
        assert(a.contains(x));
        assert(s.difference(a) =~= s.remove(x).difference(a.remove(x)));
        assert(a.remove(x).subset_of(s.remove(x)));
        lemma_len_difference_subset(s.remove(x), a.remove(x));
    }
}

/// The seeded-grid counting law: over a finite identifier set, every
/// identifier holding one seed value except two disjoint groups
/// overridden with two other distinct values, the container holds the
/// first override at exactly the first group, the second at exactly the
/// second, and the seed at exactly the rest — so the counts are the
/// group sizes and the total less both groups.  A full read pass visits
/// exactly the domain with the stored values, so these are also the
/// counts such a pass reports.
pub proof fn lemma_seed_override_counts<C>(
    m: Map<u32, C>,
    first: Set<u32>,
    second: Set<u32>,
    seed: C,
    v1: C,
    v2: C,
)
    requires
        m.dom().finite(),
        first.subset_of(m.dom()),
        second.subset_of(m.dom()),
        first.disjoint(second),
        seed != v1,
        seed != v2,
        v1 != v2,
        forall|i: u32| #[trigger] first.contains(i) ==> m[i] == v1,
        forall|i: u32| #[trigger] second.contains(i) ==> m[i] == v2,
        forall|i: u32|
            #[trigger] m.dom().contains(i) && !first.contains(i) && !second.contains(i)
                ==> m[i] == seed,
    ensures
        m.dom().filter(|i: u32| m[i] == v1) =~= first,
        m.dom().filter(|i: u32| m[i] == v2) =~= second,
        m.dom().filter(|i: u32| m[i] == seed) =~= m.dom().difference(first).difference(second),
        m.dom().filter(|i: u32| m[i] == v1).len() == first.len(),
        m.dom().filter(|i: u32| m[i] == v2).len() == second.len(),
        m.dom().filter(|i: u32| m[i] == seed).len() == m.dom().len() - first.len()
            - second.len(),
{
    assert(m.dom().filter(|i: u32| m[i] == v1) =~= first);
    assert(m.dom().filter(|i: u32| m[i] == v2) =~= second);
    assert(m.dom().filter(|i: u32| m[i] == seed) =~= m.dom().difference(first).difference(
        second,
    ));
    lemma_len_difference_subset(m.dom(), first);
    vstd::set_lib::lemma_len_subset(m.dom().difference(first), m.dom());
    assert(second.subset_of(m.dom().difference(first)));
    lemma_len_difference_subset(m.dom().difference(first), second);
}

} // verus!
