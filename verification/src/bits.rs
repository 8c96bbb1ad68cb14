//! Trusted boundary around `hibitset::BitSet`, the presence set.
//!
//! The container only ever asks a few things of the presence set: make an
//! empty one, test a bit, flip a bit on or off while reporting its prior
//! state, wipe the whole set, and list the set bits in ascending order.
//! Each is a thin wrapper here, specified over the abstract contents
//! `bits_of`.

use vstd::prelude::*;

verus! {

#[verifier::external_type_specification]
#[verifier::external_body]
pub struct ExBitSet(hibitset::BitSet);

/// The set of indices a `hibitset::BitSet` currently holds.
///
/// `hibitset` keeps its members in a hierarchy of bit masks; this names the
/// abstract contents of that structure, so that contracts can speak of
/// membership without restating the layout.
pub uninterp spec fn bits_of(b: hibitset::BitSet) -> Set<u32>;

/// Largest index that may always be added to the presence set.
///
/// `hibitset`'s hierarchy represents indices strictly below `usize**4`:
/// `2^20` of them on targets whose `usize` has 32 bits, `2^24` on 64-bit
/// targets.  Its guard panics only *above* that count, so it accepts the
/// count itself as an index — but on a 32-bit target the summary layers
/// wrap for that one value and iteration goes wrong, so the bound safe on
/// every target is `2^20 - 1`.
pub const MAX_INDEX: u32 = 0xF_FFFF;

/// Relies on `hibitset::BitSet::new`: the new set is empty.
#[verifier::external_body]
pub(crate) fn bitset_new() -> (b: hibitset::BitSet)
    ensures
        bits_of(b) == Set::<u32>::empty(),
{
    hibitset::BitSet::new()
}

/// Relies on `hibitset::BitSet::contains`: reports membership and never
/// panics, whatever the index.
#[verifier::external_body]
pub(crate) fn bitset_contains(b: &hibitset::BitSet, id: u32) -> (r: bool)
    ensures
        r == bits_of(*b).contains(id),
{
    b.contains(id)
}

/// Relies on `hibitset::BitSet::add`: sets the bit for `id`, growing the
/// layers as needed, and returns whether it was already set.  The
/// precondition keeps `id` strictly inside the hierarchy's range on every
/// target: higher indices either panic in `hibitset`'s guard or, at the
/// 32-bit boundary value, alias a summary bit and corrupt iteration.
#[verifier::external_body]
pub(crate) fn bitset_add(b: &mut hibitset::BitSet, id: u32) -> (r: bool)
    requires
        id <= MAX_INDEX,
    ensures
        bits_of(*final(b)) == bits_of(*old(b)).insert(id),
        r == bits_of(*old(b)).contains(id),
{
    b.add(id)
}

/// Relies on `hibitset::BitSet::remove`: clears the bit for `id` and
/// returns whether it was set; on an absent index it returns early without
/// touching the set, and it never panics.
#[verifier::external_body]
pub(crate) fn bitset_remove(b: &mut hibitset::BitSet, id: u32) -> (r: bool)
    ensures
        bits_of(*final(b)) == bits_of(*old(b)).remove(id),
        r == bits_of(*old(b)).contains(id),
        !bits_of(*old(b)).contains(id) ==> *final(b) == *old(b),
{
    b.remove(id)
}

/// Relies on `hibitset::BitSet::clear`: wipes the whole set.
#[verifier::external_body]
pub(crate) fn bitset_clear(b: &mut hibitset::BitSet)
    ensures
        bits_of(*final(b)) == Set::<u32>::empty(),
{
    b.clear()
}

/// Relies on `hibitset::BitSetLike::iter` for `&BitSet`: the iterator walks
/// the hierarchy from the lowest set bit upward, so it yields each member
/// exactly once, in ascending order.
#[verifier::external_body]
pub(crate) fn bitset_elements(b: &hibitset::BitSet) -> (v: Vec<u32>)
    ensures
        forall|k: int, l: int| 0 <= k < l < v@.len() ==> v@[k] < v@[l],
        forall|k: int| 0 <= k < v@.len() ==> bits_of(*b).contains(#[trigger] v@[k]),
        forall|id: u32| #[trigger] bits_of(*b).contains(id) ==> v@.contains(id),
{
    hibitset::BitSetLike::iter(b).collect()
}

} // verus!
