//! Component storage addressed by caller-managed, dense integer identifiers.
//!
//! Where a grid of tiles or another static index space is known up front,
//! a general entity allocator with generations and a free list is needless
//! cost.  This crate keeps, per component type, one presence set (a
//! `hibitset::BitSet`) beside a pluggable backing store, and maintains one
//! invariant: an index is in the presence set exactly when the backing
//! store holds a value at that index.  Every public operation is specified
//! and verified against a `Map<u32, C>` model of the container.

mod backing;
mod bits;
mod ident;
mod storage;

pub use backing::DenseStorage;
pub use backing::RawStorage;
pub use bits::bits_of;
pub use bits::MAX_INDEX;
pub use ident::Id;
pub use storage::lemma_insert_replaces;
pub use storage::lemma_presence;
pub use storage::lemma_remove_absent;
pub use storage::lemma_round_trip;
pub use storage::lemma_seed_override_counts;
pub use storage::read_join;
pub use storage::read_join2;
pub use storage::write_join;
pub use storage::Storage;
