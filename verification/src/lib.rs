//! A sparse-to-dense associative container keyed by small non-negative
//! integer identifiers.
//!
//! The container keeps two backing arrays: a sparse array mapping an
//! identifier's raw index to an optional dense position, and a dense array
//! holding the stored values contiguously. Insertion, lookup, containment
//! checks and bulk loading all run in constant (amortized) time, at the cost
//! of sparse-side memory proportional to the largest index ever inserted.

mod dense_index;
mod entity;
mod laws;
mod sparse_set;

pub use dense_index::DenseIndex;
pub use entity::Entity;
pub use laws::lemma_clear_resets;
pub use laws::lemma_idempotent_overwrite;
pub use laws::lemma_insert_all_props;
pub use laws::lemma_round_trip;
pub use sparse_set::index_in;
pub use sparse_set::insert_all;
pub use sparse_set::lemma_containment_consistency;
pub use sparse_set::EntitySparseSet;
