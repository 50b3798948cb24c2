use vstd::prelude::*;

verus! {

/// An opaque entity key. The only capability the container relies on is the
/// extraction of a raw non-negative integer index used for sparse
/// addressing; no ordering or hashing is required.
#[derive(Clone, Copy, Debug, PartialEq, Eq, Structural)]
pub struct Entity {
    index: u32,
}

impl Entity {
    /// The raw index of this entity, as specifications see it.
    pub closed spec fn raw_index(self) -> u32 {
        self.index
    }

    /// Builds an entity from its raw index.
    pub fn from_raw(index: u32) -> (e: Entity)
        ensures
            e.raw_index() == index,
    {
        Entity { index }
    }

    /// Extracts the raw index used for sparse addressing.
    #[verifier::when_used_as_spec(raw_index)]
    pub fn index(self) -> (i: u32)
        ensures
            i == self.raw_index(),
    {
        self.index
    }
}

} // verus!
