use vstd::prelude::*;

verus! {

/// A position into the dense array: a `u32` that is never `u32::MAX`.
///
/// The excluded value is reserved as the sentinel meaning "absent" in the
/// sparse array, so a real position must never need to represent it. This
/// caps the container at one entry fewer than the full `u32` range of
/// achievable dense length.
#[derive(Clone, Copy, Debug)]
pub struct DenseIndex {
    value: u32,
}

impl DenseIndex {
    /// The position this value stands for, as specifications see it.
    pub closed spec fn pos(self) -> u32 {
        self.value
    }

    #[verifier::type_invariant]
    spec fn sentinel_excluded(self) -> bool {
        self.value != u32::MAX
    }

    /// Wraps a position, refusing the reserved sentinel value.
    pub fn new(value: u32) -> (r: Option<DenseIndex>)
        ensures
            value != u32::MAX ==> (r matches Some(d) && d.pos() == value),
            value == u32::MAX ==> r is None,
    {
        if value != u32::MAX {
            Some(DenseIndex { value })
        } else {
            None
        }
    }

    /// The position as a plain integer, always below the sentinel.
    pub fn get(self) -> (r: u32)
        ensures
            r == self.pos(),
            r < u32::MAX,
    {
        proof {
            use_type_invariant(self);
        }
        self.value
    }
}

} // verus!
