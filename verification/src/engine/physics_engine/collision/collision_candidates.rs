use vstd::prelude::*;

verus! {

/// Indices of bodies that may collide and must be tested against each other.
#[derive(Debug)]
pub struct CollisionCandidates {
    pub indices: Vec<usize>,
}

impl CollisionCandidates {
    pub fn new(indices: Vec<usize>) -> (r: Self)
        ensures
            r.indices@ == indices@,
    {
        Self { indices }
    }

    pub fn len(&self) -> (r: usize)
        ensures
            r == self.indices@.len(),
    {
        self.indices.len()
    }
}

} // verus!
