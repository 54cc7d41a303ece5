use vstd::prelude::*;

verus! {

/// A collision found between bodies `body_i_idx` and `body_j_idx`, with what
/// the test reported of it.
pub struct CollisionGraphNode<I> {
    pub body_i_idx: usize,
    pub body_j_idx: usize,
    pub info: I,
}

/// The collisions found among one list of candidates, in the order in which
/// the pairs were tested.
pub struct CollisionGraph<I> {
    pub collisions: Vec<CollisionGraphNode<I>>,
}

} // verus!
