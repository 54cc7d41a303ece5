use vstd::prelude::*;

verus! {

/// A collision handler that reports no collision and changes no body.
pub struct IdentityCollisionSolver {}

impl IdentityCollisionSolver {
    pub fn new() -> Self {
        Self {}
    }
}

} // verus!
