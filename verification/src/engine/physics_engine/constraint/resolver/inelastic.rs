use vstd::prelude::*;

verus! {

/// Resolves a body crossing a wall as a collision with a wall of very large
/// mass: the body is moved back inside and bounces off.
pub struct InelasticConstraintResolver {}

impl InelasticConstraintResolver {
    pub fn new() -> Self {
        Self {}
    }
}

} // verus!
