use vstd::prelude::*;

verus! {

/// Leaves a body crossing a wall where it is.
pub struct NoneConstraintResolver {}

impl NoneConstraintResolver {
    pub fn new() -> Self {
        Self {}
    }
}

} // verus!
