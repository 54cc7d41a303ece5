pub mod key_event;
pub mod mouse_input_event;

use vstd::prelude::*;

verus! {

/// Whether a key or button went down or up.
#[derive(Debug, Clone, Copy, PartialEq, Eq, Structural)]
pub enum ElementState {
    Pressed,
    Released,
}

} // verus!
