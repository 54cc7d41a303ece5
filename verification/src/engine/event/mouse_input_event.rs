use vstd::prelude::*;

use super::ElementState;

verus! {

/// A mouse button press or release.
#[derive(Debug, Clone, Copy, PartialEq, Eq, Structural)]
pub struct MouseInputEvent {
    pub state: ElementState,
    pub button: MouseButton,
}

/// The mouse buttons the engine tells apart; any other button is `Unknown`.
#[derive(Debug, Clone, Copy, PartialEq, Eq, Structural)]
pub enum MouseButton {
    Unknown,
    Left,
    Middle,
    Right,
}

} // verus!
