use vstd::prelude::*;

use super::ElementState;

verus! {

/// A key press or release, with whether the key is held down and repeating.
#[derive(Debug, Clone, Copy, PartialEq, Eq, Structural)]
pub struct KeyEvent {
    pub key: Key,
    pub state: ElementState,
    pub repeat: bool,
}

/// The keys the engine reacts to; any other key is `Unkown`.
#[derive(Debug, Clone, Copy, PartialEq, Eq, Structural)]
pub enum Key {
    W,
    A,
    S,
    D,
    Unkown,
}

} // verus!
