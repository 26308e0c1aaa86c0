//! Keyboard events produced from terminal key codes.
use vstd::prelude::*;

verus! {

/// A physical key that a terminal may report together with modifiers.
#[derive(Clone, Copy, Debug, PartialEq, Eq, Hash, Structural)]
pub enum Key {
    Del,
    Down,
    End,
    Home,
    Ins,
    Left,
    PageDown,
    PageUp,
    Right,
    Up,
}

/// A key, alone or combined with a set of modifiers.
#[derive(Clone, Copy, Debug, PartialEq, Eq, Hash, Structural)]
pub enum Event {
    Key(Key),
    Alt(Key),
    AltShift(Key),
    Ctrl(Key),
    CtrlShift(Key),
    CtrlAlt(Key),
}

} // verus!
