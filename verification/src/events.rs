use vstd::prelude::*;

verus! {

/// The modifier keys that were held when an event happened.
#[derive(Clone, Copy, PartialEq, Eq, Debug, Structural)]
pub struct Modifiers {
    pub alt: bool,
    pub ctrl: bool,
    pub shift: bool,
    pub mac_cmd: bool,
    pub command: bool,
}

pub open spec fn no_modifiers() -> Modifiers {
    Modifiers { alt: false, ctrl: false, shift: false, mac_cmd: false, command: false }
}

impl Modifiers {
    /// No modifier key held.
    pub fn none() -> (r: Modifiers)
        ensures
            r == no_modifiers(),
    {
        Modifiers { alt: false, ctrl: false, shift: false, mac_cmd: false, command: false }
    }
}

/// A position on a surface, counted in 1/256 of a pixel.
#[derive(Clone, Copy, PartialEq, Eq, Debug, Structural)]
pub struct Position {
    pub x: i32,
    pub y: i32,
}

/// The keys that the lock screen hands to its user interface.
#[derive(Clone, Copy, PartialEq, Eq, Debug, Structural)]
pub enum UiKey {
    Backspace,
    Enter,
    Escape,
}

/// The pointer buttons that the lock screen hands to its user interface.
#[derive(Clone, Copy, PartialEq, Eq, Debug, Structural)]
pub enum PointerButton {
    Primary,
    Secondary,
    Middle,
    Extra1,
    Extra2,
}

/// The unit of a scroll amount.
#[derive(Clone, Copy, PartialEq, Eq, Debug, Structural)]
pub enum WheelUnit {
    Line,
    Point,
}

/// Whether a scroll goes on or has ended.
#[derive(Clone, Copy, PartialEq, Eq, Debug, Structural)]
pub enum WheelPhase {
    Move,
    End,
}

/// A scroll amount: `x / divisor` to the side and `y / divisor` down, in the
/// unit of the event that carries it.
#[derive(Clone, Copy, PartialEq, Eq, Debug, Structural)]
pub struct WheelDelta {
    pub x: i128,
    pub y: i128,
    pub divisor: u32,
}

/// An input event for the user interface of one output.
///
/// Positions are in surface coordinates, counted in 1/256 of a pixel as the
/// compositor sends them.
#[derive(PartialEq, Eq, Debug)]
pub enum UiEvent {
    WindowFocused(bool),
    Key { key: UiKey, pressed: bool, modifiers: Modifiers },
    Text(String),
    PointerMoved(Position),
    PointerButton { pos: Position, button: PointerButton, pressed: bool, modifiers: Modifiers },
    MouseWheel { unit: WheelUnit, delta: WheelDelta, phase: WheelPhase, modifiers: Modifiers },
}

} // verus!
