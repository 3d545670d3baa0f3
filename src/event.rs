//! The semantic events a mouse produces.
use vstd::prelude::*;

verus! {

/// One of the three buttons a PS/2 mouse reports.
#[derive(Debug, Clone, Copy, PartialEq, Eq, Structural)]
pub enum MouseButton {
    Left,
    Right,
    Middle,
}

/// What one completed packet means to the caller.
#[derive(Debug, Clone, Copy, PartialEq, Eq, Structural)]
pub enum MouseEvent {
    Move { delta_x: i16, delta_y: i16 },
    ButtonPressed(MouseButton),
    ButtonReleased(MouseButton),
    WheelUp,
    WheelDown,
}

} // verus!
