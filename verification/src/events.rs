//! Events: the mouse buttons that a mouse event names.
use vstd::prelude::*;

verus! {

/// A button of the mouse.
#[derive(Debug, Clone, Copy, PartialEq, Eq, Structural, Hash)]
pub enum MouseButton {
    Left,
    Middle,
    Right,
    Button4,
    Button5,
}

/// The button that the `button` code of a mouse event stands for. The codes
/// run from 0 (the main button) to 4 (the fifth button); the DOM sends no
/// other.
pub fn mouse_button(code: i16) -> (r: MouseButton)
    requires
        0 <= code <= 4,
    ensures
        code == 0 ==> r == MouseButton::Left,
        code == 1 ==> r == MouseButton::Middle,
        code == 2 ==> r == MouseButton::Right,
        code == 3 ==> r == MouseButton::Button4,
        code == 4 ==> r == MouseButton::Button5,
{
    match code {
        0 => MouseButton::Left,
        1 => MouseButton::Middle,
        2 => MouseButton::Right,
        3 => MouseButton::Button4,
        _ => MouseButton::Button5,
    }
}

} // verus!
