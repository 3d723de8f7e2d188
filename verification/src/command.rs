//! Commands that the key handler can run.

use vstd::prelude::*;

verus! {

/// One action the tray window can perform.
#[derive(Clone, Copy, Debug, Eq, PartialEq, Structural)]
pub enum Command {
    HideWindow,
    ShowWindow,
    ToggleWindow,
    SelectItem(usize),
    SelectNextItem,
    SelectPreviousItem,
    ClickMouseButton(MouseButton),
}

/// A mouse button, as reported by the display server.
#[derive(Clone, Copy, Debug, Eq, PartialEq, Structural)]
pub enum MouseButton {
    Left,
    Right,
    Middle,
    X1,
    X2,
}

} // verus!
