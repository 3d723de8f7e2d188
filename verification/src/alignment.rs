//! Text alignment within a rendered box.

use vstd::prelude::*;

verus! {

/// Vertical placement of a line of text.
#[derive(Clone, Copy, Debug, Eq, PartialEq, Structural)]
pub enum VerticalAlign {
    Top,
    Middle,
    Bottom,
}

/// Horizontal placement of a line of text.
#[derive(Clone, Copy, Debug, Eq, PartialEq, Structural)]
pub enum HorizontalAlign {
    Left,
    Center,
    Right,
}

} // verus!
