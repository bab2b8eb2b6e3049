//! The pointer of the desktop, as the actions that a drawing session asks of it.
use vstd::prelude::*;

verus! {

/// How the left button is operated.
#[derive(PartialEq, Eq, Structural, Copy, Clone, Debug)]
pub enum ClickType {
    /// Pressed and released.
    Once,
    /// Pressed.
    Down,
    /// Released.
    Up,
}

/// One thing for the pointer to do.
#[derive(PartialEq, Eq, Structural, Copy, Clone, Debug)]
pub enum PointerAction {
    /// Put the cursor at a screen position.
    MoveCursor { x: u32, y: u32 },
    /// Operate the left button where the cursor is.
    LeftClick(ClickType),
    /// Do nothing for a number of milliseconds.
    Wait { millis: u64 },
}

impl ClickType {
    /// Whether the click presses the button.
    pub fn presses(&self) -> (yes: bool)
        ensures
            yes == (*self == ClickType::Down || *self == ClickType::Once),
    {
        match self {
            ClickType::Once => true,
            ClickType::Down => true,
            ClickType::Up => false,
        }
    }

    /// Whether the click releases the button.
    pub fn releases(&self) -> (yes: bool)
        ensures
            yes == (*self == ClickType::Up || *self == ClickType::Once),
    {
        match self {
            ClickType::Once => true,
            ClickType::Down => false,
            ClickType::Up => true,
        }
    }
}

} // verus!
