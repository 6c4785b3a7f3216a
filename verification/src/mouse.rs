//! The pointer as the screens see it: where it is, and which buttons went
//! down since the last frame.

use vstd::prelude::*;

verus! {

/// One frame's sample of the pointer. The host fills it in from the device;
/// a click stays set until `update` clears it at the end of the frame.
#[derive(Clone, Copy, Debug, PartialEq, Eq, Structural)]
pub struct Mouse {
    pub x: i32,
    pub y: i32,
    pub left: bool,
    pub right: bool,
}

impl Mouse {
    /// A pointer at `(x, y)` with the given clicks pending.
    pub fn new(x: i32, y: i32, left: bool, right: bool) -> (mouse: Mouse)
        ensures
            mouse == (Mouse { x, y, left, right }),
    {
        Mouse { x, y, left, right }
    }

    pub fn coordinates(&self) -> (at: (i32, i32))
        ensures
            at == (self.x, self.y),
    {
        (self.x, self.y)
    }

    /// Whether the left button went down since the last `update`.
    pub fn left_clicked(&self) -> (clicked: bool)
        ensures
            clicked == self.left,
    {
        self.left
    }

    /// Whether the right button went down since the last `update`.
    pub fn right_clicked(&self) -> (clicked: bool)
        ensures
            clicked == self.right,
    {
        self.right
    }

    /// Ends the frame: the clicks are forgotten, the position stays.
    pub fn update(&mut self)
        ensures
            *final(self) == (Mouse { left: false, right: false, ..*old(self) }),
    {
        self.left = false;
        self.right = false;
    }
}

} // verus!
