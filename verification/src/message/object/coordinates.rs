//! Coordinates of an object on a graphical canvas

use vstd::prelude::*;

verus! {

/// Coordinate position of an object on a graphical canvas. Each
/// coordinate is an IEEE-754 single-precision bit pattern.
#[derive(Copy, Clone, Debug, PartialEq, Eq, Structural)]
pub struct Coordinates {
    /// Horizontal position
    pub x: u32,
    /// Vertical position
    pub y: u32,
}

impl Coordinates {
    /// The position with the given coordinates
    pub fn new(x: u32, y: u32) -> (c: Coordinates)
        ensures
            c == (Coordinates { x, y }),
    {
        Coordinates { x, y }
    }
}

impl Default for Coordinates {
    fn default() -> (c: Coordinates)
        ensures
            c == (Coordinates { x: 0, y: 0 }),
    {
        Coordinates { x: 0, y: 0 }
    }
}

} // verus!
