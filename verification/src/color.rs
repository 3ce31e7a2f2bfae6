use vstd::prelude::*;

verus! {

/// A colour of four 8-bit channels. It is a plain value without identity.
#[derive(Clone, Copy, Debug, PartialEq, Eq, Structural)]
pub struct Color {
    pub r: u8,
    pub g: u8,
    pub b: u8,
    pub a: u8,
}

impl Color {
    /// The byte that this colour stores at position `k` of a pixel: blue,
    /// green, red, alpha in that order.
    pub open spec fn channel(self, k: int) -> u8 {
        if k == 0 {
            self.b
        } else if k == 1 {
            self.g
        } else if k == 2 {
            self.r
        } else {
            self.a
        }
    }

    pub fn new(r: u8, g: u8, b: u8, a: u8) -> (c: Color)
        ensures
            c == (Color { r, g, b, a }),
    {
        Color { r, g, b, a }
    }
}

} // verus!
