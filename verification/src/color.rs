//! RGB colors as plain values.

use vstd::prelude::*;

verus! {

/// A 24-bit RGB color.
#[derive(Clone, Copy, Debug, PartialEq, Eq, Structural)]
pub struct Color {
    pub r: u8,
    pub g: u8,
    pub b: u8,
}

impl Color {
    /// The red, green and blue channels, in that order.
    pub open spec fn channels(self) -> (u8, u8, u8) {
        (self.r, self.g, self.b)
    }
}

} // verus!
