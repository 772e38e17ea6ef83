//! Pixel shading levels for image-based training data.

use vstd::prelude::*;

verus! {

/// A pixel's shading band, each carrying the raw intensity it was read from.
pub enum Shading {
    Black(u8),
    Gray(u8),
    White(u8),
}

impl Shading {
    /// The integer code of the band: black 2, gray 1, white 0.
    pub fn to_int(&self) -> (code: u8)
        ensures
            code == self.spec_code(),
    {
        match *self {
            Shading::Black(_) => 2,
            Shading::Gray(_) => 1,
            Shading::White(_) => 0,
        }
    }

    pub open spec fn spec_code(self) -> u8 {
        match self {
            Shading::Black(_) => 2,
            Shading::Gray(_) => 1,
            Shading::White(_) => 0,
        }
    }
}

} // verus!
