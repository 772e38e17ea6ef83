//! A rectangular grid stored as rows of values.

use vstd::prelude::*;

verus! {

/// A grid of values, held as a vector of columns of equal length.
pub struct Matrix<T> {
    pub values: Vec<Vec<T>>,
}

impl<T> Matrix<T> {
    /// Every column has the same length, so width and height describe the
    /// whole grid.
    pub open spec fn well_formed(self) -> bool {
        forall|i: int|
            0 <= i < self.values.len() ==> (#[trigger] self.values[i]).len() == self.values[0].len()
    }

    pub fn new(values: Vec<Vec<T>>) -> (m: Matrix<T>)
        ensures
            m.values == values,
    {
        Matrix { values }
    }

    pub fn get_width(&self) -> (width: usize)
        ensures
            width == self.values.len(),
    {
        self.values.len()
    }

    pub fn get_height(&self) -> (height: usize)
        ensures
            height == (if self.values.len() == 0 {
                0
            } else {
                self.values[0].len()
            }),
    {
        match self.get_width() {
            0 => 0,
            _ => self.values[0].len(),
        }
    }
}

} // verus!
