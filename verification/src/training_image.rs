//! A labelled image of shaded pixels.

use vstd::prelude::*;
use crate::matrix::Matrix;
use crate::shading::Shading;

verus! {

/// One training sample of image data: a character label and its pixel grid.
pub struct TrainingImage {
    pub label: char,
    pub pixels: Matrix<Shading>,
}

impl TrainingImage {
    pub fn new(label: char, pixels: Matrix<Shading>) -> (image: TrainingImage)
        ensures
            image.label == label,
            image.pixels == pixels,
    {
        TrainingImage { label, pixels }
    }

    pub fn get_width(&self) -> (width: usize)
        ensures
            width == self.pixels.values.len(),
    {
        self.pixels.get_width()
    }

    pub fn get_height(&self) -> (height: usize)
        ensures
            height == (if self.pixels.values.len() == 0 {
                0
            } else {
                self.pixels.values[0].len()
            }),
    {
        self.pixels.get_height()
    }
}

} // verus!
