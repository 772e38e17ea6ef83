//! A collection of training images grouped by their labels.

use vstd::prelude::*;
use crate::training_image::TrainingImage;

verus! {

/// Training images bucketed by class label, with the total count of images.
pub struct Dataset {
    pub size: usize,
    pub groups: Vec<(char, Vec<TrainingImage>)>,
}

impl Dataset {
    pub fn new() -> (dataset: Dataset)
        ensures
            dataset.size == 0,
            dataset.groups@ =~= Seq::<(char, Vec<TrainingImage>)>::empty(),
    {
        Dataset { size: 0, groups: Vec::new() }
    }
}

} // verus!
