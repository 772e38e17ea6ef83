//! The categorical feature stub: per-class occurrence records.

use vstd::prelude::*;
use crate::class_label::ClassLabel;
use crate::discrete_classification::DiscreteClassification;

verus! {

/// A categorical feature column: one occurrence record per class, indexed
/// by the dense class index.  Only the skeleton of the training lifecycle
/// exists; the likelihood side of this feature kind was never finished.
pub struct DiscreteFeature {
    pub is_trained: bool,
    pub sample_size: usize,
    pub classifications: Vec<DiscreteClassification>,
}

impl DiscreteFeature {
    /// The occurrence record of the labelled class.
    pub fn get_class(&self, label: &ClassLabel) -> (c: &DiscreteClassification)
        requires
            label.index < self.classifications@.len(),
        ensures
            *c == self.classifications@[label.index as int],
    {
        &self.classifications[label.get_index()]
    }

    /// The occurrence record of the labelled class, for mutation.
    pub fn get_class_mut(&mut self, label: &ClassLabel) -> (c: &mut DiscreteClassification)
        requires
            label.index < old(self).classifications@.len(),
        ensures
            *c == old(self).classifications@[label.index as int],
            final(self).classifications@ == old(self).classifications@.update(
                label.index as int,
                *final(c),
            ),
            final(self).is_trained == old(self).is_trained,
            final(self).sample_size == old(self).sample_size,
    {
        let i = label.get_index();
        &mut self.classifications[i]
    }

    /// Marks the feature trained.
    pub fn prepare(&mut self)
        ensures
            *final(self) == (DiscreteFeature { is_trained: true, ..*old(self) }),
    {
        self.is_trained = true;
    }

    /// Whether training has completed.
    pub fn is_trained(&self) -> (t: bool)
        ensures
            t == self.is_trained,
    {
        self.is_trained
    }
}

} // verus!
