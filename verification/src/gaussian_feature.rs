//! One feature column: per-class estimators and the feature's own counts.

use vstd::prelude::*;
use crate::class_label::ClassLabel;
use crate::error::ModelError;
use crate::gaussian_classification::GaussianClassification;

verus! {

/// The mathematical content of a `GaussianFeature`: the trained flag, the
/// sample count, and the sequence of per-class estimators.
pub ghost struct FeatureView {
    pub is_trained: bool,
    pub sample_size: usize,
    pub classifications: Seq<GaussianClassification>,
}

/// One feature column of the model.  It owns one estimator per class,
/// indexed by the dense class index, counts the samples of its mean pass,
/// and is trained once every estimator's deviation has been fixed.
#[derive(Debug, Clone)]
pub struct GaussianFeature {
    pub is_trained: bool,
    pub sample_size: usize,
    pub classifications: Vec<GaussianClassification>,
}

impl View for GaussianFeature {
    type V = FeatureView;

    open spec fn view(&self) -> FeatureView {
        FeatureView {
            is_trained: self.is_trained,
            sample_size: self.sample_size,
            classifications: self.classifications@,
        }
    }
}

impl GaussianFeature {
    /// How one training step changes a feature: pass 0 stores the updated
    /// running mean and moves both counts up, pass 1 stores the updated
    /// squared-deviation sum, and any later pass changes nothing.
    pub open spec fn train_iter_rel(
        pre: GaussianFeature,
        post: GaussianFeature,
        idx: int,
        updated: u64,
        iter: usize,
    ) -> bool {
        &&& post.is_trained == pre.is_trained
        &&& (iter == 0 ==> {
            &&& post.sample_size == pre.sample_size + 1
            &&& post.classifications@ == pre.classifications@.update(
                idx,
                (GaussianClassification {
                    mean: updated,
                    sample_size: (pre.classifications@[idx].sample_size + 1) as usize,
                    ..pre.classifications@[idx]
                }),
            )
        })
        &&& (iter == 1 ==> {
            &&& post.sample_size == pre.sample_size
            &&& post.classifications@ == pre.classifications@.update(
                idx,
                (GaussianClassification {
                    square_mean_diffs: updated,
                    ..pre.classifications@[idx]
                }),
            )
        })
        &&& (iter >= 2 ==> post.sample_size == pre.sample_size && post.classifications@
            == pre.classifications@)
    }

    /// A fresh untrained feature with one zeroed estimator per class.
    pub fn new(count: usize) -> (f: GaussianFeature)
        ensures
            !f.is_trained,
            f.sample_size == 0,
            f.classifications@.len() == count,
            forall|i: int|
                0 <= i < count ==> #[trigger] f.classifications@[i] == (GaussianClassification {
                    mean: 0,
                    std: 0,
                    sample_size: 0,
                    square_mean_diffs: 0,
                }),
    {
        let mut classifications: Vec<GaussianClassification> = Vec::new();
        let mut i: usize = 0;
        while i < count
            invariant
                i <= count,
                classifications@.len() == i,
                forall|k: int|
                    0 <= k < i ==> #[trigger] classifications@[k] == (GaussianClassification {
                        mean: 0,
                        std: 0,
                        sample_size: 0,
                        square_mean_diffs: 0,
                    }),
            decreases count - i,
        {
            classifications.push(GaussianClassification::new());
            i = i + 1;
        }
        GaussianFeature { is_trained: false, sample_size: 0, classifications }
    }

    /// The estimator of the labelled class.
    pub fn get_class(&self, label: &ClassLabel) -> (c: &GaussianClassification)
        requires
            label.index < self.classifications@.len(),
        ensures
            *c == self.classifications@[label.index as int],
    {
        &self.classifications[label.get_index()]
    }

    /// The estimator of the labelled class, for mutation.
    pub fn get_class_mut(&mut self, label: &ClassLabel) -> (c: &mut GaussianClassification)
        requires
            label.index < old(self).classifications@.len(),
        ensures
            *c == old(self).classifications@[label.index as int],
            final(self).classifications@ == old(self).classifications@.update(
                label.index as int,
                *final(c),
            ),
            final(self).is_trained == old(self).is_trained,
            final(self).sample_size == old(self).sample_size,
    {
        let i = label.get_index();
        &mut self.classifications[i]
    }

    /// One training step for one sample of the labelled class: pass 0
    /// records the caller's updated running mean, pass 1 the caller's
    /// updated squared-deviation sum (see `GaussianClassification`).
    pub fn train_iter(&mut self, label: &ClassLabel, updated: u64, iter: usize)
        requires
            label.index < old(self).classifications@.len(),
            iter == 0 ==> old(self).sample_size < usize::MAX && old(self).classifications@[label.index as int].sample_size
                < usize::MAX,
        ensures
            GaussianFeature::train_iter_rel(
                *old(self),
                *final(self),
                label.index as int,
                updated,
                iter,
            ),
    {
        match iter {
            0 => {
                let class = self.get_class_mut(label);
                class.add_value_for_mean(updated);
                self.sample_size = self.sample_size + 1;
            },
            1 => {
                let class = self.get_class_mut(label);
                class.add_value_for_std(updated);
            },
            _ => {},
        }
    }

    /// Fixes every estimator's deviation and marks the feature trained.
    /// The caller hands one candidate deviation per class, each evaluated
    /// as `sqrt(square_mean_diffs / (sample_size - 1))` on the doubles.
    pub fn prepare(&mut self, candidates: &Vec<u64>)
        requires
            candidates@.len() == old(self).classifications@.len(),
        ensures
            final(self).is_trained,
            final(self).sample_size == old(self).sample_size,
            final(self).classifications@.len() == old(self).classifications@.len(),
            forall|i: int|
                0 <= i < old(self).classifications@.len()
                    ==> #[trigger] final(self).classifications@[i] == (GaussianClassification {
                    std: GaussianClassification::clamped_std(
                        old(self).classifications@[i].sample_size,
                        candidates@[i],
                    ),
                    ..old(self).classifications@[i]
                }),
    {
        let n = self.classifications.len();
        let mut i: usize = 0;
        while i < n
            invariant
                n == self.classifications@.len(),
                n == old(self).classifications@.len(),
                n == candidates@.len(),
                i <= n,
                self.is_trained == old(self).is_trained,
                self.sample_size == old(self).sample_size,
                forall|k: int|
                    0 <= k < i ==> #[trigger] self.classifications@[k] == (GaussianClassification {
                        std: GaussianClassification::clamped_std(
                            old(self).classifications@[k].sample_size,
                            candidates@[k],
                        ),
                        ..old(self).classifications@[k]
                    }),
                forall|k: int|
                    i <= k < n ==> #[trigger] self.classifications@[k]
                        == old(self).classifications@[k],
            decreases n - i,
        {
            let candidate = candidates[i];
            let class = &mut self.classifications[i];
            class.configure_std(candidate);
            i = i + 1;
        }
        self.is_trained = true;
    }

    /// Whether both training passes have completed.
    pub fn is_trained(&self) -> (t: bool)
        ensures
            t == self.is_trained,
    {
        self.is_trained
    }

    /// The labelled class's trained mean and standard deviation, as double
    /// bit patterns, for evaluating the Gaussian density; `UntrainedError`
    /// before training finished, `FeatureNotFound` for a class index this
    /// feature does not hold.
    pub fn class_params(&self, label: &ClassLabel) -> (r: Result<(u64, u64), ModelError>)
        ensures
            match r {
                Ok(p) => self.is_trained && label.index < self.classifications@.len() && p
                    == (
                    self.classifications@[label.index as int].mean,
                    self.classifications@[label.index as int].std,
                ),
                Err(e) => {
                    ||| (e == ModelError::UntrainedError && !self.is_trained)
                    ||| (e == ModelError::FeatureNotFound && self.is_trained && label.index
                        >= self.classifications@.len())
                },
            },
    {
        if !self.is_trained {
            return Err(ModelError::UntrainedError);
        }
        let i = label.get_index();
        if i >= self.classifications.len() {
            return Err(ModelError::FeatureNotFound);
        }
        let class = &self.classifications[i];
        Ok((class.get_mean(), class.get_std()))
    }

    /// The labelled class's sample count paired with this feature's own
    /// count: their ratio is the class's empirical prior as this feature
    /// measured it.  Fails like `class_params`.
    pub fn class_counts(&self, label: &ClassLabel) -> (r: Result<(usize, usize), ModelError>)
        ensures
            match r {
                Ok(p) => self.is_trained && label.index < self.classifications@.len() && p
                    == (self.classifications@[label.index as int].sample_size, self.sample_size),
                Err(e) => {
                    ||| (e == ModelError::UntrainedError && !self.is_trained)
                    ||| (e == ModelError::FeatureNotFound && self.is_trained && label.index
                        >= self.classifications@.len())
                },
            },
    {
        if !self.is_trained {
            return Err(ModelError::UntrainedError);
        }
        let i = label.get_index();
        if i >= self.classifications.len() {
            return Err(ModelError::FeatureNotFound);
        }
        let class = &self.classifications[i];
        Ok((class.get_sample_size(), self.sample_size))
    }
}

} // verus!
