//! The per-(feature, class) normal-distribution estimator.

use vstd::prelude::*;

verus! {

/// Bit pattern of the smallest standard deviation a trained estimator may
/// report (the double 1.0e-10).  Flooring the deviation keeps the density of
/// a constant-valued feature finite instead of dividing by zero.
pub const MIN_STD_BITS: u64 = 0x3DDB_7CDF_D9D7_BDBB;

/// Streaming mean and standard deviation of one feature under one class.
///
/// The floating-point state is stored as IEEE-754 double bit patterns: the
/// verifier excludes floating-point arithmetic, so the caller carries out
/// each numeric step (the Welford mean update, the squared deviation sum,
/// the square root) and hands the resulting bit pattern back.  Counts, and
/// the flooring of the deviation, are handled and verified here; for the
/// non-negative doubles that a deviation can be, comparing bit patterns as
/// integers orders them exactly as the doubles they stand for.
#[derive(Debug, Clone, Copy, PartialEq, Eq, Structural)]
pub struct GaussianClassification {
    pub mean: u64,
    pub std: u64,
    pub sample_size: usize,
    pub square_mean_diffs: u64,
}

impl GaussianClassification {
    /// The deviation `configure_std` stores for a candidate deviation and a
    /// sample count: the floor when one sample or fewer was seen (the
    /// divisor `sample_size - 1` would be zero), otherwise the candidate,
    /// floored.
    pub open spec fn clamped_std(sample_size: usize, candidate: u64) -> u64 {
        if sample_size <= 1 {
            MIN_STD_BITS
        } else if candidate < MIN_STD_BITS {
            MIN_STD_BITS
        } else {
            candidate
        }
    }

    /// A degenerate deviation never survives finalization: whatever the
    /// sample count, a candidate at or below the floor - the bit pattern
    /// of 0.0 that a constant-valued feature's zero variance produces
    /// included - is stored as the floor itself, never as zero, so the
    /// density a caller computes from the stored deviation stays finite.
    pub proof fn lemma_degenerate_deviation_floors(sample_size: usize, candidate: u64)
        requires
            candidate <= MIN_STD_BITS,
        ensures
            GaussianClassification::clamped_std(sample_size, candidate) == MIN_STD_BITS,
    {
    }

    /// A fresh estimator: no samples, all state the bit pattern of 0.0.
    pub fn new() -> (c: GaussianClassification)
        ensures
            c == (GaussianClassification { mean: 0, std: 0, sample_size: 0, square_mean_diffs: 0 }),
    {
        GaussianClassification { mean: 0, std: 0, sample_size: 0, square_mean_diffs: 0 }
    }

    /// An estimator with a given mean and deviation and no recorded samples.
    pub fn create(mean: u64, std: u64) -> (c: GaussianClassification)
        ensures
            c == (GaussianClassification { mean, std, sample_size: 0, square_mean_diffs: 0 }),
    {
        GaussianClassification { mean, std, sample_size: 0, square_mean_diffs: 0 }
    }

    pub fn get_sample_size(&self) -> (n: usize)
        ensures
            n == self.sample_size,
    {
        self.sample_size
    }

    pub fn get_mean(&self) -> (m: u64)
        ensures
            m == self.mean,
    {
        self.mean
    }

    pub fn get_std(&self) -> (s: u64)
        ensures
            s == self.std,
    {
        self.std
    }

    pub fn get_square_mean_diffs(&self) -> (s: u64)
        ensures
            s == self.square_mean_diffs,
    {
        self.square_mean_diffs
    }

    /// Records one sample of the mean pass.  The caller performs the Welford
    /// step `mean + (x - mean) / (sample_size + 1)` on the doubles and hands
    /// the updated running mean in; the count moves up by one.
    pub fn add_value_for_mean(&mut self, updated_mean: u64)
        requires
            old(self).sample_size < usize::MAX,
        ensures
            *final(self) == (GaussianClassification {
                mean: updated_mean,
                sample_size: (old(self).sample_size + 1) as usize,
                ..*old(self)
            }),
    {
        self.sample_size = self.sample_size + 1;
        self.mean = updated_mean;
    }

    /// Records one sample of the deviation pass.  The caller adds
    /// `(x - mean)^2` to the running sum on the doubles and hands the
    /// updated sum in; the count stays, as it was filled by the mean pass.
    pub fn add_value_for_std(&mut self, updated_square_mean_diffs: u64)
        ensures
            *final(self) == (GaussianClassification {
                square_mean_diffs: updated_square_mean_diffs,
                ..*old(self)
            }),
    {
        self.square_mean_diffs = updated_square_mean_diffs;
    }

    /// Fixes the standard deviation at the end of training.  The caller
    /// evaluates `sqrt(square_mean_diffs / (sample_size - 1))` on the
    /// doubles and hands the candidate in; with one sample or fewer the
    /// candidate is ignored and the floor stored directly, and otherwise the
    /// candidate is floored at `MIN_STD_BITS`.
    pub fn configure_std(&mut self, candidate_std: u64)
        ensures
            *final(self) == (GaussianClassification {
                std: GaussianClassification::clamped_std(old(self).sample_size, candidate_std),
                ..*old(self)
            }),
    {
        if self.sample_size <= 1 {
            self.std = MIN_STD_BITS;
        } else if candidate_std < MIN_STD_BITS {
            self.std = MIN_STD_BITS;
        } else {
            self.std = candidate_std;
        }
    }
}

} // verus!
