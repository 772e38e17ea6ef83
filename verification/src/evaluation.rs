//! The evaluation engine: confusion matrices and the sharded test scan.
//!
//! Evaluation consumes the stream of `(actual, predicted)` class-index
//! pairs that classifying a test set produced and tallies them into a
//! square confusion matrix, either in one linear pass or as a reduction of
//! per-shard tallies, where shard `t` of `m` owns the rows whose position
//! is congruent to `t` modulo `m`.  The reduction is proved to give,
//! cell for cell, the same matrix as the linear pass: the modulo partition
//! is a disjoint, exhaustive cover and cell addition is associative and
//! commutative, so accuracy does not depend on the shard count or order.

use vstd::prelude::*;
use vstd::arithmetic::div_mod::lemma_mod_division_less_than_divisor;

verus! {

/// How many of the first `upto` outcome pairs are exactly `(a, p)`.
pub open spec fn pair_count(outcomes: Seq<(usize, usize)>, a: int, p: int, upto: int) -> nat
    decreases upto,
{
    if upto <= 0 {
        0
    } else {
        pair_count(outcomes, a, p, upto - 1) + (if outcomes[upto - 1].0 == a && outcomes[upto
            - 1].1 == p {
            1nat
        } else {
            0nat
        })
    }
}

/// How many of the first `upto` outcome pairs are `(a, p)` and stand at a
/// position owned by shard `t` of `m`.
pub open spec fn shard_pair_count(
    outcomes: Seq<(usize, usize)>,
    m: int,
    t: int,
    a: int,
    p: int,
    upto: int,
) -> nat
    decreases upto,
{
    if upto <= 0 {
        0
    } else {
        shard_pair_count(outcomes, m, t, a, p, upto - 1) + (if (upto - 1) % m == t && outcomes[upto
            - 1].0 == a && outcomes[upto - 1].1 == p {
            1nat
        } else {
            0nat
        })
    }
}

/// The shard counts of `(a, p)` summed over the first `t_upto` shards.
pub open spec fn sum_shard_counts(
    outcomes: Seq<(usize, usize)>,
    m: int,
    a: int,
    p: int,
    t_upto: int,
    upto: int,
) -> nat
    decreases t_upto,
{
    if t_upto <= 0 {
        0
    } else {
        sum_shard_counts(outcomes, m, a, p, t_upto - 1, upto) + shard_pair_count(
            outcomes,
            m,
            t_upto - 1,
            a,
            p,
            upto,
        )
    }
}

/// A count of pairs among the first `upto` cannot exceed `upto`.
proof fn lemma_pair_count_le(outcomes: Seq<(usize, usize)>, a: int, p: int, upto: int)
    requires
        upto >= 0,
    ensures
        pair_count(outcomes, a, p, upto) <= upto,
    decreases upto,
{
    if upto > 0 {
        lemma_pair_count_le(outcomes, a, p, upto - 1);
    }
}

/// With no records seen, every partial shard sum is zero.
proof fn lemma_sum_shard_counts_zero(
    outcomes: Seq<(usize, usize)>,
    m: int,
    a: int,
    p: int,
    t_upto: int,
)
    ensures
        sum_shard_counts(outcomes, m, a, p, t_upto, 0) == 0,
    decreases t_upto,
{
    if t_upto > 0 {
        lemma_sum_shard_counts_zero(outcomes, m, a, p, t_upto - 1);
    }
}

/// Taking one more record into account raises the sum over the first
/// `t_upto` shards by one exactly when the record matches `(a, p)` and its
/// position's shard falls below `t_upto`.
proof fn lemma_sum_shard_counts_step(
    outcomes: Seq<(usize, usize)>,
    m: int,
    a: int,
    p: int,
    t_upto: int,
    upto: int,
)
    requires
        m >= 1,
        upto >= 1,
    ensures
        sum_shard_counts(outcomes, m, a, p, t_upto, upto) == sum_shard_counts(
            outcomes,
            m,
            a,
            p,
            t_upto,
            upto - 1,
        ) + (if (upto - 1) % m < t_upto && outcomes[upto - 1].0 == a && outcomes[upto - 1].1 == p {
            1nat
        } else {
            0nat
        }),
    decreases t_upto,
{
    lemma_mod_division_less_than_divisor(upto - 1, m);
    if t_upto > 0 {
        lemma_sum_shard_counts_step(outcomes, m, a, p, t_upto - 1, upto);
        assert(sum_shard_counts(outcomes, m, a, p, t_upto, upto) == sum_shard_counts(
            outcomes,
            m,
            a,
            p,
            t_upto - 1,
            upto,
        ) + shard_pair_count(outcomes, m, t_upto - 1, a, p, upto));
        assert(shard_pair_count(outcomes, m, t_upto - 1, a, p, upto) == shard_pair_count(
            outcomes,
            m,
            t_upto - 1,
            a,
            p,
            upto - 1,
        ) + (if (upto - 1) % m == t_upto - 1 && outcomes[upto - 1].0 == a && outcomes[upto - 1].1
            == p {
            1nat
        } else {
            0nat
        }));
        assert(sum_shard_counts(outcomes, m, a, p, t_upto, upto - 1) == sum_shard_counts(
            outcomes,
            m,
            a,
            p,
            t_upto - 1,
            upto - 1,
        ) + shard_pair_count(outcomes, m, t_upto - 1, a, p, upto - 1));
    }
}

/// Growing the shard range can only grow the sum.
proof fn lemma_sum_shard_counts_mono(
    outcomes: Seq<(usize, usize)>,
    m: int,
    a: int,
    p: int,
    t_low: int,
    t_high: int,
    upto: int,
)
    requires
        t_low <= t_high,
    ensures
        sum_shard_counts(outcomes, m, a, p, t_low, upto) <= sum_shard_counts(
            outcomes,
            m,
            a,
            p,
            t_high,
            upto,
        ),
    decreases t_high - t_low,
{
    if t_low < t_high {
        lemma_sum_shard_counts_mono(outcomes, m, a, p, t_low, t_high - 1, upto);
    }
}

/// The partition law behind sharded evaluation: the shards of a scan by
/// position modulo `m` own disjoint rows and together own every row, so
/// summing one cell's count over all `m` shards gives exactly the cell's
/// count over the whole stream.
pub proof fn lemma_sharded_tally_complete(
    outcomes: Seq<(usize, usize)>,
    m: int,
    a: int,
    p: int,
    upto: int,
)
    requires
        m >= 1,
        upto >= 0,
    ensures
        sum_shard_counts(outcomes, m, a, p, m, upto) == pair_count(outcomes, a, p, upto),
    decreases upto,
{
    if upto == 0 {
        lemma_sum_shard_counts_zero(outcomes, m, a, p, m);
    } else {
        lemma_sharded_tally_complete(outcomes, m, a, p, upto - 1);
        lemma_sum_shard_counts_step(outcomes, m, a, p, m, upto);
        lemma_mod_division_less_than_divisor(upto - 1, m);
    }
}

/// The counts of `(a, p)` summed over predicted classes `p < p_upto`.
pub open spec fn row_count_sum(outcomes: Seq<(usize, usize)>, a: int, p_upto: int, upto: int) -> nat
    decreases p_upto,
{
    if p_upto <= 0 {
        0
    } else {
        row_count_sum(outcomes, a, p_upto - 1, upto) + pair_count(outcomes, a, p_upto - 1, upto)
    }
}

/// The counts summed over all cells of the first `a_upto` rows.
pub open spec fn grid_count_sum(
    outcomes: Seq<(usize, usize)>,
    dim: int,
    a_upto: int,
    upto: int,
) -> nat
    decreases a_upto,
{
    if a_upto <= 0 {
        0
    } else {
        grid_count_sum(outcomes, dim, a_upto - 1, upto) + row_count_sum(
            outcomes,
            a_upto - 1,
            dim,
            upto,
        )
    }
}

proof fn lemma_row_count_sum_zero(outcomes: Seq<(usize, usize)>, a: int, p_upto: int)
    ensures
        row_count_sum(outcomes, a, p_upto, 0) == 0,
    decreases p_upto,
{
    if p_upto > 0 {
        lemma_row_count_sum_zero(outcomes, a, p_upto - 1);
    }
}

proof fn lemma_grid_count_sum_zero(outcomes: Seq<(usize, usize)>, dim: int, a_upto: int)
    ensures
        grid_count_sum(outcomes, dim, a_upto, 0) == 0,
    decreases a_upto,
{
    if a_upto > 0 {
        lemma_grid_count_sum_zero(outcomes, dim, a_upto - 1);
    }
    lemma_row_count_sum_zero(outcomes, a_upto - 1, dim);
}

/// One more record raises a row's sum by one exactly when the record's
/// actual class is that row and its predicted class falls in range.
proof fn lemma_row_count_sum_step(outcomes: Seq<(usize, usize)>, a: int, p_upto: int, upto: int)
    requires
        upto >= 1,
    ensures
        row_count_sum(outcomes, a, p_upto, upto) == row_count_sum(outcomes, a, p_upto, upto - 1) + (
        if outcomes[upto - 1].0 == a && outcomes[upto - 1].1 < p_upto {
            1nat
        } else {
            0nat
        }),
    decreases p_upto,
{
    if p_upto > 0 {
        lemma_row_count_sum_step(outcomes, a, p_upto - 1, upto);
    }
}

/// One more record raises the grid's sum by one exactly when the record's
/// classes fall in range.
proof fn lemma_grid_count_sum_step(outcomes: Seq<(usize, usize)>, dim: int, a_upto: int, upto: int)
    requires
        upto >= 1,
        outcomes[upto - 1].1 < dim,
    ensures
        grid_count_sum(outcomes, dim, a_upto, upto) == grid_count_sum(
            outcomes,
            dim,
            a_upto,
            upto - 1,
        ) + (if outcomes[upto - 1].0 < a_upto {
            1nat
        } else {
            0nat
        }),
    decreases a_upto,
{
    if a_upto > 0 {
        lemma_grid_count_sum_step(outcomes, dim, a_upto - 1, upto);
        lemma_row_count_sum_step(outcomes, a_upto - 1, dim, upto);
    }
}

/// Every record lands in exactly one cell, so the counts of all cells sum
/// to the number of records.
proof fn lemma_grid_count_sum_total(outcomes: Seq<(usize, usize)>, dim: int, upto: int)
    requires
        0 <= upto <= outcomes.len(),
        forall|i: int|
            0 <= i < outcomes.len() ==> (#[trigger] outcomes[i]).0 < dim && outcomes[i].1 < dim,
    ensures
        grid_count_sum(outcomes, dim, dim, upto) == upto,
    decreases upto,
{
    if upto == 0 {
        lemma_grid_count_sum_zero(outcomes, dim, dim);
    } else {
        lemma_grid_count_sum_total(outcomes, dim, upto - 1);
        lemma_grid_count_sum_step(outcomes, dim, dim, upto);
    }
}

/// A square tally of evaluation outcomes: rows are the actual class,
/// columns the predicted class.
pub struct ConfusionMatrix {
    pub counts: Vec<Vec<usize>>,
}

impl ConfusionMatrix {
    /// The number of classes the matrix distinguishes.
    pub open spec fn dim(self) -> nat {
        self.counts@.len()
    }

    /// Every row has one column per class.
    pub open spec fn well_formed(self) -> bool {
        forall|r: int| 0 <= r < self.dim() ==> (#[trigger] self.counts@[r])@.len() == self.dim()
    }

    /// The tally of (actual `a`, predicted `p`).
    pub open spec fn cell(self, a: int, p: int) -> usize {
        self.counts@[a]@[p]
    }

    /// The tally of one row's cells up to column `upto`.
    pub open spec fn row_total(row: Seq<usize>, upto: int) -> nat
        decreases upto,
    {
        if upto <= 0 {
            0
        } else {
            Self::row_total(row, upto - 1) + row[upto - 1] as nat
        }
    }

    /// The tally of all cells of the first `upto` rows.
    pub open spec fn grid_total(self, upto: int) -> nat
        decreases upto,
    {
        if upto <= 0 {
            0
        } else {
            self.grid_total(upto - 1) + Self::row_total(
                self.counts@[upto - 1]@,
                self.counts@[upto - 1]@.len() as int,
            )
        }
    }

    /// The tally of all cells: the number of outcomes recorded.
    pub open spec fn total(self) -> nat {
        self.grid_total(self.dim() as int)
    }

    /// The tally of the first `upto` diagonal cells.
    pub open spec fn diag_total(self, upto: int) -> nat
        decreases upto,
    {
        if upto <= 0 {
            0
        } else {
            self.diag_total(upto - 1) + self.counts@[upto - 1]@[upto - 1] as nat
        }
    }

    /// The tally of the diagonal: the number of correct classifications.
    pub open spec fn correct(self) -> nat {
        self.diag_total(self.dim() as int)
    }

    /// A fresh all-zero matrix with one row and one column per class.
    pub fn new(dim: usize) -> (m: ConfusionMatrix)
        ensures
            m.well_formed(),
            m.dim() == dim,
            forall|a: int, p: int| 0 <= a < dim && 0 <= p < dim ==> #[trigger] m.cell(a, p) == 0,
    {
        let mut counts: Vec<Vec<usize>> = Vec::new();
        let mut r: usize = 0;
        while r < dim
            invariant
                r <= dim,
                counts@.len() == r,
                forall|i: int|
                    0 <= i < r ==> (#[trigger] counts@[i])@.len() == dim && forall|j: int|
                        0 <= j < dim ==> (#[trigger] counts@[i]@[j]) == 0,
            decreases dim - r,
        {
            let mut row: Vec<usize> = Vec::new();
            let mut c: usize = 0;
            while c < dim
                invariant
                    c <= dim,
                    row@.len() == c,
                    forall|j: int| 0 <= j < c ==> (#[trigger] row@[j]) == 0,
                decreases dim - c,
            {
                row.push(0);
                c = c + 1;
            }
            counts.push(row);
            r = r + 1;
        }
        ConfusionMatrix { counts }
    }

    /// Counts one outcome: the cell at (actual, predicted) moves up by one
    /// and every other cell stays.
    pub fn record(&mut self, actual: usize, predicted: usize)
        requires
            old(self).well_formed(),
            actual < old(self).dim(),
            predicted < old(self).dim(),
            old(self).cell(actual as int, predicted as int) < usize::MAX,
        ensures
            final(self).well_formed(),
            final(self).dim() == old(self).dim(),
            final(self).cell(actual as int, predicted as int) == old(self).cell(
                actual as int,
                predicted as int,
            ) + 1,
            forall|a: int, p: int|
                0 <= a < old(self).dim() && 0 <= p < old(self).dim() && !(a == actual && p
                    == predicted) ==> #[trigger] final(self).cell(a, p) == old(self).cell(a, p),
    {
        let bumped = self.counts[actual][predicted] + 1;
        let row = &mut self.counts[actual];
        row[predicted] = bumped;
    }

    /// Adds another matrix of the same shape cell-wise into this one: the
    /// reduction step of sharded evaluation.
    pub fn merge(&mut self, other: &ConfusionMatrix)
        requires
            old(self).well_formed(),
            other.well_formed(),
            old(self).dim() == other.dim(),
            forall|a: int, p: int|
                0 <= a < other.dim() && 0 <= p < other.dim() ==> old(self).cell(a, p)
                    + #[trigger] other.cell(a, p) <= usize::MAX,
        ensures
            final(self).well_formed(),
            final(self).dim() == old(self).dim(),
            forall|a: int, p: int|
                0 <= a < other.dim() && 0 <= p < other.dim() ==> #[trigger] final(self).cell(a, p)
                    == old(self).cell(a, p) + other.cell(a, p),
    {
        let dim = self.counts.len();
        let mut merged: Vec<Vec<usize>> = Vec::new();
        let mut r: usize = 0;
        while r < dim
            invariant
                *self == *old(self),
                old(self).well_formed(),
                other.well_formed(),
                forall|a: int, p: int|
                    0 <= a < dim && 0 <= p < dim ==> old(self).cell(a, p) + #[trigger] other.cell(
                        a,
                        p,
                    ) <= usize::MAX,
                dim == old(self).dim(),
                dim == other.dim(),
                r <= dim,
                merged@.len() == r,
                forall|i: int|
                    0 <= i < r ==> (#[trigger] merged@[i])@.len() == dim && forall|j: int|
                        0 <= j < dim ==> (#[trigger] merged@[i]@[j]) == old(self).cell(i, j)
                            + other.cell(i, j),
            decreases dim - r,
        {
            let mut row: Vec<usize> = Vec::new();
            let mut c: usize = 0;
            while c < dim
                invariant
                    *self == *old(self),
                    old(self).well_formed(),
                    other.well_formed(),
                    forall|a: int, p: int|
                        0 <= a < dim && 0 <= p < dim ==> old(self).cell(a, p)
                            + #[trigger] other.cell(a, p) <= usize::MAX,
                    dim == old(self).dim(),
                    dim == other.dim(),
                    r < dim,
                    c <= dim,
                    row@.len() == c,
                    forall|j: int|
                        0 <= j < c ==> (#[trigger] row@[j]) == old(self).cell(r as int, j)
                            + other.cell(r as int, j),
                decreases dim - c,
            {
                proof {
                    assert(old(self).cell(r as int, c as int) + other.cell(r as int, c as int)
                        <= usize::MAX);
                }
                let summed = self.counts[r][c] + other.counts[r][c];
                row.push(summed);
                c = c + 1;
            }
            merged.push(row);
            r = r + 1;
        }
        self.counts = merged;
    }

    /// The diagonal and grand totals as exact counts; their ratio is the
    /// accuracy.  The correct count never exceeds the total, so the
    /// accuracy lies in the unit interval.
    pub fn accuracy_counts(&self) -> (r: (usize, usize))
        requires
            self.well_formed(),
            self.total() <= usize::MAX,
        ensures
            r.0 == self.correct(),
            r.1 == self.total(),
            r.0 <= r.1,
    {
        let correct = self.correct_count();
        let total = self.total_count();
        proof {
            self.lemma_correct_le_total();
        }
        (correct, total)
    }

    /// The diagonal's tally: how many outcomes were classified correctly.
    pub fn correct_count(&self) -> (r: usize)
        requires
            self.well_formed(),
            self.total() <= usize::MAX,
        ensures
            r == self.correct(),
    {
        proof {
            self.lemma_correct_le_total();
        }
        let dim = self.counts.len();
        let mut acc: usize = 0;
        let mut i: usize = 0;
        while i < dim
            invariant
                dim == self.dim(),
                i <= dim,
                self.well_formed(),
                acc == self.diag_total(i as int),
                self.total() <= usize::MAX,
            decreases dim - i,
        {
            proof {
                self.lemma_diag_le_total_upto(i as int + 1);
            }
            acc = acc + self.counts[i][i];
            i = i + 1;
        }
        acc
    }

    /// The grand tally: how many outcomes the matrix has counted.
    pub fn total_count(&self) -> (r: usize)
        requires
            self.well_formed(),
            self.total() <= usize::MAX,
        ensures
            r == self.total(),
    {
        let dim = self.counts.len();
        let mut acc: usize = 0;
        let mut i: usize = 0;
        while i < dim
            invariant
                dim == self.dim(),
                i <= dim,
                self.well_formed(),
                acc == self.grid_total(i as int),
                self.total() <= usize::MAX,
            decreases dim - i,
        {
            proof {
                self.lemma_grid_mono(i as int + 1, dim as int);
            }
            let row = &self.counts[i];
            let cols = row.len();
            let mut c: usize = 0;
            let mut row_acc: usize = 0;
            while c < cols
                invariant
                    cols == row@.len(),
                    c <= cols,
                    row_acc == Self::row_total(row@, c as int),
                    row@ == self.counts@[i as int]@,
                    i < dim,
                    dim == self.dim(),
                    self.well_formed(),
                    acc == self.grid_total(i as int),
                    self.total() <= usize::MAX,
                decreases cols - c,
            {
                proof {
                    self.lemma_grid_mono(i as int + 1, dim as int);
                    Self::lemma_row_mono(row@, c as int + 1, cols as int);
                }
                row_acc = row_acc + row[c];
                c = c + 1;
            }
            acc = acc + row_acc;
            i = i + 1;
        }
        acc
    }

    /// Prefixes of a row tally to no more than the whole row.
    proof fn lemma_row_mono(row: Seq<usize>, lo: int, hi: int)
        requires
            lo <= hi,
        ensures
            Self::row_total(row, lo) <= Self::row_total(row, hi),
        decreases hi - lo,
    {
        if lo < hi {
            Self::lemma_row_mono(row, lo, hi - 1);
        }
    }

    /// Prefixes of the grid tally to no more than the whole grid.
    proof fn lemma_grid_mono(self, lo: int, hi: int)
        requires
            lo <= hi,
        ensures
            self.grid_total(lo) <= self.grid_total(hi),
        decreases hi - lo,
    {
        if lo < hi {
            self.lemma_grid_mono(lo, hi - 1);
        }
    }

    /// A diagonal prefix is bounded by the matching grid prefix.
    proof fn lemma_diag_le_grid(self, upto: int)
        requires
            self.well_formed(),
            upto <= self.dim(),
        ensures
            self.diag_total(upto) <= self.grid_total(upto),
        decreases upto,
    {
        if upto > 0 {
            self.lemma_diag_le_grid(upto - 1);
            Self::lemma_cell_le_row(self.counts@[upto - 1]@, upto - 1);
        }
    }

    /// One cell is bounded by its row's tally.
    proof fn lemma_cell_le_row(row: Seq<usize>, j: int)
        requires
            0 <= j < row.len(),
        ensures
            row[j] <= Self::row_total(row, row.len() as int),
        decreases row.len() - j,
    {
        Self::lemma_row_mono(row, j + 1, row.len() as int);
    }

    /// A diagonal prefix is bounded by the full total.
    proof fn lemma_diag_le_total_upto(self, upto: int)
        requires
            self.well_formed(),
            upto <= self.dim(),
        ensures
            self.diag_total(upto) <= self.total(),
    {
        self.lemma_diag_le_grid(upto);
        self.lemma_grid_mono(upto, self.dim() as int);
    }

    /// In a matrix whose cells count the outcome pairs, a row prefix's
    /// tally is the matching sum of pair counts.
    proof fn lemma_row_link(self, outcomes: Seq<(usize, usize)>, a: int, p_upto: int, upto: int)
        requires
            self.well_formed(),
            0 <= a < self.dim(),
            0 <= p_upto <= self.dim(),
            forall|x: int, y: int|
                0 <= x < self.dim() && 0 <= y < self.dim() ==> #[trigger] self.cell(x, y)
                    == pair_count(outcomes, x, y, upto),
        ensures
            Self::row_total(self.counts@[a]@, p_upto) == row_count_sum(outcomes, a, p_upto, upto),
        decreases p_upto,
    {
        if p_upto > 0 {
            self.lemma_row_link(outcomes, a, p_upto - 1, upto);
            assert(self.cell(a, p_upto - 1) == pair_count(outcomes, a, p_upto - 1, upto));
        }
    }

    /// In a matrix whose cells count the outcome pairs, a grid prefix's
    /// tally is the matching sum of pair counts.
    proof fn lemma_grid_link(self, outcomes: Seq<(usize, usize)>, a_upto: int, upto: int)
        requires
            self.well_formed(),
            0 <= a_upto <= self.dim(),
            forall|x: int, y: int|
                0 <= x < self.dim() && 0 <= y < self.dim() ==> #[trigger] self.cell(x, y)
                    == pair_count(outcomes, x, y, upto),
        ensures
            self.grid_total(a_upto) == grid_count_sum(outcomes, self.dim() as int, a_upto, upto),
        decreases a_upto,
    {
        if a_upto > 0 {
            self.lemma_grid_link(outcomes, a_upto - 1, upto);
            self.lemma_row_link(outcomes, a_upto - 1, self.dim() as int, upto);
            assert(self.counts@[a_upto - 1]@.len() == self.dim());
        }
    }

    /// A matrix that tallies a stream of outcomes counts, in all, exactly
    /// the records of that stream: every record lands in one cell and no
    /// cell counts anything else.
    pub proof fn lemma_tally_total(self, outcomes: Seq<(usize, usize)>)
        requires
            self.well_formed(),
            forall|i: int|
                0 <= i < outcomes.len() ==> (#[trigger] outcomes[i]).0 < self.dim()
                    && outcomes[i].1 < self.dim(),
            forall|x: int, y: int|
                0 <= x < self.dim() && 0 <= y < self.dim() ==> #[trigger] self.cell(x, y)
                    == pair_count(outcomes, x, y, outcomes.len() as int),
        ensures
            self.total() == outcomes.len(),
    {
        self.lemma_grid_link(outcomes, self.dim() as int, outcomes.len() as int);
        lemma_grid_count_sum_total(outcomes, self.dim() as int, outcomes.len() as int);
    }

    /// The number of correctly classified outcomes never exceeds the
    /// number of outcomes, so the accuracy ratio lies in the unit
    /// interval.
    pub proof fn lemma_correct_le_total(self)
        requires
            self.well_formed(),
        ensures
            self.correct() <= self.total(),
    {
        self.lemma_diag_le_grid(self.dim() as int);
    }
}

/// Tallies every outcome of a linear evaluation scan into a confusion
/// matrix: cell `(a, p)` ends up holding exactly the number of records
/// whose actual class was `a` and whose predicted class was `p`.
pub fn tally(dim: usize, outcomes: &Vec<(usize, usize)>) -> (m: ConfusionMatrix)
    requires
        forall|i: int|
            0 <= i < outcomes@.len() ==> (#[trigger] outcomes@[i]).0 < dim && outcomes@[i].1 < dim,
    ensures
        m.well_formed(),
        m.dim() == dim,
        forall|a: int, p: int|
            0 <= a < dim && 0 <= p < dim ==> #[trigger] m.cell(a, p) == pair_count(
                outcomes@,
                a,
                p,
                outcomes@.len() as int,
            ),
        m.total() == outcomes@.len(),
{
    let n = outcomes.len();
    let mut m = ConfusionMatrix::new(dim);
    let mut i: usize = 0;
    while i < n
        invariant
            n == outcomes@.len(),
            i <= n,
            m.well_formed(),
            m.dim() == dim,
            forall|k: int|
                0 <= k < n ==> (#[trigger] outcomes@[k]).0 < dim && outcomes@[k].1 < dim,
            forall|a: int, p: int|
                0 <= a < dim && 0 <= p < dim ==> #[trigger] m.cell(a, p) == pair_count(
                    outcomes@,
                    a,
                    p,
                    i as int,
                ),
        decreases n - i,
    {
        let (actual, predicted) = outcomes[i];
        proof {
            lemma_pair_count_le(outcomes@, actual as int, predicted as int, i as int);
        }
        m.record(actual, predicted);
        i = i + 1;
    }
    proof {
        m.lemma_tally_total(outcomes@);
    }
    m
}

/// Tallies the outcomes owned by shard `shard` of `num_shards`: those at
/// positions congruent to `shard` modulo `num_shards`, as one worker of
/// the parallel evaluation scan sees them.
pub fn tally_shard(
    dim: usize,
    outcomes: &Vec<(usize, usize)>,
    shard: usize,
    num_shards: usize,
) -> (m: ConfusionMatrix)
    requires
        num_shards >= 1,
        shard < num_shards,
        forall|i: int|
            0 <= i < outcomes@.len() ==> (#[trigger] outcomes@[i]).0 < dim && outcomes@[i].1 < dim,
    ensures
        m.well_formed(),
        m.dim() == dim,
        forall|a: int, p: int|
            0 <= a < dim && 0 <= p < dim ==> #[trigger] m.cell(a, p) == shard_pair_count(
                outcomes@,
                num_shards as int,
                shard as int,
                a,
                p,
                outcomes@.len() as int,
            ),
{
    let n = outcomes.len();
    let mut m = ConfusionMatrix::new(dim);
    let mut i: usize = 0;
    while i < n
        invariant
            n == outcomes@.len(),
            i <= n,
            num_shards >= 1,
            m.well_formed(),
            m.dim() == dim,
            forall|k: int|
                0 <= k < n ==> (#[trigger] outcomes@[k]).0 < dim && outcomes@[k].1 < dim,
            forall|a: int, p: int|
                0 <= a < dim && 0 <= p < dim ==> #[trigger] m.cell(a, p) == shard_pair_count(
                    outcomes@,
                    num_shards as int,
                    shard as int,
                    a,
                    p,
                    i as int,
                ),
        decreases n - i,
    {
        if i % num_shards == shard {
            let (actual, predicted) = outcomes[i];
            proof {
                lemma_shard_le_pair_count(
                    outcomes@,
                    num_shards as int,
                    shard as int,
                    actual as int,
                    predicted as int,
                    i as int,
                );
                lemma_pair_count_le(outcomes@, actual as int, predicted as int, i as int);
            }
            m.record(actual, predicted);
        }
        i = i + 1;
    }
    m
}

/// A shard's count of a cell is bounded by the whole stream's count.
proof fn lemma_shard_le_pair_count(
    outcomes: Seq<(usize, usize)>,
    m: int,
    t: int,
    a: int,
    p: int,
    upto: int,
)
    requires
        upto >= 0,
    ensures
        shard_pair_count(outcomes, m, t, a, p, upto) <= pair_count(outcomes, a, p, upto),
    decreases upto,
{
    if upto > 0 {
        lemma_shard_le_pair_count(outcomes, m, t, a, p, upto - 1);
    }
}

/// Runs the whole sharded evaluation: tallies every shard and reduces the
/// per-shard matrices by cell-wise addition.  The result is, cell for
/// cell, exactly the matrix of the linear scan over the same outcomes -
/// whatever the shard count - so sharding never changes the confusion
/// matrix or the accuracy.
pub fn evaluate_sharded(dim: usize, outcomes: &Vec<(usize, usize)>, num_shards: usize) -> (m:
    ConfusionMatrix)
    requires
        num_shards >= 1,
        forall|i: int|
            0 <= i < outcomes@.len() ==> (#[trigger] outcomes@[i]).0 < dim && outcomes@[i].1 < dim,
    ensures
        m.well_formed(),
        m.dim() == dim,
        forall|a: int, p: int|
            0 <= a < dim && 0 <= p < dim ==> #[trigger] m.cell(a, p) == pair_count(
                outcomes@,
                a,
                p,
                outcomes@.len() as int,
            ),
        m.total() == outcomes@.len(),
{
    let n = outcomes.len();
    let mut acc = ConfusionMatrix::new(dim);
    let mut t: usize = 0;
    while t < num_shards
        invariant
            n == outcomes@.len(),
            t <= num_shards,
            num_shards >= 1,
            acc.well_formed(),
            acc.dim() == dim,
            forall|k: int|
                0 <= k < n ==> (#[trigger] outcomes@[k]).0 < dim && outcomes@[k].1 < dim,
            forall|a: int, p: int|
                0 <= a < dim && 0 <= p < dim ==> #[trigger] acc.cell(a, p) == sum_shard_counts(
                    outcomes@,
                    num_shards as int,
                    a,
                    p,
                    t as int,
                    n as int,
                ),
        decreases num_shards - t,
    {
        let shard_matrix = tally_shard(dim, outcomes, t, num_shards);
        proof {
            assert forall|a: int, p: int| 0 <= a < dim && 0 <= p < dim implies #[trigger] acc.cell(
                a,
                p,
            ) + shard_matrix.cell(a, p) <= usize::MAX by {
                lemma_sum_shard_counts_mono(
                    outcomes@,
                    num_shards as int,
                    a,
                    p,
                    t as int + 1,
                    num_shards as int,
                    n as int,
                );
                lemma_sharded_tally_complete(outcomes@, num_shards as int, a, p, n as int);
                lemma_pair_count_le(outcomes@, a, p, n as int);
            }
        }
        acc.merge(&shard_matrix);
        t = t + 1;
    }
    proof {
        assert forall|a: int, p: int| 0 <= a < dim && 0 <= p < dim implies #[trigger] acc.cell(
            a,
            p,
        ) == pair_count(outcomes@, a, p, n as int) by {
            lemma_sharded_tally_complete(outcomes@, num_shards as int, a, p, n as int);
        }
        acc.lemma_tally_total(outcomes@);
    }
    acc
}

} // verus!
