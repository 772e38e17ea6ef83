//! The model: the ordered class list, the trained features, and the
//! classification decision.

use vstd::prelude::*;
use crate::class_label::ClassLabel;
use crate::error::ModelError;
use crate::gaussian_classification::GaussianClassification;
use crate::gaussian_feature::FeatureView;
use crate::gaussian_feature::GaussianFeature;

verus! {

/// The mathematical content of a model: its labels and its features.
pub ghost struct ModelView {
    pub labels: Seq<ClassLabel>,
    pub features: Seq<FeatureView>,
}

/// The value of one byte read as a decimal digit; anything else counts
/// zero, and `is_decimal` rules such bytes out.
pub open spec fn digit_val(b: u8) -> nat {
    if 48 <= b <= 57 {
        (b - 48) as nat
    } else {
        0
    }
}

/// A non-empty run of decimal digit bytes.
pub open spec fn is_decimal(s: Seq<u8>) -> bool {
    s.len() > 0 && forall|i: int| 0 <= i < s.len() ==> 48 <= #[trigger] s[i] <= 57
}

/// The number the first `k` bytes spell in decimal.
pub open spec fn decimal_val(s: Seq<u8>, k: int) -> nat
    decreases k,
{
    if k <= 0 {
        0
    } else {
        decimal_val(s, k - 1) * 10 + digit_val(s[k - 1])
    }
}

/// Reading more digits never shrinks the value.
proof fn lemma_decimal_val_grows(s: Seq<u8>, k: int, m: int)
    requires
        k <= m,
    ensures
        decimal_val(s, k) <= decimal_val(s, m),
    decreases m - k,
{
    if k < m {
        lemma_decimal_val_grows(s, k, m - 1);
    }
}

/// Parses the class-index column of a record: a non-empty run of decimal
/// digits whose value fits the platform's indices.  Anything else - an
/// empty field, a stray byte, a value too large - is a record parse
/// failure.
pub fn parse_class_index(field: &[u8]) -> (r: Result<usize, ModelError>)
    ensures
        match r {
            Ok(v) => is_decimal(field@) && v == decimal_val(field@, field@.len() as int)
                && decimal_val(field@, field@.len() as int) <= usize::MAX,
            Err(e) => e == ModelError::RecordParseError && (!is_decimal(field@) || decimal_val(
                field@,
                field@.len() as int,
            ) > usize::MAX),
        },
{
    let n = field.len();
    if n == 0 {
        return Err(ModelError::RecordParseError);
    }
    let mut acc: usize = 0;
    let mut i: usize = 0;
    while i < n
        invariant
            n == field@.len(),
            i <= n,
            forall|k: int| 0 <= k < i ==> 48 <= #[trigger] field@[k] <= 57,
            acc == decimal_val(field@, i as int),
        decreases n - i,
    {
        let b = field[i];
        if b < 48 || b > 57 {
            return Err(ModelError::RecordParseError);
        }
        let d = (b - 48) as usize;
        if acc > (usize::MAX - d) / 10 {
            proof {
                let q = (usize::MAX - d) as int / 10;
                vstd::arithmetic::div_mod::lemma_fundamental_div_mod((usize::MAX - d) as int, 10);
                vstd::arithmetic::div_mod::lemma_mod_division_less_than_divisor(
                    (usize::MAX - d) as int,
                    10,
                );
                assert(acc * 10 >= (q + 1) * 10) by (nonlinear_arith)
                    requires
                        acc >= q + 1,
                ;
                assert(decimal_val(field@, i as int + 1) > usize::MAX);
                lemma_decimal_val_grows(field@, i as int + 1, n as int);
            }
            return Err(ModelError::RecordParseError);
        }
        proof {
            let q = (usize::MAX - d) as int / 10;
            vstd::arithmetic::div_mod::lemma_fundamental_div_mod((usize::MAX - d) as int, 10);
            vstd::arithmetic::div_mod::lemma_mod_division_less_than_divisor(
                (usize::MAX - d) as int,
                10,
            );
            assert(acc * 10 <= q * 10) by (nonlinear_arith)
                requires
                    acc <= q,
            ;
        }
        acc = acc * 10 + d;
        i = i + 1;
    }
    Ok(acc)
}

/// A Gaussian naive Bayes model: one `ClassLabel` per class, in dense index
/// order, and one `GaussianFeature` per data column.
///
/// Likelihood scores are floating-point work and are computed by the
/// caller, one score per class, from the trained parameters the accessors
/// expose; they are handed back as `u64` keys whose integer order is the
/// order of the scores (for doubles, flipping negative patterns gives such
/// a key).  The decision itself - the argmax with its fixed first-wins tie
/// break - is verified here.
pub struct GaussianNaiveBayes {
    pub labels: Vec<ClassLabel>,
    pub features: Vec<GaussianFeature>,
}

impl View for GaussianNaiveBayes {
    type V = ModelView;

    open spec fn view(&self) -> ModelView {
        ModelView { labels: self.labels@, features: self.features@.map_values(|f: GaussianFeature| f@) }
    }
}

impl GaussianNaiveBayes {
    /// Labels carry exactly their position as dense index, and every
    /// feature holds one estimator per class.
    pub open spec fn well_formed(self) -> bool {
        &&& forall|i: int| 0 <= i < self.labels@.len() ==> (#[trigger] self.labels@[i]).index == i
        &&& forall|f: int|
            0 <= f < self.features@.len() ==> (#[trigger] self.features@[f]).classifications@.len()
                == self.labels@.len()
    }

    /// The model answers classification queries only once every feature
    /// completed both passes, and a model without features is untrained.
    pub open spec fn trained(self) -> bool {
        &&& self.features@.len() > 0
        &&& forall|f: int| 0 <= f < self.features@.len() ==> (#[trigger] self.features@[f]).is_trained
    }

    /// `i` is the position of the first maximum of `scores`.
    pub open spec fn is_first_max(scores: Seq<u64>, i: int) -> bool {
        &&& 0 <= i < scores.len()
        &&& forall|k: int| 0 <= k < scores.len() ==> #[trigger] scores[k] <= scores[i]
        &&& forall|k: int| 0 <= k < i ==> #[trigger] scores[k] < scores[i]
    }

    /// Builds an untrained model from the label entries of the label
    /// source, each an index with its byte symbol.  The entries must form a
    /// dense range: entry `i` must carry index `i`.  A gap or permutation
    /// is rejected at once rather than faulting during a later array
    /// access.
    pub fn from_labels(entries: &Vec<(usize, u8)>) -> (r: Result<
        GaussianNaiveBayes,
        ModelError,
    >)
        ensures
            match r {
                Ok(m) => {
                    &&& forall|i: int|
                        0 <= i < entries@.len() ==> (#[trigger] entries@[i]).0 == i
                    &&& m.labels@.len() == entries@.len()
                    &&& forall|i: int|
                        0 <= i < entries@.len() ==> #[trigger] m.labels@[i] == (ClassLabel {
                            index: entries@[i].0,
                            ascii: entries@[i].1,
                        })
                    &&& m.features@.len() == 0
                    &&& m.well_formed()
                },
                Err(e) => e == ModelError::LabelIndexOutOfRange && exists|i: int|
                    0 <= i < entries@.len() && (#[trigger] entries@[i]).0 != i,
            },
    {
        let n = entries.len();
        let mut labels: Vec<ClassLabel> = Vec::new();
        let mut i: usize = 0;
        while i < n
            invariant
                n == entries@.len(),
                i <= n,
                labels@.len() == i,
                forall|k: int| 0 <= k < i ==> (#[trigger] entries@[k]).0 == k,
                forall|k: int|
                    0 <= k < i ==> #[trigger] labels@[k] == (ClassLabel {
                        index: entries@[k].0,
                        ascii: entries@[k].1,
                    }),
            decreases n - i,
        {
            let (index, ascii) = entries[i];
            if index != i {
                return Err(ModelError::LabelIndexOutOfRange);
            }
            labels.push(ClassLabel::new(index, ascii));
            i = i + 1;
        }
        Ok(GaussianNaiveBayes { labels, features: Vec::new() })
    }

    /// Sizes the feature list from the width of the first training record:
    /// one feature per column after the label column, each with one
    /// estimator per class.  A record with no columns at all cannot even
    /// name a label and is a parse failure.
    pub fn init_features(&mut self, record_width: usize) -> (r: Result<(), ModelError>)
        ensures
            match r {
                Ok(()) => {
                    &&& record_width >= 1
                    &&& final(self).labels@ == old(self).labels@
                    &&& final(self).features@.len() == record_width - 1
                    &&& forall|f: int|
                        0 <= f < record_width - 1 ==> {
                            &&& !(#[trigger] final(self).features@[f]).is_trained
                            &&& final(self).features@[f].sample_size == 0
                            &&& final(self).features@[f].classifications@.len() == old(
                                self,
                            ).labels@.len()
                            &&& forall|c: int|
                                0 <= c < old(self).labels@.len()
                                    ==> #[trigger] final(self).features@[f].classifications@[c]
                                    == (GaussianClassification {
                                    mean: 0,
                                    std: 0,
                                    sample_size: 0,
                                    square_mean_diffs: 0,
                                })
                        }
                },
                Err(e) => e == ModelError::RecordParseError && record_width == 0 && *final(self)
                    == *old(self),
            },
    {
        if record_width == 0 {
            return Err(ModelError::RecordParseError);
        }
        let count = record_width - 1;
        let classes = self.labels.len();
        let mut features: Vec<GaussianFeature> = Vec::new();
        let mut f: usize = 0;
        while f < count
            invariant
                features@.len() == f,
                f <= count,
                forall|k: int|
                    0 <= k < f ==> {
                        &&& !(#[trigger] features@[k]).is_trained
                        &&& features@[k].sample_size == 0
                        &&& features@[k].classifications@.len() == classes
                        &&& forall|c: int|
                            0 <= c < classes ==> #[trigger] features@[k].classifications@[c]
                                == (GaussianClassification {
                                mean: 0,
                                std: 0,
                                sample_size: 0,
                                square_mean_diffs: 0,
                            })
                    },
                classes == self.labels@.len(),
                *self == *old(self),
            decreases count - f,
        {
            features.push(GaussianFeature::new(classes));
            f = f + 1;
        }
        self.features = features;
        Ok(())
    }

    /// Applies one training record to every feature.  `label_index` is the
    /// parsed label column; `updates` carries, per feature, the bit pattern
    /// the caller computed for this pass (pass 0 the updated running mean
    /// of that feature's estimator for this class, pass 1 its updated
    /// squared-deviation sum).  A label outside the loaded set and a column
    /// count differing from the first record are rejected with nothing
    /// changed.
    pub fn train_record(&mut self, label_index: usize, updates: &Vec<u64>, iter: usize) -> (r:
        Result<(), ModelError>)
        requires
            old(self).well_formed(),
            iter == 0 ==> forall|f: int|
                0 <= f < old(self).features@.len() ==> (#[trigger] old(
                    self,
                ).features@[f]).sample_size < usize::MAX && forall|c: int|
                    0 <= c < old(self).features@[f].classifications@.len() ==> (#[trigger] old(
                        self,
                    ).features@[f].classifications@[c]).sample_size < usize::MAX,
        ensures
            final(self).labels@ == old(self).labels@,
            final(self).well_formed(),
            match r {
                Ok(()) => {
                    &&& label_index < old(self).labels@.len()
                    &&& updates@.len() == old(self).features@.len()
                    &&& final(self).features@.len() == old(self).features@.len()
                    &&& forall|f: int|
                        0 <= f < old(self).features@.len()
                            ==> GaussianFeature::train_iter_rel(
                            old(self).features@[f],
                            #[trigger] final(self).features@[f],
                            label_index as int,
                            updates@[f],
                            iter,
                        )
                },
                Err(e) => {
                    &&& *final(self) == *old(self)
                    &&& (e == ModelError::LabelIndexOutOfRange <==> label_index >= old(
                        self,
                    ).labels@.len())
                    &&& (e == ModelError::RecordParseError ==> label_index < old(
                        self,
                    ).labels@.len() && updates@.len() != old(self).features@.len())
                    &&& (e == ModelError::LabelIndexOutOfRange || e
                        == ModelError::RecordParseError)
                },
            },
            r is Ok <==> (label_index < old(self).labels@.len() && updates@.len() == old(
                self,
            ).features@.len()),
    {
        if label_index >= self.labels.len() {
            return Err(ModelError::LabelIndexOutOfRange);
        }
        if updates.len() != self.features.len() {
            return Err(ModelError::RecordParseError);
        }
        let label = self.labels[label_index];
        let n = self.features.len();
        let mut f: usize = 0;
        while f < n
            invariant
                n == self.features@.len(),
                n == old(self).features@.len(),
                n == updates@.len(),
                f <= n,
                label == old(self).labels@[label_index as int],
                label.index == label_index,
                label_index < old(self).labels@.len(),
                self.labels@ == old(self).labels@,
                iter == 0 ==> forall|k: int|
                    f <= k < n ==> (#[trigger] self.features@[k]).sample_size < usize::MAX
                        && forall|c: int|
                        0 <= c < self.features@[k].classifications@.len()
                            ==> (#[trigger] self.features@[k].classifications@[c]).sample_size
                            < usize::MAX,
                forall|k: int|
                    0 <= k < f ==> GaussianFeature::train_iter_rel(
                        old(self).features@[k],
                        #[trigger] self.features@[k],
                        label_index as int,
                        updates@[k],
                        iter,
                    ),
                forall|k: int| f <= k < n ==> #[trigger] self.features@[k] == old(self).features@[k],
                forall|k: int|
                    0 <= k < n ==> label_index < (#[trigger] self.features@[k]).classifications@.len(),
            decreases n - f,
        {
            let update = updates[f];
            let feature = &mut self.features[f];
            feature.train_iter(&label, update, iter);
            f = f + 1;
        }
        Ok(())
    }

    /// Fixes every feature's deviations and marks them trained.
    /// `candidates` holds one candidate deviation per feature per class,
    /// each evaluated by the caller as
    /// `sqrt(square_mean_diffs / (sample_size - 1))` on the doubles.
    pub fn prepare(&mut self, candidates: &Vec<Vec<u64>>)
        requires
            candidates@.len() == old(self).features@.len(),
            forall|f: int|
                0 <= f < old(self).features@.len() ==> (#[trigger] candidates@[f])@.len() == old(
                    self,
                ).features@[f].classifications@.len(),
        ensures
            final(self).labels@ == old(self).labels@,
            final(self).features@.len() == old(self).features@.len(),
            forall|f: int|
                0 <= f < old(self).features@.len() ==> {
                    &&& (#[trigger] final(self).features@[f]).is_trained
                    &&& final(self).features@[f].sample_size == old(self).features@[f].sample_size
                    &&& final(self).features@[f].classifications@.len() == old(
                        self,
                    ).features@[f].classifications@.len()
                    &&& forall|c: int|
                        0 <= c < old(self).features@[f].classifications@.len()
                            ==> #[trigger] final(self).features@[f].classifications@[c]
                            == (GaussianClassification {
                            std: GaussianClassification::clamped_std(
                                old(self).features@[f].classifications@[c].sample_size,
                                candidates@[f]@[c],
                            ),
                            ..old(self).features@[f].classifications@[c]
                        })
                },
    {
        let n = self.features.len();
        let mut f: usize = 0;
        while f < n
            invariant
                n == self.features@.len(),
                n == old(self).features@.len(),
                n == candidates@.len(),
                f <= n,
                self.labels@ == old(self).labels@,
                forall|k: int|
                    0 <= k < n ==> (#[trigger] candidates@[k])@.len() == old(
                        self,
                    ).features@[k].classifications@.len(),
                forall|k: int| f <= k < n ==> #[trigger] self.features@[k] == old(self).features@[k],
                forall|k: int|
                    0 <= k < f ==> {
                        &&& (#[trigger] self.features@[k]).is_trained
                        &&& self.features@[k].sample_size == old(self).features@[k].sample_size
                        &&& self.features@[k].classifications@.len() == old(
                            self,
                        ).features@[k].classifications@.len()
                        &&& forall|c: int|
                            0 <= c < old(self).features@[k].classifications@.len()
                                ==> #[trigger] self.features@[k].classifications@[c]
                                == (GaussianClassification {
                                std: GaussianClassification::clamped_std(
                                    old(self).features@[k].classifications@[c].sample_size,
                                    candidates@[k]@[c],
                                ),
                                ..old(self).features@[k].classifications@[c]
                            })
                    },
            decreases n - f,
        {
            let candidate_row = &candidates[f];
            let feature = &mut self.features[f];
            feature.prepare(candidate_row);
            f = f + 1;
        }
    }

    /// Whether every feature is trained and at least one feature exists.
    pub fn is_trained(&self) -> (t: bool)
        ensures
            t == self.trained(),
    {
        let n = self.features.len();
        if n == 0 {
            return false;
        }
        let mut f: usize = 0;
        while f < n
            invariant
                n == self.features@.len(),
                f <= n,
                forall|k: int| 0 <= k < f ==> (#[trigger] self.features@[k]).is_trained,
            decreases n - f,
        {
            if !self.features[f].is_trained() {
                return false;
            }
            f = f + 1;
        }
        true
    }

    /// The number of classes the model distinguishes.
    pub fn num_labels(&self) -> (n: usize)
        ensures
            n == self.labels@.len(),
    {
        self.labels.len()
    }

    /// The number of feature columns.
    pub fn num_features(&self) -> (n: usize)
        ensures
            n == self.features@.len(),
    {
        self.features.len()
    }

    /// The label at a dense class index.
    pub fn label_at(&self, index: usize) -> (label: ClassLabel)
        requires
            index < self.labels@.len(),
        ensures
            label == self.labels@[index as int],
    {
        self.labels[index]
    }

    /// The feature at a column index.
    pub fn feature_at(&self, index: usize) -> (feature: &GaussianFeature)
        requires
            index < self.features@.len(),
        ensures
            *feature == self.features@[index as int],
    {
        &self.features[index]
    }

    /// The classification decision: the class with the greatest score wins,
    /// and of equal scores the one iterated first - the lowest class index
    /// - is kept, a fixed tie break.  `scores` holds one order-preserving
    /// key per class, computed by the caller as
    /// `sum over features of log10(density) + log10(prior)` on the doubles.
    /// An untrained model refuses to classify.
    pub fn classify(&self, scores: &Vec<u64>) -> (r: Result<ClassLabel, ModelError>)
        requires
            scores@.len() == self.labels@.len(),
        ensures
            match r {
                Ok(label) => {
                    &&& self.trained()
                    &&& self.labels@.len() > 0
                    &&& exists|i: int|
                        GaussianNaiveBayes::is_first_max(scores@, i) && label == self.labels@[i]
                },
                Err(e) => {
                    ||| (e == ModelError::UntrainedError && !self.trained())
                    ||| (e == ModelError::FeatureNotFound && self.trained() && self.labels@.len()
                        == 0)
                },
            },
    {
        if !self.is_trained() {
            return Err(ModelError::UntrainedError);
        }
        let n = self.labels.len();
        if n == 0 {
            return Err(ModelError::FeatureNotFound);
        }
        let mut best: usize = 0;
        let mut best_score: u64 = scores[0];
        let mut i: usize = 1;
        while i < n
            invariant
                n == self.labels@.len(),
                n == scores@.len(),
                1 <= i <= n,
                best < i,
                best_score == scores@[best as int],
                forall|k: int| 0 <= k < i ==> #[trigger] scores@[k] <= best_score,
                forall|k: int| 0 <= k < best ==> #[trigger] scores@[k] < best_score,
            decreases n - i,
        {
            if scores[i] > best_score {
                best = i;
                best_score = scores[i];
            }
            i = i + 1;
        }
        proof {
            assert(GaussianNaiveBayes::is_first_max(scores@, best as int));
        }
        Ok(self.labels[best])
    }
}

} // verus!
