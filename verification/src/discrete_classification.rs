//! Occurrence counting for the discrete (categorical) feature stub.

use vstd::prelude::*;
use crate::error::ModelError;

verus! {

/// Per-class occurrence counts for a categorical feature.  Each recorded
/// sample appends its own entry; when the class was already present, the
/// first entry for it is incremented as well, and later duplicates shadow
/// nothing because lookups stop at the first match.
pub struct DiscreteClassification {
    pub sample_size: usize,
    pub occurrences: Vec<usize>,
    pub classes: Vec<String>,
}

impl DiscreteClassification {
    /// One count per listed class, and no count can exceed the number of
    /// samples recorded.
    pub open spec fn well_formed(self) -> bool {
        &&& self.occurrences@.len() == self.classes@.len()
        &&& forall|i: int|
            0 <= i < self.occurrences@.len() ==> #[trigger] self.occurrences@[i] <= self.sample_size
    }

    /// True when `sample` first appears in `classes` at `j`.
    pub open spec fn first_match_at(self, sample: Seq<char>, j: int) -> bool {
        &&& 0 <= j < self.classes@.len()
        &&& self.classes@[j]@ == sample
        &&& forall|k: int| 0 <= k < j ==> (#[trigger] self.classes@[k])@ != sample
    }

    /// `sample` does not appear in `classes` at all.
    pub open spec fn no_match(self, sample: Seq<char>) -> bool {
        forall|k: int| 0 <= k < self.classes@.len() ==> (#[trigger] self.classes@[k])@ != sample
    }

    /// Records one sample of class `sample`: bumps the total, bumps the
    /// count of the first entry for `sample` when one exists, and appends a
    /// fresh entry counting one.
    pub fn add_occurrence(&mut self, sample: &String)
        requires
            old(self).well_formed(),
            old(self).sample_size < usize::MAX,
        ensures
            final(self).well_formed(),
            final(self).sample_size == old(self).sample_size + 1,
            final(self).classes@.len() == old(self).classes@.len() + 1,
            forall|i: int|
                0 <= i < old(self).classes@.len() ==> (#[trigger] final(self).classes@[i])@
                    == old(self).classes@[i]@,
            final(self).classes@[old(self).classes@.len() as int]@ == sample@,
            (exists|j: int|
                old(self).first_match_at(sample@, j) && final(self).occurrences@ == old(
                    self,
                ).occurrences@.update(j, (old(self).occurrences@[j] + 1) as usize).push(1)) || (old(
                self,
            ).no_match(sample@) && final(self).occurrences@ == old(self).occurrences@.push(1)),
    {
        self.sample_size = self.sample_size + 1;
        let ghost pre = *self;
        let n = self.classes.len();
        let mut i: usize = 0;
        let mut matched: bool = false;
        while i < n && !matched
            invariant
                *self == pre,
                n == self.classes@.len(),
                i <= n,
                !matched ==> forall|k: int| 0 <= k < i ==> (#[trigger] self.classes@[k])@ != sample@,
                matched ==> i < n && pre.first_match_at(sample@, i as int),
            decreases n - i + (if matched { 0int } else { 1int }),
        {
            if self.classes[i].eq(sample) {
                matched = true;
            } else {
                i = i + 1;
            }
        }
        if matched {
            let bumped = self.occurrences[i] + 1;
            self.occurrences[i] = bumped;
            self.classes.push(sample.clone());
            self.occurrences.push(1);
            proof {
                let j = i as int;
                assert(old(self).first_match_at(sample@, j));
                assert(self.occurrences@ =~= old(self).occurrences@.update(
                    j,
                    (old(self).occurrences@[j] + 1) as usize,
                ).push(1));
            }
        } else {
            self.classes.push(sample.clone());
            self.occurrences.push(1);
            proof {
                assert(old(self).no_match(sample@));
                assert(self.occurrences@ =~= old(self).occurrences@.push(1));
            }
        }
    }

    /// The number of class entries recorded so far (duplicates included).
    pub fn get_num_classes(&self) -> (n: usize)
        ensures
            n == self.classes@.len(),
    {
        self.classes.len()
    }

    /// The count held by the first entry for `sample`, or `FeatureNotFound`
    /// when no entry matches.
    pub fn get_class_occurrences(&self, sample: &String) -> (r: Result<usize, ModelError>)
        requires
            self.well_formed(),
        ensures
            match r {
                Ok(count) => exists|j: int|
                    self.first_match_at(sample@, j) && count == self.occurrences@[j],
                Err(e) => e == ModelError::FeatureNotFound && self.no_match(sample@),
            },
    {
        let n = self.classes.len();
        let mut idx: usize = 0;
        while idx < n
            invariant
                n == self.classes@.len(),
                self.well_formed(),
                idx <= n,
                forall|k: int| 0 <= k < idx ==> (#[trigger] self.classes@[k])@ != sample@,
            decreases n - idx,
        {
            if self.classes[idx].eq(sample) {
                return Ok(self.occurrences[idx]);
            }
            idx = idx + 1;
        }
        Err(ModelError::FeatureNotFound)
    }
}

impl Default for DiscreteClassification {
    /// An empty record: no samples, no classes.
    fn default() -> (d: DiscreteClassification)
        ensures
            d.sample_size == 0,
            d.occurrences@ =~= Seq::<usize>::empty(),
            d.classes@ =~= Seq::<String>::empty(),
    {
        DiscreteClassification { sample_size: 0, occurrences: Vec::new(), classes: Vec::new() }
    }
}

} // verus!
