//! Typed failures surfaced by the model.

use vstd::prelude::*;

verus! {

/// Everything that can go wrong while training, classifying, evaluating or
/// decoding a model.
#[derive(Debug, Clone, Copy, PartialEq, Eq, Structural)]
pub enum ModelError {
    /// A likelihood, prior or classification was requested before training
    /// finished.
    UntrainedError,
    /// A queried class was absent from the data a feature was trained on.
    FeatureNotFound,
    /// A record referenced a class index outside the loaded label set.
    LabelIndexOutOfRange,
    /// A record's field could not be read as a number, or its column count
    /// did not match the first record.
    RecordParseError,
    /// Persisted bytes could not be decoded into a model.
    SerializationError,
}

impl ModelError {
    /// A human-readable description of the failure.
    pub fn value(&self) -> (r: &'static str)
        ensures
            r@ == self.message(),
    {
        match *self {
            ModelError::UntrainedError => "The model has not been fully trained.",
            ModelError::FeatureNotFound => "The feature was not present in the provided training data.",
            ModelError::LabelIndexOutOfRange => "The record's class index is outside the loaded label set.",
            ModelError::RecordParseError => "The record could not be parsed.",
            ModelError::SerializationError => "The bytes do not encode a model.",
        }
    }

    /// The text `value` returns for each variant.
    pub open spec fn message(self) -> Seq<char> {
        match self {
            ModelError::UntrainedError => "The model has not been fully trained."@,
            ModelError::FeatureNotFound => "The feature was not present in the provided training data."@,
            ModelError::LabelIndexOutOfRange => "The record's class index is outside the loaded label set."@,
            ModelError::RecordParseError => "The record could not be parsed."@,
            ModelError::SerializationError => "The bytes do not encode a model."@,
        }
    }
}

} // verus!
