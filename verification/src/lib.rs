//! A Gaussian naive Bayes classifier.
//!
//! The library learns, for each (feature, class) pair, a one-dimensional
//! normal distribution from labelled numeric samples, classifies new samples
//! by maximum log-likelihood, and evaluates accuracy over held-out data with
//! a sharded scan whose reduction is proved equal to the linear scan.
//!
//! Verus excludes floating-point arithmetic, so every floating-point quantity
//! (running means, standard deviations, likelihood scores) is carried through
//! the verified core as its IEEE-754 bit pattern in a `u64`.  The caller
//! performs the floating-point steps and hands the resulting bit patterns
//! back; everything else - counts, shapes, training state, the confusion
//! matrix, the argmax decision, and the persistence format - is verified.

pub mod class_label;
pub mod codec;
pub mod dataset;
pub mod discrete_classification;
pub mod discrete_feature;
pub mod error;
pub mod evaluation;
pub mod gaussian_classification;
pub mod gaussian_feature;
pub mod matrix;
pub mod model;
pub mod shading;
pub mod training_image;
