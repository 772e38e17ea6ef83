use naivebayes::class_label::ClassLabel;
use naivebayes::error::ModelError;
use naivebayes::evaluation::evaluate_sharded;
use naivebayes::evaluation::tally;
use naivebayes::evaluation::tally_shard;
use naivebayes::evaluation::ConfusionMatrix;
use naivebayes::gaussian_classification::GaussianClassification;
use naivebayes::gaussian_feature::GaussianFeature;
use naivebayes::model::GaussianNaiveBayes;

/// Maps a double to a key whose unsigned order is the double's order;
/// the application uses the same map when it hands scores to `classify`.
fn score_key(x: f64) -> u64 {
    let bits = x.to_bits();
    if bits & 0x8000_0000_0000_0000 != 0 {
        !bits
    } else {
        bits | 0x8000_0000_0000_0000
    }
}

/// The Gaussian density of one trained estimator at `x`.
fn density(stat: &GaussianClassification, x: f64) -> f64 {
    let mean = f64::from_bits(stat.get_mean());
    let std = f64::from_bits(stat.get_std());
    let multiplier = 1.0 / (std * (2.0 * std::f64::consts::PI).sqrt());
    let exponent = -0.5 * ((x - mean) / std) * ((x - mean) / std);
    multiplier * exponent.exp()
}

/// The per-class log-likelihood scores of one sample, as keys.
fn scores_for(model: &GaussianNaiveBayes, sample: &[f64]) -> Vec<u64> {
    let mut scores: Vec<u64> = Vec::new();
    for c in 0..model.num_labels() {
        let label = model.label_at(c);
        let mut total: f64 = 0.0;
        for (f, &x) in sample.iter().enumerate() {
            let params = model.feature_at(f).class_params(&label).unwrap();
            let stat = GaussianClassification::create(params.0, params.1);
            total += density(&stat, x).log10();
        }
        let (class_count, feature_count) = model.feature_at(0).class_counts(&label).unwrap();
        let prior = class_count as f64 / feature_count as f64;
        total += prior.log10();
        scores.push(score_key(total));
    }
    scores
}

/// Two classes, one feature: class 0 is standard normal at 0, class 1 the
/// same shape at 5, with equal priors.
fn two_class_model() -> GaussianNaiveBayes {
    let feature = GaussianFeature {
        is_trained: true,
        sample_size: 8,
        classifications: vec![
            GaussianClassification {
                mean: 0.0f64.to_bits(),
                std: 1.0f64.to_bits(),
                sample_size: 4,
                square_mean_diffs: 0,
            },
            GaussianClassification {
                mean: 5.0f64.to_bits(),
                std: 1.0f64.to_bits(),
                sample_size: 4,
                square_mean_diffs: 0,
            },
        ],
    };
    GaussianNaiveBayes {
        labels: vec![ClassLabel::new(0, 48), ClassLabel::new(1, 49)],
        features: vec![feature],
    }
}

#[test]
fn classify_picks_the_nearer_class() {
    let model = two_class_model();
    let near_zero = model.classify(&scores_for(&model, &[0.2])).unwrap();
    assert_eq!(near_zero.get_index(), 0);
    let near_five = model.classify(&scores_for(&model, &[4.8])).unwrap();
    assert_eq!(near_five.get_index(), 1);
}

#[test]
fn classify_breaks_ties_towards_the_first_class() {
    let model = two_class_model();
    // 2.5 sits exactly between the two means; with equal deviations and
    // equal priors the scores tie, and the class iterated first - the
    // lower index - is kept.
    let scores = scores_for(&model, &[2.5]);
    assert_eq!(scores[0], scores[1]);
    let tied = model.classify(&scores).unwrap();
    assert_eq!(tied.get_index(), 0);
}

#[test]
fn classify_refuses_untrained_models() {
    let labels = vec![(0usize, 48u8), (1, 49)];
    let model = GaussianNaiveBayes::from_labels(&labels).unwrap();
    assert!(matches!(
        model.classify(&vec![0u64, 0u64]),
        Err(ModelError::UntrainedError)
    ));
}

/// A fixed stream of (actual, predicted) outcomes over three classes.
fn fixed_outcomes() -> Vec<(usize, usize)> {
    let mut outcomes: Vec<(usize, usize)> = Vec::new();
    for i in 0..23usize {
        let actual = i % 3;
        let predicted = if i % 5 == 0 { (actual + 1) % 3 } else { actual };
        outcomes.push((actual, predicted));
    }
    outcomes
}

#[test]
fn confusion_matrix_counts_outcomes() {
    let outcomes = vec![(0usize, 0usize), (0, 1), (1, 1), (1, 1), (0, 0)];
    let m = tally(2, &outcomes);
    assert_eq!(m.counts, vec![vec![2, 1], vec![0, 2]]);
    let (correct, total) = m.accuracy_counts();
    assert_eq!(correct, 4);
    assert_eq!(total, 5);
}

#[test]
fn confusion_matrix_shape_and_total() {
    let outcomes = fixed_outcomes();
    let m = tally(3, &outcomes);
    // Always square with one row per class, entries summing to the record
    // count, and the accuracy ratio inside the unit interval.
    assert_eq!(m.counts.len(), 3);
    for row in &m.counts {
        assert_eq!(row.len(), 3);
    }
    let (correct, total) = m.accuracy_counts();
    assert_eq!(total, outcomes.len());
    assert!(correct <= total);
}

#[test]
fn sharded_evaluation_matches_linear() {
    let outcomes = fixed_outcomes();
    let linear = tally(3, &outcomes);
    for shards in [1usize, 3, 7, 20] {
        let sharded = evaluate_sharded(3, &outcomes, shards);
        assert_eq!(sharded.counts, linear.counts);
        assert_eq!(sharded.accuracy_counts(), linear.accuracy_counts());
    }
}

#[test]
fn shards_partition_the_stream() {
    let outcomes = fixed_outcomes();
    let mut merged = ConfusionMatrix::new(3);
    for shard in 0..4usize {
        let part = tally_shard(3, &outcomes, shard, 4);
        merged.merge(&part);
    }
    assert_eq!(merged.counts, tally(3, &outcomes).counts);
}

#[test]
fn more_shards_than_records_changes_nothing() {
    let outcomes = vec![(0usize, 0usize), (1, 0), (2, 2)];
    let linear = tally(3, &outcomes);
    let sharded = evaluate_sharded(3, &outcomes, 50);
    assert_eq!(sharded.counts, linear.counts);
}

#[test]
fn empty_evaluation_gives_empty_counts() {
    let outcomes: Vec<(usize, usize)> = Vec::new();
    let m = tally(2, &outcomes);
    let (correct, total) = m.accuracy_counts();
    assert_eq!(correct, 0);
    assert_eq!(total, 0);
}
