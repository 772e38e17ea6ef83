use naivebayes::error::ModelError;
use naivebayes::gaussian_classification::GaussianClassification;
use naivebayes::gaussian_classification::MIN_STD_BITS;
use naivebayes::model::parse_class_index;
use naivebayes::model::GaussianNaiveBayes;

/// Runs the two-pass training of one estimator over a value stream,
/// performing the floating-point steps the way the surrounding
/// application does and handing the bit patterns to the library.
fn train_two_pass(values: &[f64]) -> GaussianClassification {
    let mut stat = GaussianClassification::new();
    for &x in values {
        let mean = f64::from_bits(stat.get_mean());
        let n = stat.get_sample_size();
        let updated = mean + (x - mean) / ((n + 1) as f64);
        stat.add_value_for_mean(updated.to_bits());
    }
    for &x in values {
        let mean = f64::from_bits(stat.get_mean());
        let sum = f64::from_bits(stat.get_square_mean_diffs());
        let updated = sum + (x - mean) * (x - mean);
        stat.add_value_for_std(updated.to_bits());
    }
    let n = stat.get_sample_size();
    let candidate = (f64::from_bits(stat.get_square_mean_diffs()) / ((n - 1) as f64)).sqrt();
    stat.configure_std(candidate.to_bits());
    stat
}

#[test]
fn min_std_is_the_documented_floor() {
    assert_eq!(f64::from_bits(MIN_STD_BITS), 1.0e-10);
}

#[test]
fn two_pass_matches_batch_formulas() {
    let values = [2.0f64, 4.25, 4.5, 4.0, 5.125, 5.0, 7.75, 9.0, 3.5, 6.25];
    let stat = train_two_pass(&values);
    let n = values.len() as f64;
    let batch_mean: f64 = values.iter().sum::<f64>() / n;
    let batch_std: f64 =
        (values.iter().map(|x| (x - batch_mean) * (x - batch_mean)).sum::<f64>() / (n - 1.0))
            .sqrt();
    let mean = f64::from_bits(stat.get_mean());
    let std = f64::from_bits(stat.get_std());
    assert_eq!(stat.get_sample_size(), values.len());
    assert!(((mean - batch_mean) / batch_mean).abs() < 1.0e-9);
    assert!(((std - batch_std) / batch_std).abs() < 1.0e-9);
}

#[test]
fn constant_feature_floors_the_deviation() {
    let values = [4.25f64, 4.25, 4.25, 4.25, 4.25];
    let stat = train_two_pass(&values);
    // Zero variance is clamped to the floor, never zero...
    assert_eq!(stat.get_std(), MIN_STD_BITS);
    assert_eq!(f64::from_bits(stat.get_mean()), 4.25);
    // ...so the density at the constant value stays finite.
    let mean = f64::from_bits(stat.get_mean());
    let std = f64::from_bits(stat.get_std());
    let multiplier = 1.0 / (std * (2.0 * std::f64::consts::PI).sqrt());
    let exponent = -0.5 * ((4.25 - mean) / std) * ((4.25 - mean) / std);
    let density = multiplier * exponent.exp();
    assert!(density.is_finite());
}

#[test]
fn single_sample_floors_the_deviation() {
    let mut stat = GaussianClassification::new();
    stat.add_value_for_mean(10.0f64.to_bits());
    stat.add_value_for_std(0.0f64.to_bits());
    // With one sample the divisor would be zero; the candidate is ignored
    // and the floor stored directly.
    stat.configure_std((0.0f64 / 0.0f64).sqrt().to_bits());
    assert_eq!(stat.get_std(), MIN_STD_BITS);
    assert_eq!(stat.get_sample_size(), 1);
}

#[test]
fn create_keeps_the_given_parameters() {
    let stat = GaussianClassification::create(1.5f64.to_bits(), 0.25f64.to_bits());
    assert_eq!(f64::from_bits(stat.get_mean()), 1.5);
    assert_eq!(f64::from_bits(stat.get_std()), 0.25);
    assert_eq!(stat.get_sample_size(), 0);
}

#[test]
fn from_labels_requires_dense_indices() {
    let good = vec![(0usize, 48u8), (1, 49), (2, 50)];
    let model = GaussianNaiveBayes::from_labels(&good).unwrap();
    assert_eq!(model.num_labels(), 3);
    assert_eq!(model.label_at(2).get_ascii(), 50);
    assert_eq!(model.num_features(), 0);
    assert!(!model.is_trained());

    let gapped = vec![(0usize, 48u8), (2, 50)];
    assert!(matches!(
        GaussianNaiveBayes::from_labels(&gapped),
        Err(ModelError::LabelIndexOutOfRange)
    ));
}

#[test]
fn init_features_sizes_from_record_width() {
    let labels = vec![(0usize, 48u8), (1, 49)];
    let mut model = GaussianNaiveBayes::from_labels(&labels).unwrap();
    assert!(matches!(model.init_features(0), Err(ModelError::RecordParseError)));
    model.init_features(4).unwrap();
    assert_eq!(model.num_features(), 3);
    for f in 0..3 {
        let feature = model.feature_at(f);
        assert!(!feature.is_trained());
    }
}

#[test]
fn train_record_rejects_bad_records() {
    let labels = vec![(0usize, 48u8), (1, 49)];
    let mut model = GaussianNaiveBayes::from_labels(&labels).unwrap();
    model.init_features(2).unwrap();
    assert!(matches!(
        model.train_record(5, &vec![0u64], 0),
        Err(ModelError::LabelIndexOutOfRange)
    ));
    assert!(matches!(
        model.train_record(0, &vec![0u64, 0u64], 0),
        Err(ModelError::RecordParseError)
    ));
    model.train_record(0, &vec![2.0f64.to_bits()], 0).unwrap();
}

/// One training pass of the model over parsed records, with the
/// floating-point steps done here as the application would.
fn run_pass(model: &mut GaussianNaiveBayes, records: &[(usize, Vec<f64>)], pass: usize) {
    for (label_index, values) in records {
        let mut updates: Vec<u64> = Vec::new();
        for (f, &x) in values.iter().enumerate() {
            let label = model.label_at(*label_index);
            let stat = model.feature_at(f).get_class(&label);
            let word = if pass == 0 {
                let mean = f64::from_bits(stat.get_mean());
                let n = stat.get_sample_size();
                (mean + (x - mean) / ((n + 1) as f64)).to_bits()
            } else {
                let mean = f64::from_bits(stat.get_mean());
                let sum = f64::from_bits(stat.get_square_mean_diffs());
                (sum + (x - mean) * (x - mean)).to_bits()
            };
            updates.push(word);
        }
        model.train_record(*label_index, &updates, pass).unwrap();
    }
}

/// Finalizes every feature, evaluating the deviation candidates here.
fn finish_training(model: &mut GaussianNaiveBayes) {
    let mut candidates: Vec<Vec<u64>> = Vec::new();
    for f in 0..model.num_features() {
        let mut row: Vec<u64> = Vec::new();
        for c in 0..model.num_labels() {
            let label = model.label_at(c);
            let stat = model.feature_at(f).get_class(&label);
            let n = stat.get_sample_size();
            let sum = f64::from_bits(stat.get_square_mean_diffs());
            let candidate = (sum / ((n as f64) - 1.0)).sqrt();
            row.push(candidate.to_bits());
        }
        candidates.push(row);
    }
    model.prepare(&candidates);
}

#[test]
fn three_row_training_scenario() {
    // Label column 0,1,0 over one feature column with values 1.0, 10.0, 3.0.
    let labels = vec![(0usize, 48u8), (1, 49)];
    let mut model = GaussianNaiveBayes::from_labels(&labels).unwrap();
    model.init_features(2).unwrap();
    let records = vec![
        (0usize, vec![1.0f64]),
        (1usize, vec![10.0f64]),
        (0usize, vec![3.0f64]),
    ];
    run_pass(&mut model, &records, 0);
    run_pass(&mut model, &records, 1);
    finish_training(&mut model);
    assert!(model.is_trained());

    let class0 = model.feature_at(0).get_class(&model.label_at(0)).clone();
    assert_eq!(f64::from_bits(class0.get_mean()), 2.0);
    assert_eq!(class0.get_sample_size(), 2);
    assert_eq!(f64::from_bits(class0.get_std()), 2.0f64.sqrt());

    let class1 = model.feature_at(0).get_class(&model.label_at(1)).clone();
    assert_eq!(f64::from_bits(class1.get_mean()), 10.0);
    assert_eq!(class1.get_sample_size(), 1);
    // One sample: the deviation is floored to the minimum.
    assert_eq!(class1.get_std(), MIN_STD_BITS);

    let (class_count, total) = model.feature_at(0).class_counts(&model.label_at(0)).unwrap();
    assert_eq!(class_count, 2);
    assert_eq!(total, 3);
}

#[test]
fn class_index_parses_decimal_fields() {
    assert_eq!(parse_class_index(b"0").unwrap(), 0);
    assert_eq!(parse_class_index(b"42").unwrap(), 42);
    assert_eq!(parse_class_index(b"007").unwrap(), 7);
    assert!(matches!(parse_class_index(b""), Err(ModelError::RecordParseError)));
    assert!(matches!(parse_class_index(b"4x2"), Err(ModelError::RecordParseError)));
    assert!(matches!(parse_class_index(b"-3"), Err(ModelError::RecordParseError)));
    assert!(matches!(
        parse_class_index(b"99999999999999999999999999"),
        Err(ModelError::RecordParseError)
    ));
    assert_eq!(parse_class_index(b"18446744073709551615").unwrap(), usize::MAX);
}

#[test]
fn untrained_feature_refuses_queries() {
    let labels = vec![(0usize, 48u8)];
    let mut model = GaussianNaiveBayes::from_labels(&labels).unwrap();
    model.init_features(2).unwrap();
    let label = model.label_at(0);
    assert!(matches!(
        model.feature_at(0).class_params(&label),
        Err(ModelError::UntrainedError)
    ));
    assert!(matches!(
        model.feature_at(0).class_counts(&label),
        Err(ModelError::UntrainedError)
    ));
}
