use naivebayes::class_label::ClassLabel;
use naivebayes::codec::load;
use naivebayes::codec::save;
use naivebayes::error::ModelError;
use naivebayes::gaussian_classification::GaussianClassification;
use naivebayes::gaussian_feature::GaussianFeature;
use naivebayes::model::GaussianNaiveBayes;

fn score_key(x: f64) -> u64 {
    let bits = x.to_bits();
    if bits & 0x8000_0000_0000_0000 != 0 {
        !bits
    } else {
        bits | 0x8000_0000_0000_0000
    }
}

fn scores_for(model: &GaussianNaiveBayes, sample: &[f64]) -> Vec<u64> {
    let mut scores: Vec<u64> = Vec::new();
    for c in 0..model.num_labels() {
        let label = model.label_at(c);
        let mut total: f64 = 0.0;
        for (f, &x) in sample.iter().enumerate() {
            let params = model.feature_at(f).class_params(&label).unwrap();
            let mean = f64::from_bits(params.0);
            let std = f64::from_bits(params.1);
            let multiplier = 1.0 / (std * (2.0 * std::f64::consts::PI).sqrt());
            let exponent = -0.5 * ((x - mean) / std) * ((x - mean) / std);
            total += (multiplier * exponent.exp()).log10();
        }
        let (class_count, feature_count) = model.feature_at(0).class_counts(&label).unwrap();
        total += (class_count as f64 / feature_count as f64).log10();
        scores.push(score_key(total));
    }
    scores
}

fn example_model() -> GaussianNaiveBayes {
    let stat = |mean: f64, std: f64, n: usize, sq: f64| GaussianClassification {
        mean: mean.to_bits(),
        std: std.to_bits(),
        sample_size: n,
        square_mean_diffs: sq.to_bits(),
    };
    GaussianNaiveBayes {
        labels: vec![ClassLabel::new(0, 97), ClassLabel::new(1, 98)],
        features: vec![
            GaussianFeature {
                is_trained: true,
                sample_size: 7,
                classifications: vec![stat(0.125, 1.5, 3, 4.5), stat(-2.75, 0.5, 4, 0.75)],
            },
            GaussianFeature {
                is_trained: true,
                sample_size: 7,
                classifications: vec![stat(10.0, 1.0e-10, 3, 0.0), stat(3.25, 2.0, 4, 12.0)],
            },
        ],
    }
}

#[test]
fn save_load_round_trips_every_field() {
    let model = example_model();
    let bytes = save(&model);
    let reloaded = load(&bytes).unwrap();
    assert_eq!(reloaded.num_labels(), model.num_labels());
    assert_eq!(reloaded.num_features(), model.num_features());
    for c in 0..model.num_labels() {
        assert_eq!(reloaded.label_at(c).get_index(), model.label_at(c).get_index());
        assert_eq!(reloaded.label_at(c).get_ascii(), model.label_at(c).get_ascii());
    }
    for f in 0..model.num_features() {
        let a = model.feature_at(f);
        let b = reloaded.feature_at(f);
        assert_eq!(a.is_trained(), b.is_trained());
        for c in 0..model.num_labels() {
            let label = model.label_at(c);
            let sa = a.get_class(&label);
            let sb = b.get_class(&label);
            assert_eq!(sa.get_mean(), sb.get_mean());
            assert_eq!(sa.get_std(), sb.get_std());
            assert_eq!(sa.get_sample_size(), sb.get_sample_size());
            assert_eq!(sa.get_square_mean_diffs(), sb.get_square_mean_diffs());
        }
    }
    // The trained flags travel with the model: it classifies at once.
    assert!(reloaded.is_trained());
    // Saving what was loaded gives the same bytes again.
    assert_eq!(save(&reloaded), bytes);
}

#[test]
fn reloaded_model_classifies_identically() {
    let model = example_model();
    let bytes = save(&model);
    let reloaded = load(&bytes).unwrap();
    let samples: [[f64; 2]; 5] = [
        [0.0, 10.0],
        [-2.5, 3.0],
        [0.5, 6.0],
        [100.0, -100.0],
        [-0.125, 3.25],
    ];
    for sample in &samples {
        let before = model.classify(&scores_for(&model, sample)).unwrap();
        let after = reloaded.classify(&scores_for(&reloaded, sample)).unwrap();
        assert_eq!(before.get_index(), after.get_index());
        assert_eq!(before.get_ascii(), after.get_ascii());
    }
}

#[test]
fn encoding_is_textual() {
    let bytes = save(&example_model());
    assert_eq!(bytes.len() % 16, 0);
    for b in &bytes {
        assert!(b.is_ascii_hexdigit());
    }
}

#[test]
fn corrupt_bytes_are_refused() {
    let model = example_model();
    let mut truncated = save(&model);
    truncated.pop();
    assert!(matches!(load(&truncated), Err(ModelError::SerializationError)));

    let mut junk = save(&model);
    junk[0] = 122;
    assert!(matches!(load(&junk), Err(ModelError::SerializationError)));

    let mut trailing = save(&model);
    trailing.push(48);
    assert!(matches!(load(&trailing), Err(ModelError::SerializationError)));

    let empty: Vec<u8> = Vec::new();
    assert!(matches!(load(&empty), Err(ModelError::SerializationError)));
}
