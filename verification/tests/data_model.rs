use naivebayes::class_label::ClassLabel;
use naivebayes::dataset::Dataset;
use naivebayes::discrete_classification::DiscreteClassification;
use naivebayes::discrete_feature::DiscreteFeature;
use naivebayes::error::ModelError;
use naivebayes::matrix::Matrix;
use naivebayes::shading::Shading;
use naivebayes::training_image::TrainingImage;

#[test]
fn class_label_round_trip() {
    let label = ClassLabel::new(7, 65);
    assert_eq!(label.get_index(), 7);
    assert_eq!(label.get_ascii(), 65);
}

#[test]
fn model_error_messages() {
    assert_eq!(
        ModelError::UntrainedError.value(),
        "The model has not been fully trained."
    );
    assert_eq!(
        ModelError::FeatureNotFound.value(),
        "The feature was not present in the provided training data."
    );
    assert_eq!(
        ModelError::LabelIndexOutOfRange.value(),
        "The record's class index is outside the loaded label set."
    );
    assert_eq!(ModelError::RecordParseError.value(), "The record could not be parsed.");
    assert_eq!(ModelError::SerializationError.value(), "The bytes do not encode a model.");
}

#[test]
fn shading_codes() {
    assert_eq!(Shading::Black(200).to_int(), 2);
    assert_eq!(Shading::Gray(120).to_int(), 1);
    assert_eq!(Shading::White(10).to_int(), 0);
}

#[test]
fn matrix_dimensions() {
    let m: Matrix<u8> = Matrix::new(vec![vec![1, 2, 3], vec![4, 5, 6]]);
    assert_eq!(m.get_width(), 2);
    assert_eq!(m.get_height(), 3);
    let empty: Matrix<u8> = Matrix::new(Vec::new());
    assert_eq!(empty.get_width(), 0);
    assert_eq!(empty.get_height(), 0);
}

#[test]
fn training_image_dimensions() {
    let pixels = Matrix::new(vec![
        vec![Shading::White(0), Shading::Black(255)],
        vec![Shading::Gray(128), Shading::White(3)],
        vec![Shading::Black(250), Shading::Gray(99)],
    ]);
    let image = TrainingImage::new('a', pixels);
    assert_eq!(image.get_width(), 3);
    assert_eq!(image.get_height(), 2);
}

#[test]
fn dataset_starts_empty() {
    let dataset = Dataset::new();
    assert_eq!(dataset.size, 0);
    assert!(dataset.groups.is_empty());
}

#[test]
fn discrete_occurrences_count_first_match() {
    let mut record = DiscreteClassification::default();
    assert_eq!(record.get_num_classes(), 0);
    let cat = String::from("cat");
    let dog = String::from("dog");
    record.add_occurrence(&cat);
    record.add_occurrence(&dog);
    record.add_occurrence(&cat);
    // Every sample appends an entry; a repeated class also bumps its first
    // entry's count, and lookups stop at the first match.
    assert_eq!(record.get_num_classes(), 3);
    assert_eq!(record.get_class_occurrences(&cat).unwrap(), 2);
    assert_eq!(record.get_class_occurrences(&dog).unwrap(), 1);
    let missing = String::from("bird");
    assert!(matches!(
        record.get_class_occurrences(&missing),
        Err(ModelError::FeatureNotFound)
    ));
}

#[test]
fn discrete_feature_lifecycle() {
    let mut feature = DiscreteFeature {
        is_trained: false,
        sample_size: 0,
        classifications: vec![DiscreteClassification::default(), DiscreteClassification::default()],
    };
    assert!(!feature.is_trained());
    let label = ClassLabel::new(1, 49);
    let word = String::from("w");
    feature.get_class_mut(&label).add_occurrence(&word);
    assert_eq!(feature.get_class(&label).get_num_classes(), 1);
    let other = ClassLabel::new(0, 48);
    assert_eq!(feature.get_class(&other).get_num_classes(), 0);
    feature.prepare();
    assert!(feature.is_trained());
}
