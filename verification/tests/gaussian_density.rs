use naivebayes::gaussian_classification::GaussianClassification;

/// The Gaussian density at `x` for the parameters a created estimator
/// carries, evaluated the way the application evaluates it.
fn pdf(stat: &GaussianClassification, x: f64) -> f64 {
    let mean = f64::from_bits(stat.get_mean());
    let std = f64::from_bits(stat.get_std());
    let multiplier = 1.0 / (std * (2.0 * std::f64::consts::PI).sqrt());
    let exponent = -0.5 * ((x - mean) / std) * ((x - mean) / std);
    multiplier * exponent.exp()
}

fn relative_eq(a: f64, b: f64, max_relative: f64) -> bool {
    let scale = a.abs().max(b.abs());
    (a - b).abs() <= max_relative * scale
}

#[test]
fn test_standard_normal_distribution() {
    let gc: GaussianClassification =
        GaussianClassification::create(0.0f64.to_bits(), 1.0f64.to_bits());

    assert!(relative_eq(pdf(&gc, 0.0), 0.39894228, 1.0));

    assert!(relative_eq(pdf(&gc, 1.0), 0.24197072, 1.0));
    assert!(relative_eq(pdf(&gc, -1.0), 0.24197072, 1.0));

    assert!(relative_eq(pdf(&gc, 1.5), 0.12951760, 1.0));
    assert!(relative_eq(pdf(&gc, -1.5), 0.12951760, 1.0));

    assert!(relative_eq(pdf(&gc, 2.0), 0.05399097, 1.0));
    assert!(relative_eq(pdf(&gc, -2.0), 0.05399097, 1.0));

    assert!(relative_eq(pdf(&gc, 2.5), 0.0175283, 1.0));
    assert!(relative_eq(pdf(&gc, -2.5), 0.0175283, 1.0));
}

#[test]
fn test_arbitrary_normal_distribution() {
    let gc: GaussianClassification =
        GaussianClassification::create(0.0f64.to_bits(), 1.0f64.to_bits());

    assert!(relative_eq(pdf(&gc, 2.5), 0.0175283, 1.0));
    assert!(relative_eq(pdf(&gc, -2.5), 0.0175283, 1.0));
}
