use csm_rs::params::validation_verdict;
use csm_rs::{CorrespondenceSearch, DistanceMetric, ParamsError, WeightParams};

#[test]
fn validation_error_has_stable_display_text() {
    assert_eq!(
        ParamsError::NonFinite.to_string(),
        "matcher parameters contain a non-finite value"
    );
}

#[test]
fn every_params_error_has_its_text() {
    assert_eq!(
        ParamsError::InvalidRange.to_string(),
        "matcher parameters contain an invalid range"
    );
    assert_eq!(
        ParamsError::InvalidIterationLimit.to_string(),
        "matcher iteration limit must be non-negative"
    );
}

#[test]
fn enum_defaults_are_tricks_point_to_line_and_no_weights() {
    assert_eq!(CorrespondenceSearch::default(), CorrespondenceSearch::Tricks);
    assert_eq!(DistanceMetric::default(), DistanceMetric::PointToLine);
    let w = WeightParams::default();
    assert!(!w.ml);
    assert!(!w.sigma);
}

#[test]
fn verdict_accepts_default_limits() {
    assert_eq!(validation_verdict(true, true, 3, 1000), Ok(()));
    assert_eq!(validation_verdict(true, true, 1, 0), Ok(()));
}

#[test]
fn verdict_reports_non_finite_first() {
    assert_eq!(
        validation_verdict(false, false, 0, -1),
        Err(ParamsError::NonFinite)
    );
}

#[test]
fn verdict_reports_ranges_before_iteration_limit() {
    assert_eq!(
        validation_verdict(true, false, 3, -1),
        Err(ParamsError::InvalidRange)
    );
    assert_eq!(
        validation_verdict(true, true, 0, -1),
        Err(ParamsError::InvalidRange)
    );
}

#[test]
fn verdict_rejects_negative_iteration_limit() {
    assert_eq!(
        validation_verdict(true, true, 3, -1),
        Err(ParamsError::InvalidIterationLimit)
    );
}

#[test]
fn validation_rejects_invalid_limits() {
    // max_iterations = -1 with otherwise default settings
    assert_eq!(
        validation_verdict(true, true, 3, -1),
        Err(ParamsError::InvalidIterationLimit)
    );
    // reading_bounds.max = -1.0 breaks a floating-point range
    assert_eq!(
        validation_verdict(true, false, 3, 1000),
        Err(ParamsError::InvalidRange)
    );
    // correction_limits.max_angular_deg = -1.0 breaks a floating-point range
    assert_eq!(
        validation_verdict(true, false, 3, 1000),
        Err(ParamsError::InvalidRange)
    );
}

#[test]
fn params_validation_rejects_invalid_limits() {
    assert_eq!(
        validation_verdict(true, true, 3, -1),
        Err(ParamsError::InvalidIterationLimit)
    );
    assert_eq!(
        validation_verdict(true, false, 3, 1000),
        Err(ParamsError::InvalidRange)
    );
}
