//! Tests of the local polynomial filter's validation and per-sample
//! policy.

use math_lib::filter::{
    difference_plan, filter_plan, pair_count, validate_filter_config, ConfigError, FilterMode,
    FilterPlan, SamplePlan,
};

#[test]
fn validation_rejects_bad_configs() {
    assert_eq!(validate_filter_config(4, 2), Err(ConfigError::WindowEven));
    assert_eq!(validate_filter_config(1, 1), Err(ConfigError::WindowTooSmall));
    assert_eq!(validate_filter_config(0, 1), Err(ConfigError::WindowTooSmall));
    assert_eq!(validate_filter_config(5, 0), Err(ConfigError::OrderTooSmall));
    assert_eq!(validate_filter_config(9, 6), Err(ConfigError::OrderTooLarge));
    assert_eq!(validate_filter_config(5, 5), Err(ConfigError::OrderNotBelowWindow));
    assert_eq!(validate_filter_config(3, 2), Ok(()));
    assert_eq!(validate_filter_config(5, 2), Ok(()));
    assert_eq!(validate_filter_config(7, 5), Ok(()));
}

#[test]
fn filter_plan_rejects_unpaired_coordinates() {
    assert_eq!(
        filter_plan(7, 5, 2, FilterMode::Derivative),
        Err(ConfigError::UnpairedCoordinates)
    );
    // configuration is validated before the coordinate count
    assert_eq!(filter_plan(7, 4, 2, FilterMode::Derivative), Err(ConfigError::WindowEven));
}

#[test]
fn filter_plan_degrades_on_few_samples() {
    // four samples cannot fill a five-sample window: the whole call
    // degrades to the plain two-point difference
    let r = filter_plan(8, 5, 2, FilterMode::Derivative).unwrap();
    assert_eq!(r, FilterPlan::PlainDifference);
}

#[test]
fn filter_plan_per_sample_derivative() {
    // seven samples, window five: one-sided differences at the two
    // boundaries, central differences beside them, regressions inside
    let r = filter_plan(14, 5, 2, FilterMode::Derivative).unwrap();
    let plans = match r {
        FilterPlan::PerSample(v) => v,
        FilterPlan::PlainDifference => panic!("expected per-sample plans"),
    };
    assert_eq!(plans.len(), 7);
    assert_eq!(plans[0], SamplePlan::ForwardDifference);
    assert_eq!(plans[1], SamplePlan::CentralDifference);
    assert_eq!(plans[2], SamplePlan::Regress { lo: 0, hi: 4 });
    assert_eq!(plans[3], SamplePlan::Regress { lo: 1, hi: 5 });
    assert_eq!(plans[4], SamplePlan::Regress { lo: 2, hi: 6 });
    assert_eq!(plans[5], SamplePlan::CentralDifference);
    assert_eq!(plans[6], SamplePlan::BackwardDifference);
}

#[test]
fn filter_plan_smooth_edges_pass_through() {
    let r = filter_plan(10, 5, 2, FilterMode::Smooth).unwrap();
    let plans = match r {
        FilterPlan::PerSample(v) => v,
        FilterPlan::PlainDifference => panic!("expected per-sample plans"),
    };
    assert_eq!(plans.len(), 5);
    assert_eq!(plans[0], SamplePlan::PassThrough);
    assert_eq!(plans[1], SamplePlan::PassThrough);
    assert_eq!(plans[2], SamplePlan::Regress { lo: 0, hi: 4 });
    assert_eq!(plans[3], SamplePlan::PassThrough);
    assert_eq!(plans[4], SamplePlan::PassThrough);
}

#[test]
fn filter_plan_smooth_on_few_samples_passes_all_through() {
    // smoothing has no plain-difference fallback: with fewer samples
    // than the window every sample is an edge and passes through
    let r = filter_plan(4, 7, 2, FilterMode::Smooth).unwrap();
    let plans = match r {
        FilterPlan::PerSample(v) => v,
        FilterPlan::PlainDifference => panic!("expected per-sample plans"),
    };
    assert_eq!(plans, vec![SamplePlan::PassThrough, SamplePlan::PassThrough]);
}

#[test]
fn difference_plan_ends_and_interior() {
    assert_eq!(difference_plan(4, 0), SamplePlan::ForwardDifference);
    assert_eq!(difference_plan(4, 1), SamplePlan::CentralDifference);
    assert_eq!(difference_plan(4, 2), SamplePlan::CentralDifference);
    assert_eq!(difference_plan(4, 3), SamplePlan::BackwardDifference);
}

#[test]
fn pair_count_checks_interleaving() {
    assert_eq!(pair_count(6), Some(3));
    assert_eq!(pair_count(0), Some(0));
    assert_eq!(pair_count(5), None);
}
