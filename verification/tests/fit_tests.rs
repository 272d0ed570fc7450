//! Tests of the global polynomial fit and the exact linear-system solver.

use math_lib::dec::{dec_pow, Dec};
use math_lib::fit::{polynomial_fit, FitError, Point};
use math_lib::solve::{solve_linear_system, SolveError};

fn pt(x: &str, y: &str) -> Point {
    Point { x: String::from(x), y: String::from(y) }
}

fn close(s: &str, expected: f64) -> bool {
    let got: f64 = s.parse().unwrap();
    (got - expected).abs() < 1e-9
}

fn d(mant: i128, scale: u32) -> Dec {
    Dec { mant, scale }
}

#[test]
fn fit_linear_exact() {
    let points = vec![pt("0", "1"), pt("1", "3"), pt("2", "5")];
    let r = polynomial_fit(&points, 1).unwrap();
    assert_eq!(r.coefficients.len(), 2);
    assert!(close(&r.coefficients[0], 1.0));
    assert!(close(&r.coefficients[1], 2.0));
    assert!(close(&r.r2, 1.0));
    assert!(close(&r.mse, 0.0));
}

#[test]
fn fit_quadratic_recovers_coefficients() {
    // y = 1 + 2x + 3x^2, sampled without noise
    let points = vec![
        pt("0", "1"),
        pt("1", "6"),
        pt("2", "17"),
        pt("3", "34"),
        pt("4", "57"),
        pt("5", "86"),
    ];
    let r = polynomial_fit(&points, 2).unwrap();
    assert_eq!(r.coefficients.len(), 3);
    assert!(close(&r.coefficients[0], 1.0));
    assert!(close(&r.coefficients[1], 2.0));
    assert!(close(&r.coefficients[2], 3.0));
    assert!(close(&r.r2, 1.0));
}

#[test]
fn fit_decimal_coordinates() {
    // y = 1 + 2x through x = 0, 0.5, 1
    let points = vec![pt("0", "1"), pt("0.5", "2"), pt("1", "3")];
    let r = polynomial_fit(&points, 1).unwrap();
    assert!(close(&r.coefficients[0], 1.0));
    assert!(close(&r.coefficients[1], 2.0));
}

#[test]
fn fit_constant_series_r2_is_one() {
    // all y identical: TSS is zero, R^2 is one by convention
    let points = vec![pt("0", "5"), pt("1", "5"), pt("2", "5")];
    let r = polynomial_fit(&points, 1).unwrap();
    assert!(close(&r.coefficients[0], 5.0));
    assert!(close(&r.coefficients[1], 0.0));
    assert!(close(&r.r2, 1.0));
}

#[test]
fn fit_empty_input_rejected() {
    let points: Vec<Point> = Vec::new();
    assert_eq!(polynomial_fit(&points, 2), Err(FitError::EmptyInput));
}

#[test]
fn fit_insufficient_points_rejected() {
    let points = vec![pt("0", "1"), pt("1", "2")];
    assert_eq!(polynomial_fit(&points, 2), Err(FitError::InsufficientPoints));
    assert_eq!(polynomial_fit(&points, 3), Err(FitError::InsufficientPoints));
}

#[test]
fn fit_duplicate_x_is_singular() {
    // three samples on only two distinct x values cannot pin a parabola
    let points = vec![pt("1", "1"), pt("1", "2"), pt("2", "3")];
    assert_eq!(polynomial_fit(&points, 2), Err(FitError::FitFailed));
}

#[test]
fn fit_unparsable_coordinate_stands_for_zero() {
    let points = vec![pt("not a number", "1"), pt("1", "3"), pt("2", "5")];
    let r = polynomial_fit(&points, 1).unwrap();
    // same as x = 0, 1, 2 against y = 1, 3, 5
    assert!(close(&r.coefficients[0], 1.0));
    assert!(close(&r.coefficients[1], 2.0));
}

#[test]
fn solve_two_by_two() {
    // 2x + y = 3, x + 3y = 5  =>  x = 0.8, y = 1.4
    let a = vec![vec![d(2, 0), d(1, 0)], vec![d(1, 0), d(3, 0)]];
    let b = vec![d(3, 0), d(5, 0)];
    let x = solve_linear_system(&a, &b).unwrap();
    assert_eq!(x.len(), 2);
    assert!(close(&x[0].render(), 0.8));
    assert!(close(&x[1].render(), 1.4));
}

#[test]
fn solve_needs_pivoting() {
    // the first pivot is zero until rows are swapped
    let a = vec![vec![d(0, 0), d(1, 0)], vec![d(1, 0), d(0, 0)]];
    let b = vec![d(2, 0), d(3, 0)];
    let x = solve_linear_system(&a, &b).unwrap();
    assert!(close(&x[0].render(), 3.0));
    assert!(close(&x[1].render(), 2.0));
}

#[test]
fn solve_singular_is_detected() {
    let a = vec![vec![d(1, 0), d(2, 0)], vec![d(2, 0), d(4, 0)]];
    let b = vec![d(1, 0), d(2, 0)];
    assert_eq!(solve_linear_system(&a, &b), Err(SolveError::Singular));
}

#[test]
fn solve_empty_system() {
    let a: Vec<Vec<Dec>> = Vec::new();
    let b: Vec<Dec> = Vec::new();
    let x = solve_linear_system(&a, &b).unwrap();
    assert_eq!(x.len(), 0);
}

#[test]
fn decimal_power_and_render() {
    let two = d(2, 0);
    let p = dec_pow(two, 10).unwrap();
    assert_eq!(p.render(), "1024");
    let pi = d(3141, 3);
    assert_eq!(pi.render(), "3.141");
    let zero_pow = dec_pow(d(0, 0), 0).unwrap();
    assert_eq!(zero_pow.render(), "1");
}

#[test]
fn fit_degree_zero_is_mean() {
    let points = vec![pt("0", "1"), pt("1", "2"), pt("2", "3")];
    let r = polynomial_fit(&points, 0).unwrap();
    assert_eq!(r.coefficients.len(), 1);
    assert!(close(&r.coefficients[0], 2.0));
}

#[test]
fn fit_overflow_is_reported() {
    // the largest representable decimal; its square overflows
    let big = "79228162514264337593543950335";
    let points = vec![pt(big, "1"), pt("1", "2"), pt("2", "3")];
    assert_eq!(polynomial_fit(&points, 2), Err(FitError::Overflow));
}

#[test]
fn solve_three_by_three() {
    // 2x + y + z = 4, x + 3y + 2z = 5, x = 6  =>  x = 6, y = 15, z = -23
    let a = vec![
        vec![d(2, 0), d(1, 0), d(1, 0)],
        vec![d(1, 0), d(3, 0), d(2, 0)],
        vec![d(1, 0), d(0, 0), d(0, 0)],
    ];
    let b = vec![d(4, 0), d(5, 0), d(6, 0)];
    let x = solve_linear_system(&a, &b).unwrap();
    assert!(close(&x[0].render(), 6.0));
    assert!(close(&x[1].render(), 15.0));
    assert!(close(&x[2].render(), -23.0));
}

#[test]
fn solve_pivots_on_largest_magnitude() {
    // the pivot pick must compare absolute values: |-3| beats |1|
    let a = vec![vec![d(1, 0), d(2, 0)], vec![d(-3, 0), d(4, 0)]];
    let b = vec![d(3, 0), d(1, 0)];
    let x = solve_linear_system(&a, &b).unwrap();
    assert!(close(&x[0].render(), 1.0));
    assert!(close(&x[1].render(), 1.0));
}

#[test]
fn solve_overflow_is_reported() {
    // dividing the largest mantissa by 1e-28 leaves the representable range
    let a = vec![vec![d(1, 28)]];
    let b = vec![d(0x0000_0000_ffff_ffff_ffff_ffff_ffff_ffff, 0)];
    assert_eq!(solve_linear_system(&a, &b), Err(SolveError::Overflow));
}

#[test]
fn render_negative_value() {
    assert_eq!(d(-3141, 3).render(), "-3.141");
}
