//! Global least-squares polynomial fit over exact-precision decimals.
//!
//! The fit builds the uncentered Vandermonde design matrix, forms the
//! normal equations, solves them by the exact Gaussian elimination of
//! [`crate::solve`], and reports the coefficients together with the
//! coefficient of determination and the mean squared error. The whole
//! fit is atomic: any failure aborts with no partial result.

use vstd::prelude::*;
use crate::dec::Dec;
use crate::dec::spec_zero;
use crate::dec::spec_one;
use crate::dec::spec_pow;
use crate::dec::dec_add_res;
use crate::dec::dec_sub_res;
use crate::dec::dec_mul_res;
use crate::dec::dec_div_res;
use crate::dec::dec_parse_res;
use crate::dec::dec_render_res;
use crate::dec::dec_add;
use crate::dec::dec_sub;
use crate::dec::dec_mul;
use crate::dec::dec_div;
use crate::dec::dec_parse;
use crate::dec::dec_pow;
use crate::solve::SolveError;
use crate::solve::mat_view;
use crate::solve::row_wf;
use crate::solve::mat_wf;
use crate::solve::mat_square;
use crate::solve::spec_solve;
use crate::solve::solve_linear_system;

verus! {

/// Why a fit failed.
#[derive(Clone, Copy, PartialEq, Eq, Structural, Debug)]
pub enum FitError {
    /// No sample points were given.
    EmptyInput,
    /// The number of points must exceed the polynomial degree.
    InsufficientPoints,
    /// The normal-equations matrix is singular.
    FitFailed,
    /// A checked decimal operation left the representable range.
    Overflow,
}

/// A sample point, both coordinates as decimal text.
#[derive(Clone, Debug, PartialEq)]
pub struct Point {
    pub x: String,
    pub y: String,
}

/// The outcome of a fit: coefficients by ascending power of x, the
/// coefficient of determination and the mean squared error, all rendered
/// as decimal text.
#[derive(Clone, Debug, PartialEq)]
pub struct FitResult {
    pub coefficients: Vec<String>,
    pub r2: String,
    pub mse: String,
}

/// The parsed value of a coordinate; text that does not parse stands for
/// zero.
pub open spec fn parse_or_zero(s: Seq<char>) -> Dec {
    match dec_parse_res(s) {
        Some(d) => d,
        None => spec_zero(),
    }
}

/// The coordinate texts of the points.
pub open spec fn point_views(pts: Seq<Point>) -> Seq<(Seq<char>, Seq<char>)> {
    Seq::new(pts.len(), |i: int| (pts[i].x@, pts[i].y@))
}

/// The parsed x coordinates.
pub open spec fn xs_of(pv: Seq<(Seq<char>, Seq<char>)>) -> Seq<Dec> {
    Seq::new(pv.len(), |i: int| parse_or_zero(pv[i].0))
}

/// The parsed y coordinates.
pub open spec fn ys_of(pv: Seq<(Seq<char>, Seq<char>)>) -> Seq<Dec> {
    Seq::new(pv.len(), |i: int| parse_or_zero(pv[i].1))
}

/// Every power of the design matrix is representable.
pub open spec fn design_ok(xs: Seq<Dec>, deg: int) -> bool {
    forall|i: int, j: nat| 0 <= i < xs.len() && j <= deg ==> (#[trigger] spec_pow(xs[i], j))
        is Some
}

/// One row of the uncentered Vandermonde design matrix: the powers
/// `x^0 .. x^deg`.
pub open spec fn design_row(x: Dec, deg: int) -> Seq<Dec> {
    Seq::new((deg + 1) as nat, |j: int| spec_pow(x, j as nat).unwrap())
}

/// The uncentered Vandermonde design matrix.
pub open spec fn design(xs: Seq<Dec>, deg: int) -> Seq<Seq<Dec>> {
    Seq::new(xs.len(), |i: int| design_row(xs[i], deg))
}

/// Column `j` of a matrix.
pub open spec fn col_of(m: Seq<Seq<Dec>>, j: int) -> Seq<Dec> {
    Seq::new(m.len(), |k: int| m[k][j])
}

/// The running sum of `u[t] * v[t]` for `t` in `0..k`, accumulated left
/// to right by checked operations, starting from zero.
pub open spec fn dot_prefix(u: Seq<Dec>, v: Seq<Dec>, k: int) -> Option<Dec>
    decreases k,
{
    if k <= 0 {
        Some(spec_zero())
    } else {
        match dot_prefix(u, v, k - 1) {
            Some(s) => match dec_mul_res(u[k - 1], v[k - 1]) {
                Some(t) => dec_add_res(s, t),
                None => None,
            },
            None => None,
        }
    }
}

/// A failed running dot product stays failed.
proof fn lemma_dot_none(u: Seq<Dec>, v: Seq<Dec>, k: int, k2: int)
    requires
        dot_prefix(u, v, k) is None,
        k <= k2,
    ensures
        dot_prefix(u, v, k2) is None,
    decreases k2 - k,
{
    if k < k2 {
        lemma_dot_none(u, v, k, k2 - 1);
    }
}

/// Every entry of the normal-equations matrix is representable.
pub open spec fn xtx_ok(xm: Seq<Seq<Dec>>, deg: int) -> bool {
    forall|i: int, j: int| 0 <= i <= deg && 0 <= j <= deg ==> (#[trigger] dot_prefix(
        col_of(xm, i),
        col_of(xm, j),
        xm.len() as int,
    )) is Some
}

/// Every entry of the normal-equations right-hand side is representable.
pub open spec fn xty_ok(xm: Seq<Seq<Dec>>, ys: Seq<Dec>, deg: int) -> bool {
    forall|i: int| 0 <= i <= deg ==> (#[trigger] dot_prefix(col_of(xm, i), ys, xm.len() as int))
        is Some
}

/// The normal-equations matrix `X^T X`.
pub open spec fn xtx_of(xm: Seq<Seq<Dec>>, deg: int) -> Seq<Seq<Dec>> {
    Seq::new((deg + 1) as nat, |i: int| Seq::new((deg + 1) as nat, |j: int| dot_prefix(
        col_of(xm, i),
        col_of(xm, j),
        xm.len() as int,
    ).unwrap()))
}

/// The normal-equations right-hand side `X^T y`.
pub open spec fn xty_of(xm: Seq<Seq<Dec>>, ys: Seq<Dec>, deg: int) -> Seq<Dec> {
    Seq::new((deg + 1) as nat, |i: int| dot_prefix(col_of(xm, i), ys, xm.len() as int).unwrap())
}

/// The running sum of `v[t]` for `t` in `0..k`.
pub open spec fn sum_prefix(v: Seq<Dec>, k: int) -> Option<Dec>
    decreases k,
{
    if k <= 0 {
        Some(spec_zero())
    } else {
        match sum_prefix(v, k - 1) {
            Some(s) => dec_add_res(s, v[k - 1]),
            None => None,
        }
    }
}

/// A failed running sum stays failed.
proof fn lemma_sum_none(v: Seq<Dec>, k: int, k2: int)
    requires
        sum_prefix(v, k) is None,
        k <= k2,
    ensures
        sum_prefix(v, k2) is None,
    decreases k2 - k,
{
    if k < k2 {
        lemma_sum_none(v, k, k2 - 1);
    }
}

/// The fitted value at `x` from the first `k` coefficients:
/// the running sum of `cs[j] * x^j`.
pub open spec fn pred_prefix(cs: Seq<Dec>, x: Dec, k: int) -> Option<Dec>
    decreases k,
{
    if k <= 0 {
        Some(spec_zero())
    } else {
        match pred_prefix(cs, x, k - 1) {
            Some(s) => match spec_pow(x, (k - 1) as nat) {
                Some(p) => match dec_mul_res(cs[k - 1], p) {
                    Some(t) => dec_add_res(s, t),
                    None => None,
                },
                None => None,
            },
            None => None,
        }
    }
}

/// A failed running prediction stays failed.
proof fn lemma_pred_none(cs: Seq<Dec>, x: Dec, k: int, k2: int)
    requires
        pred_prefix(cs, x, k) is None,
        k <= k2,
    ensures
        pred_prefix(cs, x, k2) is None,
    decreases k2 - k,
{
    if k < k2 {
        lemma_pred_none(cs, x, k, k2 - 1);
    }
}

/// The total and residual sums of squares over the first `k` samples:
/// `TSS = sum (y_i - mean)^2` and `RSS = sum (y_i - fitted_i)^2`,
/// accumulated sample by sample in evaluation order.
pub open spec fn stats_prefix(xs: Seq<Dec>, ys: Seq<Dec>, cs: Seq<Dec>, mean: Dec, k: int)
    -> Option<(Dec, Dec)>
    decreases k,
{
    if k <= 0 {
        Some((spec_zero(), spec_zero()))
    } else {
        match stats_prefix(xs, ys, cs, mean, k - 1) {
            Some(tr) => match pred_prefix(cs, xs[k - 1], cs.len() as int) {
                Some(yp) => match dec_sub_res(ys[k - 1], mean) {
                    Some(dm) => match spec_pow(dm, 2) {
                        Some(sq1) => match dec_add_res(tr.0, sq1) {
                            Some(t2) => match dec_sub_res(ys[k - 1], yp) {
                                Some(dr) => match spec_pow(dr, 2) {
                                    Some(sq2) => match dec_add_res(tr.1, sq2) {
                                        Some(r2) => Some((t2, r2)),
                                        None => None,
                                    },
                                    None => None,
                                },
                                None => None,
                            },
                            None => None,
                        },
                        None => None,
                    },
                    None => None,
                },
                None => None,
            },
            None => None,
        }
    }
}

/// A failed running statistic stays failed.
proof fn lemma_stats_none(xs: Seq<Dec>, ys: Seq<Dec>, cs: Seq<Dec>, mean: Dec, k: int, k2: int)
    requires
        stats_prefix(xs, ys, cs, mean, k) is None,
        k <= k2,
    ensures
        stats_prefix(xs, ys, cs, mean, k2) is None,
    decreases k2 - k,
{
    if k < k2 {
        lemma_stats_none(xs, ys, cs, mean, k, k2 - 1);
    }
}

/// The whole fit over already-parsed decimals: design matrix, normal
/// equations, exact solve, then the goodness-of-fit statistics, with the
/// convention that all-identical y values give a coefficient of
/// determination of one.
pub open spec fn spec_fit_core(xs: Seq<Dec>, ys: Seq<Dec>, deg: int) -> Result<
    (Seq<Dec>, Dec, Dec),
    FitError,
> {
    let n = xs.len() as int;
    let nd = Dec { mant: n as i128, scale: 0 };
    if !design_ok(xs, deg) {
        Err(FitError::Overflow)
    } else {
        let xm = design(xs, deg);
        if !xtx_ok(xm, deg) || !xty_ok(xm, ys, deg) {
            Err(FitError::Overflow)
        } else {
            match spec_solve(xtx_of(xm, deg), xty_of(xm, ys, deg)) {
                Err(SolveError::Singular) => Err(FitError::FitFailed),
                Err(SolveError::Overflow) => Err(FitError::Overflow),
                Ok(cs) => match sum_prefix(ys, n) {
                    Some(sy) => match dec_div_res(sy, nd) {
                        Some(mean) => match stats_prefix(xs, ys, cs, mean, n) {
                            Some(tr) => if tr.0.is_zero() {
                                match dec_div_res(tr.1, nd) {
                                    Some(mse) => Ok((cs, spec_one(), mse)),
                                    None => Err(FitError::Overflow),
                                }
                            } else {
                                match dec_div_res(tr.1, tr.0) {
                                    Some(q) => match dec_sub_res(spec_one(), q) {
                                        Some(r2v) => match dec_div_res(tr.1, nd) {
                                            Some(mse) => Ok((cs, r2v, mse)),
                                            None => Err(FitError::Overflow),
                                        },
                                        None => Err(FitError::Overflow),
                                    },
                                    None => Err(FitError::Overflow),
                                }
                            },
                            None => Err(FitError::Overflow),
                        },
                        None => Err(FitError::Overflow),
                    },
                    None => Err(FitError::Overflow),
                },
            }
        }
    }
}

/// The whole fit from coordinate texts: reject an empty input and a
/// degree at or above the point count, parse every coordinate (text that
/// does not parse stands for zero), fit, and render the results as
/// decimal text.
pub open spec fn spec_fit(pv: Seq<(Seq<char>, Seq<char>)>, deg: int) -> Result<
    (Seq<Seq<char>>, Seq<char>, Seq<char>),
    FitError,
> {
    if pv.len() == 0 {
        Err(FitError::EmptyInput)
    } else if pv.len() <= deg {
        Err(FitError::InsufficientPoints)
    } else {
        match spec_fit_core(xs_of(pv), ys_of(pv), deg) {
            Ok(t) => Ok(
                (
                    Seq::new(t.0.len(), |i: int| dec_render_res(t.0[i])),
                    dec_render_res(t.1),
                    dec_render_res(t.2),
                ),
            ),
            Err(e) => Err(e),
        }
    }
}

/// Build the uncentered Vandermonde design matrix by repeated checked
/// multiplication.
#[verifier::loop_isolation(false)]
fn build_design(xs: &Vec<Dec>, degree: usize) -> (r: Result<Vec<Vec<Dec>>, FitError>)
    requires
        row_wf(xs@),
        degree < usize::MAX,
    ensures
        match r {
            Ok(xm) => design_ok(xs@, degree as int) && mat_view(xm@) == design(
                xs@,
                degree as int,
            ) && mat_wf(mat_view(xm@)) && xm@.len() == xs@.len() && forall|u: int|
                0 <= u < xm@.len() ==> (#[trigger] xm@[u])@.len() == degree + 1,
            Err(e) => e == FitError::Overflow && !design_ok(xs@, degree as int),
        },
{
    let n = xs.len();
    let m = degree + 1;
    let mut xm: Vec<Vec<Dec>> = Vec::new();
    let mut i: usize = 0;
    while i < n
        invariant
            i <= n,
            xm@.len() == i,
            forall|u: int| 0 <= u < i ==> (#[trigger] xm@[u])@ == design_row(xs@[u], degree as int),
            forall|u: int, w: nat| 0 <= u < i && w <= degree ==> (#[trigger] spec_pow(xs@[u], w))
                is Some,
            forall|u: int| 0 <= u < i ==> row_wf((#[trigger] xm@[u])@),
        decreases n - i,
    {
        proof {
            assert(xs@[i as int].wf());
        }
        let xi = xs[i];
        let mut row: Vec<Dec> = Vec::new();
        let mut j: usize = 0;
        while j < m
            invariant
                j <= m,
                row@.len() == j,
                forall|w: nat| w < j ==> (#[trigger] spec_pow(xi, w)) is Some,
                forall|u: int| 0 <= u < j ==> (#[trigger] row@[u]) == spec_pow(xi, u as nat)
                    .unwrap(),
                row_wf(row@),
            decreases m - j,
        {
            match dec_pow(xi, j) {
                Some(p) => {
                    row.push(p);
                },
                None => {
                    proof {
                        assert(spec_pow(xs@[i as int], j as nat) is None);
                        assert(!design_ok(xs@, degree as int));
                    }
                    return Err(FitError::Overflow);
                },
            }
            j = j + 1;
        }
        proof {
            assert(row@ =~= design_row(xs@[i as int], degree as int));
        }
        xm.push(row);
        i = i + 1;
    }
    proof {
        assert(design_ok(xs@, degree as int));
        assert(mat_view(xm@) =~= design(xs@, degree as int));
        assert(mat_wf(mat_view(xm@)));
    }
    Ok(xm)
}

/// Assemble the normal equations `(X^T X) c = X^T y` by checked decimal
/// sums of products.
#[verifier::loop_isolation(false)]
#[verifier::rlimit(40)]
fn build_normal(xm: &Vec<Vec<Dec>>, ys: &Vec<Dec>, degree: usize) -> (r: Result<
    (Vec<Vec<Dec>>, Vec<Dec>),
    FitError,
>)
    requires
        degree < usize::MAX,
        mat_wf(mat_view(xm@)),
        forall|u: int| 0 <= u < xm@.len() ==> (#[trigger] xm@[u])@.len() == degree + 1,
        ys@.len() == xm@.len(),
        row_wf(ys@),
    ensures
        match r {
            Ok(t) => xtx_ok(mat_view(xm@), degree as int) && xty_ok(
                mat_view(xm@),
                ys@,
                degree as int,
            ) && mat_view(t.0@) == xtx_of(mat_view(xm@), degree as int) && t.1@ == xty_of(
                mat_view(xm@),
                ys@,
                degree as int,
            ) && mat_square(mat_view(t.0@), (degree + 1) as int) && mat_wf(mat_view(t.0@))
                && t.1@.len() == degree + 1 && row_wf(t.1@),
            Err(e) => e == FitError::Overflow && !(xtx_ok(mat_view(xm@), degree as int) && xty_ok(
                mat_view(xm@),
                ys@,
                degree as int,
            )),
        },
{
    let n = xm.len();
    let m = degree + 1;
    let ghost xv = mat_view(xm@);
    let mut xtx: Vec<Vec<Dec>> = Vec::new();
    let mut i: usize = 0;
    while i < m
        invariant
            i <= m,
            xtx@.len() == i,
            forall|u: int, w: int| 0 <= u < i && 0 <= w < m ==> (#[trigger] dot_prefix(
                col_of(xv, u),
                col_of(xv, w),
                n as int,
            )) is Some,
            forall|u: int| 0 <= u < i ==> (#[trigger] xtx@[u])@ == xtx_of(xv, degree as int)[u],
            forall|u: int| 0 <= u < i ==> row_wf((#[trigger] xtx@[u])@),
        decreases m - i,
    {
        let mut row: Vec<Dec> = Vec::new();
        let mut j: usize = 0;
        while j < m
            invariant
                j <= m,
                row@.len() == j,
                forall|w: int| 0 <= w < j ==> (#[trigger] dot_prefix(
                    col_of(xv, i as int),
                    col_of(xv, w),
                    n as int,
                )) is Some,
                forall|w: int| 0 <= w < j ==> (#[trigger] row@[w]) == dot_prefix(
                    col_of(xv, i as int),
                    col_of(xv, w),
                    n as int,
                ).unwrap(),
                row_wf(row@),
            decreases m - j,
        {
            let mut acc = Dec::zero();
            let mut k: usize = 0;
            while k < n
                invariant
                    k <= n,
                    acc.wf(),
                    Some(acc) == dot_prefix(col_of(xv, i as int), col_of(xv, j as int), k as int),
                decreases n - k,
            {
                proof {
                    assert(row_wf(mat_view(xm@)[k as int]));
                    assert(mat_view(xm@)[k as int][i as int].wf());
                    assert(mat_view(xm@)[k as int][j as int].wf());
                }
                let t1 = match dec_mul(xm[k][i], xm[k][j]) {
                    Some(t1) => t1,
                    None => {
                        proof {
                            lemma_dot_none(col_of(xv, i as int), col_of(xv, j as int), k + 1,
                                n as int);
                            assert(dot_prefix(col_of(xv, i as int), col_of(xv, j as int), n as int)
                                is None);
                            assert(!xtx_ok(xv, degree as int));
                        }
                        return Err(FitError::Overflow);
                    },
                };
                let s1 = match dec_add(acc, t1) {
                    Some(s1) => s1,
                    None => {
                        proof {
                            lemma_dot_none(col_of(xv, i as int), col_of(xv, j as int), k + 1,
                                n as int);
                            assert(!xtx_ok(xv, degree as int));
                        }
                        return Err(FitError::Overflow);
                    },
                };
                acc = s1;
                k = k + 1;
            }
            row.push(acc);
            j = j + 1;
        }
        proof {
            assert(row@ =~= xtx_of(xv, degree as int)[i as int]);
        }
        xtx.push(row);
        i = i + 1;
    }
    proof {
        assert(xtx_ok(xv, degree as int));
        assert(mat_view(xtx@) =~= xtx_of(xv, degree as int));
        assert(mat_wf(mat_view(xtx@)));
        assert(mat_square(mat_view(xtx@), (degree + 1) as int));
    }

    let mut xty: Vec<Dec> = Vec::new();
    let mut i: usize = 0;
    while i < m
        invariant
            i <= m,
            xty@.len() == i,
            forall|u: int| 0 <= u < i ==> (#[trigger] dot_prefix(col_of(xv, u), ys@, n as int))
                is Some,
            forall|u: int| 0 <= u < i ==> (#[trigger] xty@[u]) == dot_prefix(
                col_of(xv, u),
                ys@,
                n as int,
            ).unwrap(),
            row_wf(xty@),
        decreases m - i,
    {
        let mut acc = Dec::zero();
        let mut k: usize = 0;
        while k < n
            invariant
                k <= n,
                acc.wf(),
                Some(acc) == dot_prefix(col_of(xv, i as int), ys@, k as int),
            decreases n - k,
        {
            proof {
                assert(row_wf(mat_view(xm@)[k as int]));
                assert(mat_view(xm@)[k as int][i as int].wf());
                assert(ys@[k as int].wf());
            }
            let t1 = match dec_mul(xm[k][i], ys[k]) {
                Some(t1) => t1,
                None => {
                    proof {
                        lemma_dot_none(col_of(xv, i as int), ys@, k + 1, n as int);
                        assert(!xty_ok(xv, ys@, degree as int));
                    }
                    return Err(FitError::Overflow);
                },
            };
            let s1 = match dec_add(acc, t1) {
                Some(s1) => s1,
                None => {
                    proof {
                        lemma_dot_none(col_of(xv, i as int), ys@, k + 1, n as int);
                        assert(!xty_ok(xv, ys@, degree as int));
                    }
                    return Err(FitError::Overflow);
                },
            };
            acc = s1;
            k = k + 1;
        }
        xty.push(acc);
        i = i + 1;
    }
    proof {
        assert(xty_ok(xv, ys@, degree as int));
        assert(xty@ =~= xty_of(xv, ys@, degree as int));
    }
    Ok((xtx, xty))
}

/// The total and residual sums of squares of the fitted polynomial over
/// every sample.
#[verifier::loop_isolation(false)]
#[verifier::rlimit(40)]
fn compute_stats(xs: &Vec<Dec>, ys: &Vec<Dec>, cs: &Vec<Dec>, mean: Dec) -> (r: Result<
    (Dec, Dec),
    FitError,
>)
    requires
        row_wf(xs@),
        row_wf(ys@),
        row_wf(cs@),
        mean.wf(),
        ys@.len() == xs@.len(),
    ensures
        match r {
            Ok(t) => stats_prefix(xs@, ys@, cs@, mean, xs@.len() as int) == Some(t) && t.0.wf()
                && t.1.wf(),
            Err(e) => e == FitError::Overflow && stats_prefix(xs@, ys@, cs@, mean, xs@.len() as int)
                is None,
        },
{
    let n = xs.len();
    let m = cs.len();
    let mut tss = Dec::zero();
    let mut rss = Dec::zero();
    let mut i: usize = 0;
    while i < n
        invariant
            i <= n,
            tss.wf(),
            rss.wf(),
            Some((tss, rss)) == stats_prefix(xs@, ys@, cs@, mean, i as int),
        decreases n - i,
    {
        proof {
            assert(xs@[i as int].wf());
            assert(ys@[i as int].wf());
        }
        let xi = xs[i];
        let yi = ys[i];

        // the fitted value at this sample
        let mut yp = Dec::zero();
        let mut j: usize = 0;
        while j < m
            invariant
                j <= m,
                yp.wf(),
                Some(yp) == pred_prefix(cs@, xi, j as int),
            decreases m - j,
        {
            proof {
                assert(cs@[j as int].wf());
            }
            let p = match dec_pow(xi, j) {
                Some(p) => p,
                None => {
                    proof {
                        lemma_pred_none(cs@, xi, j + 1, m as int);
                        lemma_stats_none(xs@, ys@, cs@, mean, i + 1, n as int);
                    }
                    return Err(FitError::Overflow);
                },
            };
            let t1 = match dec_mul(cs[j], p) {
                Some(t1) => t1,
                None => {
                    proof {
                        lemma_pred_none(cs@, xi, j + 1, m as int);
                        lemma_stats_none(xs@, ys@, cs@, mean, i + 1, n as int);
                    }
                    return Err(FitError::Overflow);
                },
            };
            let s1 = match dec_add(yp, t1) {
                Some(s1) => s1,
                None => {
                    proof {
                        lemma_pred_none(cs@, xi, j + 1, m as int);
                        lemma_stats_none(xs@, ys@, cs@, mean, i + 1, n as int);
                    }
                    return Err(FitError::Overflow);
                },
            };
            yp = s1;
            j = j + 1;
        }

        let dm = match dec_sub(yi, mean) {
            Some(dm) => dm,
            None => {
                proof {
                    lemma_stats_none(xs@, ys@, cs@, mean, i + 1, n as int);
                }
                return Err(FitError::Overflow);
            },
        };
        let sq1 = match dec_pow(dm, 2) {
            Some(sq1) => sq1,
            None => {
                proof {
                    lemma_stats_none(xs@, ys@, cs@, mean, i + 1, n as int);
                }
                return Err(FitError::Overflow);
            },
        };
        let t2 = match dec_add(tss, sq1) {
            Some(t2) => t2,
            None => {
                proof {
                    lemma_stats_none(xs@, ys@, cs@, mean, i + 1, n as int);
                }
                return Err(FitError::Overflow);
            },
        };
        let dr = match dec_sub(yi, yp) {
            Some(dr) => dr,
            None => {
                proof {
                    lemma_stats_none(xs@, ys@, cs@, mean, i + 1, n as int);
                }
                return Err(FitError::Overflow);
            },
        };
        let sq2 = match dec_pow(dr, 2) {
            Some(sq2) => sq2,
            None => {
                proof {
                    lemma_stats_none(xs@, ys@, cs@, mean, i + 1, n as int);
                }
                return Err(FitError::Overflow);
            },
        };
        let r2 = match dec_add(rss, sq2) {
            Some(r2) => r2,
            None => {
                proof {
                    lemma_stats_none(xs@, ys@, cs@, mean, i + 1, n as int);
                }
                return Err(FitError::Overflow);
            },
        };
        tss = t2;
        rss = r2;
        i = i + 1;
    }
    Ok((tss, rss))
}

/// Fit a polynomial of the given degree to already-parsed samples.
///
/// Returns exactly what the spec-level mirror [`spec_fit_core`] returns.
#[verifier::loop_isolation(false)]
#[verifier::rlimit(40)]
pub fn fit_decimals(xs: &Vec<Dec>, ys: &Vec<Dec>, degree: usize) -> (r: Result<
    (Vec<Dec>, Dec, Dec),
    FitError,
>)
    requires
        row_wf(xs@),
        row_wf(ys@),
        ys@.len() == xs@.len(),
        degree < xs@.len(),
    ensures
        match r {
            Ok(t) => spec_fit_core(xs@, ys@, degree as int) == Ok::<(Seq<Dec>, Dec, Dec), FitError>(
                (t.0@, t.1, t.2),
            ) && row_wf(t.0@) && t.0@.len() == degree + 1 && t.1.wf() && t.2.wf(),
            Err(e) => spec_fit_core(xs@, ys@, degree as int) == Err::<(Seq<Dec>, Dec, Dec),
                FitError,
            >(e),
        },
{
    let n = xs.len();
    let nd = Dec::from_usize(n);

    let xm = match build_design(xs, degree) {
        Ok(xm) => xm,
        Err(e) => {
            return Err(e);
        },
    };
    let (xtx, xty) = match build_normal(&xm, ys, degree) {
        Ok(t) => t,
        Err(e) => {
            return Err(e);
        },
    };
    let cs = match solve_linear_system(&xtx, &xty) {
        Ok(cs) => cs,
        Err(SolveError::Singular) => {
            return Err(FitError::FitFailed);
        },
        Err(SolveError::Overflow) => {
            return Err(FitError::Overflow);
        },
    };

    // the mean of the observations
    let mut sy = Dec::zero();
    let mut k: usize = 0;
    while k < n
        invariant
            k <= n,
            sy.wf(),
            Some(sy) == sum_prefix(ys@, k as int),
        decreases n - k,
    {
        proof {
            assert(ys@[k as int].wf());
        }
        match dec_add(sy, ys[k]) {
            Some(s) => {
                sy = s;
            },
            None => {
                proof {
                    lemma_sum_none(ys@, k + 1, n as int);
                }
                return Err(FitError::Overflow);
            },
        }
        k = k + 1;
    }
    let mean = match dec_div(sy, nd) {
        Some(mean) => mean,
        None => {
            return Err(FitError::Overflow);
        },
    };

    let (tss, rss) = match compute_stats(xs, ys, &cs, mean) {
        Ok(t) => t,
        Err(e) => {
            return Err(e);
        },
    };

    let r2 = if tss.mant == 0 {
        Dec::one()
    } else {
        let q = match dec_div(rss, tss) {
            Some(q) => q,
            None => {
                return Err(FitError::Overflow);
            },
        };
        match dec_sub(Dec::one(), q) {
            Some(r2v) => r2v,
            None => {
                return Err(FitError::Overflow);
            },
        }
    };
    let mse = match dec_div(rss, nd) {
        Some(mse) => mse,
        None => {
            return Err(FitError::Overflow);
        },
    };
    Ok((cs, r2, mse))
}

/// Fit a polynomial of the given degree to sample points whose
/// coordinates are decimal text.
///
/// The input is rejected when it is empty (`EmptyInput`) and when the
/// number of points does not exceed the degree (`InsufficientPoints`);
/// coordinate text that does not parse stands for zero; a singular
/// normal-equations matrix aborts the whole fit with `FitFailed`. The
/// result is exactly what the spec-level mirror [`spec_fit`] returns.
#[verifier::loop_isolation(false)]
pub fn polynomial_fit(points: &Vec<Point>, degree: usize) -> (r: Result<FitResult, FitError>)
    ensures
        match r {
            Ok(fr) => spec_fit(point_views(points@), degree as int) == Ok::<
                (Seq<Seq<char>>, Seq<char>, Seq<char>),
                FitError,
            >(
                (
                    Seq::new(fr.coefficients@.len(), |i: int| fr.coefficients@[i]@),
                    fr.r2@,
                    fr.mse@,
                ),
            ),
            Err(e) => spec_fit(point_views(points@), degree as int) == Err::<
                (Seq<Seq<char>>, Seq<char>, Seq<char>),
                FitError,
            >(e),
        },
{
    let n = points.len();
    if n == 0 {
        return Err(FitError::EmptyInput);
    }
    if n <= degree {
        return Err(FitError::InsufficientPoints);
    }

    let ghost pv = point_views(points@);
    let mut xs: Vec<Dec> = Vec::new();
    let mut ys: Vec<Dec> = Vec::new();
    let mut i: usize = 0;
    while i < n
        invariant
            i <= n,
            xs@.len() == i,
            ys@.len() == i,
            forall|u: int| 0 <= u < i ==> (#[trigger] xs@[u]) == xs_of(pv)[u],
            forall|u: int| 0 <= u < i ==> (#[trigger] ys@[u]) == ys_of(pv)[u],
            row_wf(xs@),
            row_wf(ys@),
        decreases n - i,
    {
        let px = match dec_parse(points[i].x.as_str()) {
            Some(d) => d,
            None => Dec::zero(),
        };
        let py = match dec_parse(points[i].y.as_str()) {
            Some(d) => d,
            None => Dec::zero(),
        };
        xs.push(px);
        ys.push(py);
        i = i + 1;
    }
    proof {
        assert(xs@ =~= xs_of(pv));
        assert(ys@ =~= ys_of(pv));
    }

    let (cs, r2, mse) = match fit_decimals(&xs, &ys, degree) {
        Ok(t) => t,
        Err(e) => {
            return Err(e);
        },
    };

    let mut coefficients: Vec<String> = Vec::new();
    let mut j: usize = 0;
    while j < cs.len()
        invariant
            j <= cs@.len(),
            coefficients@.len() == j,
            forall|u: int| 0 <= u < j ==> (#[trigger] coefficients@[u])@ == dec_render_res(cs@[u]),
        decreases cs@.len() - j,
    {
        proof {
            assert(cs@[j as int].wf());
        }
        let s = cs[j].render();
        coefficients.push(s);
        j = j + 1;
    }
    let r2s = r2.render();
    let mses = mse.render();
    let fr = FitResult { coefficients, r2: r2s, mse: mses };
    proof {
        assert(Seq::new(fr.coefficients@.len(), |u: int| fr.coefficients@[u]@) =~= Seq::new(
            cs@.len(),
            |u: int| dec_render_res(cs@[u]),
        ));
    }
    Ok(fr)
}

} // verus!
