//! Dense Gaussian elimination with partial pivoting over exact-precision
//! decimals.
//!
//! The executable solver is proved to return exactly what the spec-level
//! mirror of the algorithm ([`spec_solve`]) returns: the same pivot
//! choices, the same eliminations in the same order, the same failure.
//! A pivot that is exactly zero after the swap makes the system singular;
//! a checked decimal operation that overflows stops the solve with an
//! overflow error instead of a panic.

use vstd::prelude::*;
use crate::dec::Dec;
use crate::dec::spec_abs;
use crate::dec::spec_zero;
use crate::dec::lt_val;
use crate::dec::dec_add_res;
use crate::dec::dec_sub_res;
use crate::dec::dec_mul_res;
use crate::dec::dec_div_res;
use crate::dec::dec_add;
use crate::dec::dec_sub;
use crate::dec::dec_mul;
use crate::dec::dec_div;
use crate::dec::dec_lt;

verus! {

/// Why a solve failed.
#[derive(Clone, Copy, PartialEq, Eq, Structural, Debug)]
pub enum SolveError {
    /// The system has no unique solution: a pivot was exactly zero.
    Singular,
    /// A checked decimal operation left the representable range.
    Overflow,
}

/// The rows of a dense matrix, as sequences.
pub open spec fn mat_view(a: Seq<Vec<Dec>>) -> Seq<Seq<Dec>> {
    Seq::new(a.len(), |i: int| a[i]@)
}

/// Every entry of the row is well-formed.
pub open spec fn row_wf(r: Seq<Dec>) -> bool {
    forall|j: int| 0 <= j < r.len() ==> (#[trigger] r[j]).wf()
}

/// Every entry of the matrix is well-formed.
pub open spec fn mat_wf(a: Seq<Seq<Dec>>) -> bool {
    forall|i: int| 0 <= i < a.len() ==> row_wf(#[trigger] a[i])
}

/// An `n` by `n` matrix.
pub open spec fn mat_square(a: Seq<Seq<Dec>>, n: int) -> bool {
    a.len() == n && forall|i: int| 0 <= i < n ==> (#[trigger] a[i]).len() == n
}

/// `|x| < |y|` by decimal value.
pub open spec fn abs_below(x: Dec, y: Dec) -> bool {
    lt_val(spec_abs(x), spec_abs(y))
}

/// The row among `col..=k` whose entry in column `col` has the largest
/// absolute value (the earliest such row on ties).
pub open spec fn pivot_upto(a: Seq<Seq<Dec>>, col: int, k: int) -> int
    decreases k - col,
{
    if k <= col {
        col
    } else {
        let p = pivot_upto(a, col, k - 1);
        if abs_below(a[p][col], a[k][col]) {
            k
        } else {
            p
        }
    }
}

/// The partial-pivoting choice for column `col` of an `n`-row matrix.
pub open spec fn pivot_row(a: Seq<Seq<Dec>>, col: int, n: int) -> int {
    pivot_upto(a, col, n - 1)
}

/// `x - m1 * m2` over checked decimal operations.
pub open spec fn opt_mul_sub(x: Dec, m1: Dec, m2: Dec) -> Option<Dec> {
    match dec_mul_res(m1, m2) {
        Some(t) => dec_sub_res(x, t),
        None => None,
    }
}

/// The elimination factor for row `k` of column `col`.
pub open spec fn factor_of(a: Seq<Seq<Dec>>, col: int, k: int) -> Option<Dec> {
    dec_div_res(a[k][col], a[col][col])
}

/// Every checked operation of one row elimination succeeds.
pub open spec fn row_elim_ok(rowk: Seq<Dec>, prow: Seq<Dec>, f: Dec, col: int, n: int) -> bool {
    forall|j: int| col <= j < n ==> (#[trigger] opt_mul_sub(rowk[j], prow[j], f)) is Some
}

/// Row `rowk` after the pivot row `prow`, scaled by `f`, is subtracted
/// from its columns `col..n`.
pub open spec fn row_elim(rowk: Seq<Dec>, prow: Seq<Dec>, f: Dec, col: int, n: int) -> Seq<Dec> {
    Seq::new(n as nat, |j: int|
        if j < col {
            rowk[j]
        } else {
            opt_mul_sub(rowk[j], prow[j], f).unwrap()
        })
}

/// Every checked operation of one column's eliminations succeeds.
pub open spec fn col_elim_ok(a: Seq<Seq<Dec>>, b: Seq<Dec>, col: int, n: int) -> bool {
    forall|k: int| col < k < n ==> {
        &&& (#[trigger] factor_of(a, col, k)) is Some
        &&& opt_mul_sub(b[k], factor_of(a, col, k).unwrap(), b[col]) is Some
        &&& row_elim_ok(a[k], a[col], factor_of(a, col, k).unwrap(), col, n)
    }
}

/// The matrix after column `col` is eliminated from every row below it.
pub open spec fn col_elim_a(a: Seq<Seq<Dec>>, col: int, n: int) -> Seq<Seq<Dec>> {
    Seq::new(n as nat, |k: int|
        if k <= col {
            a[k]
        } else {
            row_elim(a[k], a[col], factor_of(a, col, k).unwrap(), col, n)
        })
}

/// The right-hand side after column `col` is eliminated.
pub open spec fn col_elim_b(a: Seq<Seq<Dec>>, b: Seq<Dec>, col: int, n: int) -> Seq<Dec> {
    Seq::new(n as nat, |k: int|
        if k <= col {
            b[k]
        } else {
            opt_mul_sub(b[k], factor_of(a, col, k).unwrap(), b[col]).unwrap()
        })
}

/// The sequence with positions `i` and `p` exchanged.
pub open spec fn swap_idx<T>(s: Seq<T>, i: int, p: int) -> Seq<T> {
    s.update(i, s[p]).update(p, s[i])
}

/// One column of forward elimination: pick the pivot row by largest
/// absolute value, swap it up (together with its right-hand side), fail
/// on an exactly zero pivot, then eliminate the column from every row
/// below.
pub open spec fn elim_step(a: Seq<Seq<Dec>>, b: Seq<Dec>, col: int, n: int) -> Result<
    (Seq<Seq<Dec>>, Seq<Dec>),
    SolveError,
> {
    let p = pivot_row(a, col, n);
    let a1 = swap_idx(a, col, p);
    let b1 = swap_idx(b, col, p);
    if a1[col][col].is_zero() {
        Err(SolveError::Singular)
    } else if !col_elim_ok(a1, b1, col, n) {
        Err(SolveError::Overflow)
    } else {
        Ok((col_elim_a(a1, col, n), col_elim_b(a1, b1, col, n)))
    }
}

/// The state after the first `i` columns of forward elimination.
pub open spec fn elim_upto(a0: Seq<Seq<Dec>>, b0: Seq<Dec>, i: nat, n: int) -> Result<
    (Seq<Seq<Dec>>, Seq<Dec>),
    SolveError,
>
    decreases i,
{
    if i == 0 {
        Ok((a0, b0))
    } else {
        match elim_upto(a0, b0, (i - 1) as nat, n) {
            Ok(s) => elim_step(s.0, s.1, i - 1, n),
            Err(e) => Err(e),
        }
    }
}

/// A failed elimination stays failed at every later column.
proof fn lemma_elim_err(a0: Seq<Seq<Dec>>, b0: Seq<Dec>, i: nat, j: nat, n: int)
    requires
        elim_upto(a0, b0, i, n) is Err,
        i <= j,
    ensures
        elim_upto(a0, b0, j, n) == elim_upto(a0, b0, i, n),
    decreases j,
{
    if i < j {
        lemma_elim_err(a0, b0, i, (j - 1) as nat, n);
    }
}

/// The running sum of `arow[t] * x[t]` for `t` in `i+1..j`, accumulated
/// left to right by checked operations, starting from zero.
pub open spec fn back_sum(arow: Seq<Dec>, x: Seq<Dec>, i: int, j: int) -> Option<Dec>
    decreases j - i,
{
    if j <= i + 1 {
        Some(spec_zero())
    } else {
        match back_sum(arow, x, i, j - 1) {
            Some(s) => match dec_mul_res(arow[j - 1], x[j - 1]) {
                Some(t) => dec_add_res(s, t),
                None => None,
            },
            None => None,
        }
    }
}

/// A failed running sum stays failed as further terms are added.
proof fn lemma_back_sum_none(arow: Seq<Dec>, x: Seq<Dec>, i: int, j: int, j2: int)
    requires
        back_sum(arow, x, i, j) is None,
        j <= j2,
    ensures
        back_sum(arow, x, i, j2) is None,
    decreases j2 - j,
{
    if j < j2 {
        lemma_back_sum_none(arow, x, i, j, j2 - 1);
    }
}

/// The solution vector with entries `i..n` filled in by back
/// substitution over the eliminated system (entries below `i` still
/// zero): `x[i] = (b[i] - sum) / a[i][i]`.
pub open spec fn back_upto(a: Seq<Seq<Dec>>, b: Seq<Dec>, i: int, n: int) -> Result<
    Seq<Dec>,
    SolveError,
>
    decreases n - i,
{
    if i >= n {
        Ok(Seq::new(n as nat, |t: int| spec_zero()))
    } else {
        match back_upto(a, b, i + 1, n) {
            Ok(x) => match back_sum(a[i], x, i, n) {
                Some(s) => match dec_sub_res(b[i], s) {
                    Some(num) => match dec_div_res(num, a[i][i]) {
                        Some(xi) => Ok(x.update(i, xi)),
                        None => Err(SolveError::Overflow),
                    },
                    None => Err(SolveError::Overflow),
                },
                None => Err(SolveError::Overflow),
            },
            Err(e) => Err(e),
        }
    }
}

/// A failed back substitution stays failed at every earlier row.
proof fn lemma_back_err(a: Seq<Seq<Dec>>, b: Seq<Dec>, j: int, i: int, n: int)
    requires
        back_upto(a, b, i, n) is Err,
        j <= i,
    ensures
        back_upto(a, b, j, n) == back_upto(a, b, i, n),
    decreases i - j,
{
    if j < i {
        lemma_back_err(a, b, j + 1, i, n);
    }
}

/// Gaussian elimination with partial pivoting and back substitution,
/// step by step, over checked decimal operations.
pub open spec fn spec_solve(a: Seq<Seq<Dec>>, b: Seq<Dec>) -> Result<Seq<Dec>, SolveError> {
    let n = b.len() as int;
    match elim_upto(a, b, n as nat, n) {
        Ok(s) => back_upto(s.0, s.1, 0, n),
        Err(e) => Err(e),
    }
}

/// A copy of a row of decimals.
fn copy_decs(src: &Vec<Dec>) -> (r: Vec<Dec>)
    ensures
        r@ == src@,
{
    let mut r: Vec<Dec> = Vec::new();
    let mut j: usize = 0;
    while j < src.len()
        invariant
            j <= src@.len(),
            r@ =~= src@.subrange(0, j as int),
        decreases src@.len() - j,
    {
        r.push(src[j]);
        j = j + 1;
    }
    proof {
        assert(r@ =~= src@);
    }
    r
}

/// Solve `A x = b` for square `A` by Gaussian elimination with partial
/// pivoting over exact-precision decimals.
///
/// Returns exactly what the spec-level mirror of the algorithm returns:
/// `Err(Singular)` where a pivot is exactly zero, `Err(Overflow)` where a
/// checked decimal operation leaves the representable range, and
/// otherwise the back-substituted solution.
#[verifier::loop_isolation(false)]
#[verifier::rlimit(80)]
pub fn solve_linear_system(a: &Vec<Vec<Dec>>, b: &Vec<Dec>) -> (r: Result<Vec<Dec>, SolveError>)
    requires
        mat_square(mat_view(a@), b@.len() as int),
        mat_wf(mat_view(a@)),
        row_wf(b@),
    ensures
        match r {
            Ok(x) => spec_solve(mat_view(a@), b@) == Ok::<Seq<Dec>, SolveError>(x@)
                && x@.len() == b@.len() && row_wf(x@),
            Err(e) => spec_solve(mat_view(a@), b@) == Err::<Seq<Dec>, SolveError>(e),
        },
{
    let n = b.len();
    let ghost a0 = mat_view(a@);
    let ghost b0 = b@;

    // working copies
    let mut m: Vec<Vec<Dec>> = Vec::new();
    let mut t: usize = 0;
    while t < n
        invariant
            t <= n,
            m@.len() == t,
            forall|u: int| 0 <= u < t ==> (#[trigger] m@[u])@ == a0[u],
        decreases n - t,
    {
        let row = copy_decs(&a[t]);
        m.push(row);
        t = t + 1;
    }
    let mut v: Vec<Dec> = copy_decs(b);
    proof {
        assert(mat_view(m@) =~= a0);
    }

    let mut i: usize = 0;
    while i < n
        invariant
            i <= n,
            m@.len() == n,
            v@.len() == n,
            forall|u: int| 0 <= u < n ==> (#[trigger] m@[u])@.len() == n,
            mat_wf(mat_view(m@)),
            row_wf(v@),
            elim_upto(a0, b0, i as nat, n as int) == Ok::<(Seq<Seq<Dec>>, Seq<Dec>), SolveError>(
                (mat_view(m@), v@),
            ),
        decreases n - i,
    {
        let ghost pre_a = mat_view(m@);
        let ghost pre_b = v@;

        // partial pivoting: the row with the largest absolute value in
        // column i
        let mut max_row: usize = i;
        let mut k: usize = i + 1;
        while k < n
            invariant
                i < k <= n,
                i <= max_row < k,
                max_row as int == pivot_upto(pre_a, i as int, k - 1),
            decreases n - k,
        {
            proof {
                assert(row_wf(mat_view(m@)[max_row as int]));
                assert(row_wf(mat_view(m@)[k as int]));
                assert(mat_view(m@)[max_row as int][i as int].wf());
                assert(mat_view(m@)[k as int][i as int].wf());
            }
            let cur = m[max_row][i];
            let cand = m[k][i];
            if dec_lt(cur.abs(), cand.abs()) {
                max_row = k;
            }
            k = k + 1;
        }
        proof {
            assert(max_row as int == pivot_row(pre_a, i as int, n as int));
        }

        // swap the pivot row (and its right-hand side) into position i
        if max_row != i {
            let rowi = copy_decs(&m[i]);
            let rowp = copy_decs(&m[max_row]);
            m[i] = rowp;
            m[max_row] = rowi;
            let bi = v[i];
            let bp = v[max_row];
            v[i] = bp;
            v[max_row] = bi;
        }
        let ghost a1 = mat_view(m@);
        let ghost b1 = v@;
        proof {
            assert(a1 =~= swap_idx(pre_a, i as int, max_row as int));
            assert(b1 =~= swap_idx(pre_b, i as int, max_row as int));
            assert forall|u: int| 0 <= u < a1.len() implies row_wf(#[trigger] a1[u]) by {
                assert(row_wf(pre_a[u]));
                assert(row_wf(pre_a[i as int]));
                assert(row_wf(pre_a[max_row as int]));
            };
            assert(mat_wf(a1));
            assert forall|u: int| 0 <= u < b1.len() implies (#[trigger] b1[u]).wf() by {
                assert(pre_b[u].wf());
                assert(pre_b[i as int].wf());
                assert(pre_b[max_row as int].wf());
            };
            assert(row_wf(b1));
        }

        let piv = m[i][i];
        if piv.mant == 0 {
            proof {
                assert(elim_step(pre_a, pre_b, i as int, n as int) == Err::<
                    (Seq<Seq<Dec>>, Seq<Dec>),
                    SolveError,
                >(SolveError::Singular));
                lemma_elim_err(a0, b0, (i + 1) as nat, n as nat, n as int);
            }
            return Err(SolveError::Singular);
        }

        // eliminate column i from every row below
        let mut k: usize = i + 1;
        while k < n
            invariant
                i < k <= n,
                m@.len() == n,
                v@.len() == n,
                forall|u: int| 0 <= u < n ==> (#[trigger] m@[u])@.len() == n,
                mat_wf(mat_view(m@)),
                row_wf(v@),
                forall|u: int| 0 <= u <= i || k <= u < n
                    ==> (#[trigger] mat_view(m@)[u]) == a1[u],
                forall|u: int| 0 <= u <= i || k <= u < n ==> (#[trigger] v@[u]) == b1[u],
                forall|u: int| i < u < k ==> {
                    &&& (#[trigger] factor_of(a1, i as int, u)) is Some
                    &&& opt_mul_sub(b1[u], factor_of(a1, i as int, u).unwrap(), b1[i as int])
                        is Some
                    &&& row_elim_ok(a1[u], a1[i as int], factor_of(a1, i as int, u).unwrap(),
                        i as int, n as int)
                    &&& mat_view(m@)[u] == row_elim(a1[u], a1[i as int],
                        factor_of(a1, i as int, u).unwrap(), i as int, n as int)
                    &&& v@[u] == opt_mul_sub(b1[u], factor_of(a1, i as int, u).unwrap(),
                        b1[i as int]).unwrap()
                },
            decreases n - k,
    {
            let aki = m[k][i];
            proof {
                assert(row_wf(mat_view(m@)[k as int]));
                assert(row_wf(mat_view(m@)[i as int]));
                assert(aki.wf());
                assert(piv.wf());
            }
            match dec_div(aki, piv) {
                None => {
                    proof {
                        assert(factor_of(a1, i as int, k as int) is None);
                        assert(!col_elim_ok(a1, b1, i as int, n as int));
                        assert(elim_step(pre_a, pre_b, i as int, n as int) == Err::<
                            (Seq<Seq<Dec>>, Seq<Dec>),
                            SolveError,
                        >(SolveError::Overflow));
                        lemma_elim_err(a0, b0, (i + 1) as nat, n as nat, n as int);
                    }
                    return Err(SolveError::Overflow);
                },
                Some(f) => {
                    proof {
                        assert(v@[i as int].wf());
                        assert(v@[k as int].wf());
                    }
                    proof {
                        assert(factor_of(a1, i as int, k as int) == Some(f));
                    }
                    let bi = v[i];
                    let fb = match dec_mul(f, bi) {
                        None => {
                            proof {
                                assert(opt_mul_sub(b1[k as int], f, b1[i as int]) is None);
                                assert(!col_elim_ok(a1, b1, i as int, n as int));
                                assert(elim_step(pre_a, pre_b, i as int, n as int) == Err::<
                                    (Seq<Seq<Dec>>, Seq<Dec>),
                                    SolveError,
                                >(SolveError::Overflow));
                                lemma_elim_err(a0, b0, (i + 1) as nat, n as nat, n as int);
                            }
                            return Err(SolveError::Overflow);
                        },
                        Some(t1) => t1,
                    };
                    let nb = match dec_sub(v[k], fb) {
                        None => {
                            proof {
                                assert(opt_mul_sub(b1[k as int], f, b1[i as int]) is None);
                                assert(!col_elim_ok(a1, b1, i as int, n as int));
                                assert(elim_step(pre_a, pre_b, i as int, n as int) == Err::<
                                    (Seq<Seq<Dec>>, Seq<Dec>),
                                    SolveError,
                                >(SolveError::Overflow));
                                lemma_elim_err(a0, b0, (i + 1) as nat, n as nat, n as int);
                            }
                            return Err(SolveError::Overflow);
                        },
                        Some(t2) => t2,
                    };
                    let ghost vprev = v@;
                    v[k] = nb;
                    proof {
                        assert forall|u: int| 0 <= u < v@.len() implies (#[trigger] v@[u]).wf()
                        by {
                            if u != k as int {
                                assert(v@[u] == vprev[u]);
                                assert(vprev[u].wf());
                            }
                        };
                        assert(row_wf(v@));
                    }

                    let mut new_row: Vec<Dec> = Vec::new();
                    let mut j: usize = 0;
                    while j < n
                        invariant
                            j <= n,
                            new_row@.len() == j,
                            forall|u: int| 0 <= u < j && u < i ==> (#[trigger] new_row@[u])
                                == a1[k as int][u],
                            forall|u: int| i <= u < j
                                ==> (#[trigger] opt_mul_sub(a1[k as int][u], a1[i as int][u], f))
                                    is Some
                                    && new_row@[u] == opt_mul_sub(a1[k as int][u], a1[i as int][u],
                                        f).unwrap(),
                            row_wf(new_row@),
                        decreases n - j,
                    {
                        proof {
                            assert(row_wf(mat_view(m@)[k as int]));
                            assert(row_wf(mat_view(m@)[i as int]));
                            assert(mat_view(m@)[k as int][j as int].wf());
                            assert(mat_view(m@)[i as int][j as int].wf());
                        }
                        if j < i {
                            new_row.push(m[k][j]);
                        } else {
                            let tj = match dec_mul(m[i][j], f) {
                                None => {
                                    proof {
                                        assert(opt_mul_sub(a1[k as int][j as int],
                                            a1[i as int][j as int], f) is None);
                                        assert(!row_elim_ok(a1[k as int], a1[i as int], f, i as int,
                                            n as int));
                                        assert(!col_elim_ok(a1, b1, i as int, n as int));
                                        assert(elim_step(pre_a, pre_b, i as int, n as int) == Err::<
                                            (Seq<Seq<Dec>>, Seq<Dec>),
                                            SolveError,
                                        >(SolveError::Overflow));
                                        lemma_elim_err(a0, b0, (i + 1) as nat, n as nat, n as int);
                                    }
                                    return Err(SolveError::Overflow);
                                },
                                Some(t3) => t3,
                            };
                            let nv = match dec_sub(m[k][j], tj) {
                                None => {
                                    proof {
                                        assert(opt_mul_sub(a1[k as int][j as int],
                                            a1[i as int][j as int], f) is None);
                                        assert(!row_elim_ok(a1[k as int], a1[i as int], f, i as int,
                                            n as int));
                                        assert(!col_elim_ok(a1, b1, i as int, n as int));
                                        assert(elim_step(pre_a, pre_b, i as int, n as int) == Err::<
                                            (Seq<Seq<Dec>>, Seq<Dec>),
                                            SolveError,
                                        >(SolveError::Overflow));
                                        lemma_elim_err(a0, b0, (i + 1) as nat, n as nat, n as int);
                                    }
                                    return Err(SolveError::Overflow);
                                },
                                Some(t4) => t4,
                            };
                            new_row.push(nv);
                        }
                        j = j + 1;
                    }
                    proof {
                        assert(new_row@ =~= row_elim(a1[k as int], a1[i as int], f, i as int,
                            n as int));
                    }
                    let ghost mprev = mat_view(m@);
                    m[k] = new_row;
                    proof {
                        assert forall|u: int| 0 <= u < mat_view(m@).len() implies row_wf(
                            #[trigger] mat_view(m@)[u],
                        ) by {
                            if u != k as int {
                                assert(mat_view(m@)[u] == mprev[u]);
                                assert(row_wf(mprev[u]));
                            }
                        };
                        assert(mat_wf(mat_view(m@)));
                        assert forall|u: int| 0 <= u <= i || k + 1 <= u < n implies (
                        #[trigger] mat_view(m@)[u]) == a1[u] by {
                            assert(mat_view(m@)[u] == mprev[u]);
                        };
                        assert forall|u: int| 0 <= u <= i || k + 1 <= u < n implies (
                        #[trigger] v@[u]) == b1[u] by {
                            assert(v@[u] == vprev[u]);
                        };
                        assert forall|u: int| i < u < k + 1 implies (#[trigger] factor_of(
                            a1,
                            i as int,
                            u,
                        )) is Some && opt_mul_sub(b1[u], factor_of(a1, i as int, u).unwrap(),
                            b1[i as int]) is Some && row_elim_ok(a1[u], a1[i as int],
                            factor_of(a1, i as int, u).unwrap(), i as int, n as int)
                            && mat_view(m@)[u] == row_elim(a1[u], a1[i as int],
                            factor_of(a1, i as int, u).unwrap(), i as int, n as int)
                            && v@[u] == opt_mul_sub(b1[u], factor_of(a1, i as int, u).unwrap(),
                            b1[i as int]).unwrap() by {
                            if u < k {
                                assert(mat_view(m@)[u] == mprev[u]);
                                assert(v@[u] == vprev[u]);
                            } else {
                                assert(mat_view(m@)[u] == new_row@);
                            }
                        };
                    }
                    k = k + 1;
                },
            }
        }
        proof {
            assert(col_elim_ok(a1, b1, i as int, n as int));
            assert(mat_view(m@) =~= col_elim_a(a1, i as int, n as int));
            assert(v@ =~= col_elim_b(a1, b1, i as int, n as int));
            assert(elim_upto(a0, b0, (i + 1) as nat, n as int) == Ok::<
                (Seq<Seq<Dec>>, Seq<Dec>),
                SolveError,
            >((mat_view(m@), v@)));
        }
        i = i + 1;
    }

    let ghost a2 = mat_view(m@);
    let ghost b2 = v@;

    // back substitution, from the last row up
    let mut x: Vec<Dec> = Vec::new();
    while x.len() < n
        invariant
            x@.len() <= n,
            forall|u: int| 0 <= u < x@.len() ==> (#[trigger] x@[u]) == spec_zero(),
        decreases n - x@.len(),
    {
        x.push(Dec::zero());
    }
    proof {
        assert(x@ =~= Seq::new(n as nat, |u: int| spec_zero()));
    }

    let mut ii: usize = n;
    while ii > 0
        invariant
            ii <= n,
            x@.len() == n,
            row_wf(x@),
            mat_view(m@) == a2,
            v@ == b2,
            back_upto(a2, b2, ii as int, n as int) == Ok::<Seq<Dec>, SolveError>(x@),
        decreases ii,
    {
        let i2 = ii - 1;
        let mut sum = Dec::zero();
        let mut j: usize = i2 + 1;
        while j < n
            invariant
                i2 + 1 <= j <= n,
                sum.wf(),
                Some(sum) == back_sum(a2[i2 as int], x@, i2 as int, j as int),
            decreases n - j,
        {
            proof {
                assert(row_wf(mat_view(m@)[i2 as int]));
                assert(mat_view(m@)[i2 as int][j as int].wf());
                assert(x@[j as int].wf());
            }
            let tj = match dec_mul(m[i2][j], x[j]) {
                None => {
                    proof {
                        lemma_back_sum_none(a2[i2 as int], x@, i2 as int, j + 1, n as int);
                        lemma_back_err(a2, b2, 0, i2 as int, n as int);
                    }
                    return Err(SolveError::Overflow);
                },
                Some(t5) => t5,
            };
            let s2 = match dec_add(sum, tj) {
                None => {
                    proof {
                        lemma_back_sum_none(a2[i2 as int], x@, i2 as int, j + 1, n as int);
                        lemma_back_err(a2, b2, 0, i2 as int, n as int);
                    }
                    return Err(SolveError::Overflow);
                },
                Some(t6) => t6,
            };
            sum = s2;
            j = j + 1;
        }
        proof {
            assert(v@[i2 as int].wf());
            assert(row_wf(mat_view(m@)[i2 as int]));
            assert(mat_view(m@)[i2 as int][i2 as int].wf());
        }
        let num = match dec_sub(v[i2], sum) {
            None => {
                proof {
                    lemma_back_err(a2, b2, 0, i2 as int, n as int);
                }
                return Err(SolveError::Overflow);
            },
            Some(t7) => t7,
        };
        let xi = match dec_div(num, m[i2][i2]) {
            None => {
                proof {
                    lemma_back_err(a2, b2, 0, i2 as int, n as int);
                }
                return Err(SolveError::Overflow);
            },
            Some(t8) => t8,
        };
        x[i2] = xi;
        ii = i2;
    }
    Ok(x)
}

} // verus!
