//! Exact-precision decimal scalars.
//!
//! A [`Dec`] holds the two plain components of a `rust_decimal::Decimal`:
//! a signed 96-bit mantissa and a power-of-ten scale, so that the value is
//! `mant / 10^scale`. All arithmetic is done by `rust_decimal` behind
//! trusted wrappers; the wrappers' results are named by uninterpreted
//! spec functions, so that verified callers can state exactly which
//! operations produced their results.

use vstd::prelude::*;

verus! {

/// Largest mantissa magnitude a `rust_decimal::Decimal` can carry (2^96 - 1).
pub const MANT_LIMIT: i128 = 0x0000_0000_ffff_ffff_ffff_ffff_ffff_ffff;

/// Largest scale (number of fractional decimal digits) a
/// `rust_decimal::Decimal` can carry.
pub const SCALE_LIMIT: u32 = 28;

/// An exact-precision decimal number with value `mant / 10^scale`.
#[derive(Clone, Copy, PartialEq, Eq, Structural, Debug)]
pub struct Dec {
    pub mant: i128,
    pub scale: u32,
}

impl Dec {
    /// The representation stays inside what `rust_decimal` supports.
    pub open spec fn wf(self) -> bool {
        -MANT_LIMIT <= self.mant <= MANT_LIMIT && self.scale <= SCALE_LIMIT
    }

    /// The value is zero exactly when the mantissa is zero.
    pub open spec fn is_zero(self) -> bool {
        self.mant == 0
    }
}

/// 10^e.
pub open spec fn pow10(e: nat) -> int
    decreases e,
{
    if e == 0 {
        1
    } else {
        10 * pow10((e - 1) as nat)
    }
}

/// The value of `a` is strictly below the value of `b`:
/// `a.mant / 10^a.scale < b.mant / 10^b.scale`, cleared of denominators.
pub open spec fn lt_val(a: Dec, b: Dec) -> bool {
    a.mant * pow10(b.scale as nat) < b.mant * pow10(a.scale as nat)
}

pub open spec fn spec_zero() -> Dec {
    Dec { mant: 0, scale: 0 }
}

pub open spec fn spec_one() -> Dec {
    Dec { mant: 1, scale: 0 }
}

/// The absolute value keeps the scale and drops the sign.
pub open spec fn spec_abs(d: Dec) -> Dec {
    Dec { mant: if d.mant < 0 { (-d.mant) as i128 } else { d.mant }, scale: d.scale }
}

/// What `rust_decimal`'s checked addition returns: `None` on overflow.
pub uninterp spec fn dec_add_res(a: Dec, b: Dec) -> Option<Dec>;

/// What `rust_decimal`'s checked subtraction returns: `None` on overflow.
pub uninterp spec fn dec_sub_res(a: Dec, b: Dec) -> Option<Dec>;

/// What `rust_decimal`'s checked multiplication returns: `None` on overflow.
pub uninterp spec fn dec_mul_res(a: Dec, b: Dec) -> Option<Dec>;

/// What `rust_decimal`'s checked division returns: `None` on a zero
/// divisor or on overflow.
pub uninterp spec fn dec_div_res(a: Dec, b: Dec) -> Option<Dec>;

/// What `rust_decimal`'s string parser returns: `None` where the text is
/// not a decimal number it accepts.
pub uninterp spec fn dec_parse_res(s: Seq<char>) -> Option<Dec>;

/// The decimal text that `rust_decimal` renders a value to.
pub uninterp spec fn dec_render_res(d: Dec) -> Seq<char>;

/// Relies on `rust_decimal::Decimal::checked_add` (with
/// `from_i128_with_scale`, `mantissa` and `scale` converting at the
/// boundary): checked decimal addition, `None` on overflow; any result
/// keeps the 96-bit mantissa range and a scale of at most 28.
#[verifier::external_body]
pub(crate) fn dec_add(a: Dec, b: Dec) -> (r: Option<Dec>)
    requires
        a.wf(),
        b.wf(),
    ensures
        r == dec_add_res(a, b),
        r is Some ==> r.unwrap().wf(),
{
    let x = rust_decimal::Decimal::from_i128_with_scale(a.mant, a.scale);
    let y = rust_decimal::Decimal::from_i128_with_scale(b.mant, b.scale);
    match x.checked_add(y) {
        Some(d) => Some(Dec { mant: d.mantissa(), scale: d.scale() }),
        None => None,
    }
}

/// Relies on `rust_decimal::Decimal::checked_sub` (with
/// `from_i128_with_scale`, `mantissa` and `scale` converting at the
/// boundary): checked decimal subtraction, `None` on overflow; any result
/// keeps the 96-bit mantissa range and a scale of at most 28.
#[verifier::external_body]
pub(crate) fn dec_sub(a: Dec, b: Dec) -> (r: Option<Dec>)
    requires
        a.wf(),
        b.wf(),
    ensures
        r == dec_sub_res(a, b),
        r is Some ==> r.unwrap().wf(),
{
    let x = rust_decimal::Decimal::from_i128_with_scale(a.mant, a.scale);
    let y = rust_decimal::Decimal::from_i128_with_scale(b.mant, b.scale);
    match x.checked_sub(y) {
        Some(d) => Some(Dec { mant: d.mantissa(), scale: d.scale() }),
        None => None,
    }
}

/// Relies on `rust_decimal::Decimal::checked_mul` (with
/// `from_i128_with_scale`, `mantissa` and `scale` converting at the
/// boundary): checked decimal multiplication, `None` on overflow; any
/// result keeps the 96-bit mantissa range and a scale of at most 28.
#[verifier::external_body]
pub(crate) fn dec_mul(a: Dec, b: Dec) -> (r: Option<Dec>)
    requires
        a.wf(),
        b.wf(),
    ensures
        r == dec_mul_res(a, b),
        r is Some ==> r.unwrap().wf(),
{
    let x = rust_decimal::Decimal::from_i128_with_scale(a.mant, a.scale);
    let y = rust_decimal::Decimal::from_i128_with_scale(b.mant, b.scale);
    match x.checked_mul(y) {
        Some(d) => Some(Dec { mant: d.mantissa(), scale: d.scale() }),
        None => None,
    }
}

/// Relies on `rust_decimal::Decimal::checked_div` (with
/// `from_i128_with_scale`, `mantissa` and `scale` converting at the
/// boundary): checked decimal division, `None` on a zero divisor or on
/// overflow; any result keeps the 96-bit mantissa range and a scale of at
/// most 28.
#[verifier::external_body]
pub(crate) fn dec_div(a: Dec, b: Dec) -> (r: Option<Dec>)
    requires
        a.wf(),
        b.wf(),
    ensures
        r == dec_div_res(a, b),
        r is Some ==> r.unwrap().wf(),
{
    let x = rust_decimal::Decimal::from_i128_with_scale(a.mant, a.scale);
    let y = rust_decimal::Decimal::from_i128_with_scale(b.mant, b.scale);
    match x.checked_div(y) {
        Some(d) => Some(Dec { mant: d.mantissa(), scale: d.scale() }),
        None => None,
    }
}

/// Relies on `rust_decimal::Decimal`'s `Ord`, which orders by numeric
/// value (it rescales both sides to a common scale and compares the
/// mantissas), with `from_i128_with_scale` converting at the boundary.
#[verifier::external_body]
pub(crate) fn dec_lt(a: Dec, b: Dec) -> (r: bool)
    requires
        a.wf(),
        b.wf(),
    ensures
        r == lt_val(a, b),
{
    let x = rust_decimal::Decimal::from_i128_with_scale(a.mant, a.scale);
    let y = rust_decimal::Decimal::from_i128_with_scale(b.mant, b.scale);
    x < y
}

/// Relies on `rust_decimal::Decimal`'s `FromStr` (with `mantissa` and
/// `scale` converting the result): parses decimal text, `Err` where the
/// text is not accepted; any parsed value keeps the 96-bit mantissa range
/// and a scale of at most 28.
#[verifier::external_body]
pub(crate) fn dec_parse(s: &str) -> (r: Option<Dec>)
    ensures
        r == dec_parse_res(s@),
        r is Some ==> r.unwrap().wf(),
{
    match <rust_decimal::Decimal as core::str::FromStr>::from_str(s) {
        Ok(d) => Some(Dec { mant: d.mantissa(), scale: d.scale() }),
        Err(_) => None,
    }
}

/// Relies on `rust_decimal::Decimal`'s `Display` (through `to_string`,
/// with `from_i128_with_scale` converting at the boundary): renders the
/// value as decimal text.
#[verifier::external_body]
pub(crate) fn dec_render(d: Dec) -> (r: String)
    requires
        d.wf(),
    ensures
        r@ == dec_render_res(d),
{
    rust_decimal::Decimal::from_i128_with_scale(d.mant, d.scale).to_string()
}

impl Dec {
    /// The decimal zero.
    pub fn zero() -> (r: Dec)
        ensures
            r == spec_zero(),
            r.wf(),
    {
        Dec { mant: 0, scale: 0 }
    }

    /// The decimal one.
    pub fn one() -> (r: Dec)
        ensures
            r == spec_one(),
            r.wf(),
    {
        Dec { mant: 1, scale: 0 }
    }

    /// The integer `n` as a decimal.
    pub fn from_usize(n: usize) -> (r: Dec)
        ensures
            r.mant == n,
            r.scale == 0,
            r.wf(),
    {
        Dec { mant: n as i128, scale: 0 }
    }

    /// The absolute value.
    pub fn abs(self) -> (r: Dec)
        requires
            self.wf(),
        ensures
            r == spec_abs(self),
            r.wf(),
    {
        if self.mant < 0 {
            Dec { mant: -self.mant, scale: self.scale }
        } else {
            self
        }
    }

    /// The value rendered as decimal text.
    pub fn render(self) -> (r: String)
        requires
            self.wf(),
        ensures
            r@ == dec_render_res(self),
    {
        dec_render(self)
    }
}

/// `x^j` as the chain of checked multiplications `((1 * x) * x) * ...`,
/// `None` as soon as one of them overflows.
pub open spec fn spec_pow(x: Dec, j: nat) -> Option<Dec>
    decreases j,
{
    if j == 0 {
        Some(spec_one())
    } else {
        match spec_pow(x, (j - 1) as nat) {
            Some(p) => dec_mul_res(p, x),
            None => None,
        }
    }
}

/// Once a power overflows, every higher power overflows too.
proof fn lemma_pow_none_up(x: Dec, j: nat, k: nat)
    requires
        spec_pow(x, j) is None,
        j <= k,
    ensures
        spec_pow(x, k) is None,
    decreases k,
{
    if k > j {
        lemma_pow_none_up(x, j, (k - 1) as nat);
    }
}

/// `x^j` by repeated checked multiplication; `None` on overflow.
pub fn dec_pow(x: Dec, j: usize) -> (r: Option<Dec>)
    requires
        x.wf(),
    ensures
        r == spec_pow(x, j as nat),
        r is Some ==> r.unwrap().wf(),
{
    let mut acc = Dec::one();
    let mut k: usize = 0;
    while k < j
        invariant
            k <= j,
            x.wf(),
            acc.wf(),
            Some(acc) == spec_pow(x, k as nat),
        decreases j - k,
    {
        match dec_mul(acc, x) {
            Some(p) => {
                acc = p;
                k = k + 1;
            },
            None => {
                proof {
                    lemma_pow_none_up(x, (k + 1) as nat, j as nat);
                }
                return None;
            },
        }
    }
    Some(acc)
}

} // verus!
