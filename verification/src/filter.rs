//! Validation and per-sample policy of the local polynomial
//! (Savitzky-Golay style) filter.
//!
//! The filter itself runs over double-precision samples outside the
//! verified core; everything it decides — whether a configuration is
//! acceptable, whether the whole call degrades to the plain two-point
//! difference, and which treatment each sample index gets — is computed
//! and verified here.

use vstd::prelude::*;

verus! {

/// What the filter produces: smoothed values or first-derivative
/// estimates.
#[derive(Clone, Copy, PartialEq, Eq, Structural, Debug)]
pub enum FilterMode {
    Smooth,
    Derivative,
}

/// Why a filter configuration was rejected.
#[derive(Clone, Copy, PartialEq, Eq, Structural, Debug)]
pub enum ConfigError {
    /// The window must span at least three samples.
    WindowTooSmall,
    /// The window must be odd, so that it has a middle sample.
    WindowEven,
    /// The polynomial order must be at least one.
    OrderTooSmall,
    /// The polynomial order must be at most five.
    OrderTooLarge,
    /// The polynomial order must be below the window size.
    OrderNotBelowWindow,
    /// The flat coordinate sequence must hold whole (x, y) pairs.
    UnpairedCoordinates,
}

/// The treatment of one sample index.
#[derive(Clone, Copy, PartialEq, Eq, Structural, Debug)]
pub enum SamplePlan {
    /// No full window: the original sample passes through unchanged.
    PassThrough,
    /// First sample: difference against the next sample.
    ForwardDifference,
    /// Last sample: difference against the previous sample.
    BackwardDifference,
    /// Near an edge: difference between the two neighbours.
    CentralDifference,
    /// A full symmetric window `lo..=hi` centered on the sample: fit a
    /// local polynomial over it.
    Regress { lo: usize, hi: usize },
}

/// The treatment of a whole call.
#[derive(Clone, Debug, PartialEq)]
pub enum FilterPlan {
    /// Too few samples for any window: the whole call degrades to the
    /// plain two-point difference derivative.
    PlainDifference,
    /// One plan per sample index.
    PerSample(Vec<SamplePlan>),
}

/// The validation verdict on a window size and polynomial order:
/// the window must be odd and at least three, the order at least one,
/// at most five, and below the window size.
pub open spec fn spec_validate(w: int, p: int) -> Result<(), ConfigError> {
    if w < 3 {
        Err(ConfigError::WindowTooSmall)
    } else if w % 2 == 0 {
        Err(ConfigError::WindowEven)
    } else if p < 1 {
        Err(ConfigError::OrderTooSmall)
    } else if p > 5 {
        Err(ConfigError::OrderTooLarge)
    } else if p >= w {
        Err(ConfigError::OrderNotBelowWindow)
    } else {
        Ok(())
    }
}

/// The validation verdict on a whole call: the configuration first,
/// then whole (x, y) pairs.
pub open spec fn spec_filter_check(flat_len: int, w: int, p: int) -> Result<(), ConfigError> {
    match spec_validate(w, p) {
        Err(e) => Err(e),
        Ok(_) => if flat_len % 2 != 0 {
            Err(ConfigError::UnpairedCoordinates)
        } else {
            Ok(())
        },
    }
}

/// The treatment of sample `i` of `n`, for a window of `w` samples:
/// indexes without a full symmetric window are edge samples (the
/// original value passes through when smoothing; a one-sided or central
/// difference when differentiating), all others get a regression over
/// the window centered on them.
pub open spec fn spec_sample_plan(n: int, w: int, mode: FilterMode, i: int) -> SamplePlan {
    let half = w / 2;
    if i < half || i >= n - half {
        match mode {
            FilterMode::Smooth => SamplePlan::PassThrough,
            FilterMode::Derivative => if i == 0 {
                SamplePlan::ForwardDifference
            } else if i == n - 1 {
                SamplePlan::BackwardDifference
            } else {
                SamplePlan::CentralDifference
            },
        }
    } else {
        SamplePlan::Regress { lo: (i - half) as usize, hi: (i + half) as usize }
    }
}

/// In smoothing mode, every sample without a full symmetric window keeps
/// its original value: its plan is pass-through, whatever the window
/// size and polynomial order.
pub proof fn lemma_smooth_edges_pass_through(n: int, w: int, i: int)
    requires
        0 <= i < n,
        i < w / 2 || i >= n - w / 2,
    ensures
        spec_sample_plan(n, w, FilterMode::Smooth, i) == SamplePlan::PassThrough,
{
}

/// Check a window size and polynomial order, with the exact verdict of
/// [`spec_validate`].
pub fn validate_filter_config(window_size: usize, poly_order: usize) -> (r: Result<(), ConfigError>)
    ensures
        r == spec_validate(window_size as int, poly_order as int),
        r is Ok <==> (window_size >= 3 && window_size % 2 == 1 && 1 <= poly_order && poly_order <= 5
            && poly_order < window_size),
{
    if window_size < 3 {
        Err(ConfigError::WindowTooSmall)
    } else if window_size % 2 == 0 {
        Err(ConfigError::WindowEven)
    } else if poly_order < 1 {
        Err(ConfigError::OrderTooSmall)
    } else if poly_order > 5 {
        Err(ConfigError::OrderTooLarge)
    } else if poly_order >= window_size {
        Err(ConfigError::OrderNotBelowWindow)
    } else {
        Ok(())
    }
}

/// The treatment of sample `i`, exactly as [`spec_sample_plan`] says;
/// a regression window never leaves the sample range.
pub fn sample_plan(n: usize, window_size: usize, mode: FilterMode, i: usize) -> (r: SamplePlan)
    requires
        i < n,
    ensures
        r == spec_sample_plan(n as int, window_size as int, mode, i as int),
        match r {
            SamplePlan::Regress { lo, hi } => lo == i - window_size / 2 && hi == i + window_size / 2
                && lo <= i && i <= hi && hi < n,
            _ => true,
        },
{
    let half = window_size / 2;
    if i < half || n - i <= half {
        match mode {
            FilterMode::Smooth => SamplePlan::PassThrough,
            FilterMode::Derivative => {
                if i == 0 {
                    SamplePlan::ForwardDifference
                } else if i == n - 1 {
                    SamplePlan::BackwardDifference
                } else {
                    SamplePlan::CentralDifference
                }
            },
        }
    } else {
        SamplePlan::Regress { lo: i - half, hi: i + half }
    }
}

/// Plan a whole filter call over `flat_len / 2` interleaved (x, y)
/// samples.
///
/// The configuration is validated before anything else, with the exact
/// verdict of [`spec_filter_check`]. A derivative call over fewer
/// samples than the window degrades whole to the plain two-point
/// difference; otherwise every sample index gets its
/// [`spec_sample_plan`] treatment.
pub fn filter_plan(flat_len: usize, window_size: usize, poly_order: usize, mode: FilterMode) -> (r:
    Result<FilterPlan, ConfigError>)
    ensures
        match r {
            Err(e) => spec_filter_check(flat_len as int, window_size as int, poly_order as int)
                == Err::<(), ConfigError>(e),
            Ok(plan) => spec_filter_check(flat_len as int, window_size as int, poly_order as int)
                is Ok && match plan {
                FilterPlan::PlainDifference => mode == FilterMode::Derivative && flat_len / 2
                    < window_size,
                FilterPlan::PerSample(v) => (mode == FilterMode::Smooth || flat_len / 2
                    >= window_size) && v@.len() == flat_len / 2 && forall|u: int|
                    0 <= u < v@.len() ==> v@[u] == spec_sample_plan(
                        (flat_len / 2) as int,
                        window_size as int,
                        mode,
                        u,
                    ),
            },
        },
{
    match validate_filter_config(window_size, poly_order) {
        Err(e) => {
            return Err(e);
        },
        Ok(_) => {},
    }
    if flat_len % 2 != 0 {
        return Err(ConfigError::UnpairedCoordinates);
    }
    let n = flat_len / 2;
    if n < window_size {
        match mode {
            FilterMode::Derivative => {
                return Ok(FilterPlan::PlainDifference);
            },
            FilterMode::Smooth => {},
        }
    }
    let mut v: Vec<SamplePlan> = Vec::new();
    let mut i: usize = 0;
    while i < n
        invariant
            i <= n,
            v@.len() == i,
            forall|u: int| 0 <= u < i ==> (#[trigger] v@[u]) == spec_sample_plan(
                n as int,
                window_size as int,
                mode,
                u,
            ),
        decreases n - i,
    {
        let p = sample_plan(n, window_size, mode, i);
        v.push(p);
        i = i + 1;
    }
    Ok(FilterPlan::PerSample(v))
}

/// The difference treatment of sample `i` of `n` for the plain
/// derivative: forward at the first sample, backward at the last,
/// central in between.
pub fn difference_plan(n: usize, i: usize) -> (r: SamplePlan)
    requires
        2 <= n,
        i < n,
    ensures
        i == 0 ==> r == SamplePlan::ForwardDifference,
        i == n - 1 ==> r == SamplePlan::BackwardDifference,
        0 < i < n - 1 ==> r == SamplePlan::CentralDifference,
{
    if i == 0 {
        SamplePlan::ForwardDifference
    } else if i == n - 1 {
        SamplePlan::BackwardDifference
    } else {
        SamplePlan::CentralDifference
    }
}

/// The number of (x, y) pairs in a flat interleaved sequence, `None`
/// where the sequence holds a dangling coordinate.
pub fn pair_count(flat_len: usize) -> (r: Option<usize>)
    ensures
        flat_len % 2 == 0 ==> r == Some(flat_len / 2),
        flat_len % 2 != 0 ==> r is None,
{
    if flat_len % 2 == 0 {
        Some(flat_len / 2)
    } else {
        None
    }
}

} // verus!
