//! Numerical curve-analysis toolkit: a global least-squares polynomial fit
//! over exact-precision decimal arithmetic, and the validation and
//! window-placement policy of a local polynomial (Savitzky-Golay style)
//! filter.

pub mod dec;
pub mod solve;
pub mod fit;
pub mod filter;
