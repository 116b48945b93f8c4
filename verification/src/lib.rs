//! A null-aware, vectorized time-series computation engine.
//!
//! The engine represents observations as immutable, fixed-length
//! sequences of optional IEEE 754 single-precision values, carried as raw
//! bit patterns.  Elementwise algebra propagates nulls, and the smoothing
//! family (moving averages, exponentially-weighted recurrences, rolling
//! regression) is built from a small set of combinators over those
//! sequences.

pub mod compare;
pub mod fbits;
pub mod ops;
pub mod smoothing;
pub mod series;
