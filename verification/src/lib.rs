//! Parsing and aggregation of periodic memory/swap measurements.
//!
//! One raw text line holds a fixed-format timestamp followed by seven
//! decimal counters; the parser turns such a line into a [`sample::Sample`]
//! or reports exactly which column failed and why.  A [`summary::Summary`]
//! folds a stream of samples into running statistics (averages, peaks and
//! the first sample's total RAM) without retaining history.

pub mod digits;
pub mod error;
pub mod sample;
pub mod summary;
pub mod timestamp;
