//! Sound analysis.
pub mod silence;
