//! Alignment of two sequences of integer samples at minimum cumulative cost,
//! with a threshold-based local cost and clamped cumulative scores.

pub mod cursor;
pub mod step_mask;
pub mod matrix;
pub mod cost_model;
pub mod alignment_set;
pub mod strategy;
pub mod laws;
