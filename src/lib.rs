//! Brute-force template search: every placement of a small template inside a
//! larger RGB image is scored by a masked root-mean-square error, and the
//! scores form a grayscale confidence map.

pub mod arith;
pub mod image;
pub mod metric;
pub mod partition;
pub mod worker;
pub mod merge;
pub mod engine;
pub mod equivalence;

