//! Dense integer matrices with naive, Strassen and fan-out multiplication.
//!
//! Cells are `i64` and every arithmetic step wraps modulo 2^64, so the cells
//! form a ring and all strategies agree exactly on every input; where the true
//! product fits in `i64` it is the result.

pub mod laws;
pub mod matrix;
pub mod multiply;
pub mod product;
pub mod quadrant;
pub mod ring;
pub mod strassen;

pub use matrix::{Matrix, MatrixError};
