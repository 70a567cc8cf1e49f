//! Transpose of a 32x32 matrix over GF(2), stored as 32 bit-packed rows.
//!
//! Row `i` of a matrix is word `i`; bit `j` (least significant first) of that
//! word is the entry in column `j`.
pub mod lanes;
pub mod model;
pub mod transpose;

pub use crate::transpose::transpose;
