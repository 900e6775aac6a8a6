//! Scalar expressions over the datums of a row, and the failures that
//! evaluating one can end in.
pub mod error;
pub mod int32;
pub mod linear;
pub mod scalar;
