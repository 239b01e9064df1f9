//! Helpers of encoding and decoding.

pub mod int_overflow;
