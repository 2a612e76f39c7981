//! Ordering of scalars and the ranges built on it.

pub mod float_ord;
pub mod float_value;
