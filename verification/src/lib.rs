//! Hit testing for a ray tracer: which surfaces a ray meets, in what order, and
//! which of them it meets first.
//!
//! Scalars cross this library as IEEE-754 single-precision bit patterns held in
//! a `u32`. The library does no arithmetic on them: it orders them, files them
//! and hands them back. Whoever computes an intersection does so with the
//! machine's floating point and passes the patterns in.

pub mod geometry;
pub mod util;
