//! Rays.

use crate::util::float_ord::{float_eq, ieee_eq};
use vstd::prelude::*;
use vstd::std_specs::cmp::PartialEqSpecImpl;

verus! {

/// A ray: the point it starts from and the direction it runs in, each by its
/// three coordinates. The direction is a unit vector; whoever builds the ray
/// sees to that.
#[derive(Debug, Clone, Copy)]
pub struct Ray {
    pub orig: [u32; 3],
    pub dir: [u32; 3],
}

/// Whether two triples hold the same three numbers.
pub open spec fn same_coordinates(a: [u32; 3], b: [u32; 3]) -> bool {
    &&& ieee_eq(a[0], b[0])
    &&& ieee_eq(a[1], b[1])
    &&& ieee_eq(a[2], b[2])
}

fn coordinates_eq(a: &[u32; 3], b: &[u32; 3]) -> (same: bool)
    ensures
        same == same_coordinates(*a, *b),
{
    float_eq(a[0], b[0]) && float_eq(a[1], b[1]) && float_eq(a[2], b[2])
}

impl PartialEq for Ray {
    fn eq(&self, other: &Self) -> (same: bool) {
        coordinates_eq(&self.orig, &other.orig) && coordinates_eq(&self.dir, &other.dir)
    }
}

impl PartialEqSpecImpl for Ray {
    open spec fn obeys_eq_spec() -> bool {
        true
    }

    /// Two rays are equal when their origins and their directions are the
    /// same numbers, coordinate by coordinate.
    open spec fn eq_spec(&self, other: &Self) -> bool {
        same_coordinates(self.orig, other.orig) && same_coordinates(self.dir, other.dir)
    }
}

} // verus!
