//! Where a ray meets a sphere.
//!
//! For a ray with origin `o` and unit direction `d`, and a sphere with centre
//! `c` and radius `r`, let `l = o - c`, `b = d . l` and `delta = b^2 - (|l|^2 - r^2)`.
//! The ray's line meets the sphere at the parameters `-b - sqrt(delta)` and
//! `-b + sqrt(delta)`, where they exist. The arithmetic is the caller's, done in
//! floating point; what is decided here is which of the two candidates count.

use crate::util::float_ord::{is_nan, key_of, total_key, total_le, NAN_KEY};
use crate::util::float_value::{law_order_is_numeric, scaled_value};
use arrayvec::ArrayVec;
use vstd::prelude::*;

verus! {

#[verifier::external_type_specification]
#[verifier::external_body]
#[verifier::reject_recursive_types(T)]
pub struct ExArrayVec<T, const CAP: usize>(ArrayVec<T, CAP>);

/// What an `ArrayVec` of at most two patterns holds, first to last.
pub uninterp spec fn arrayvec_items(v: ArrayVec<u32, 2>) -> Seq<u32>;

/// `ArrayVec::new`: a vector that holds nothing.
#[verifier::external_body]
fn arrayvec_new() -> (v: ArrayVec<u32, 2>)
    ensures
        arrayvec_items(v) == Seq::<u32>::empty(),
{
    ArrayVec::new()
}

/// `ArrayVec::push`: appends one element. It panics on a full vector, which
/// the precondition rules out.
#[verifier::external_body]
fn arrayvec_push(v: &mut ArrayVec<u32, 2>, element: u32)
    requires
        arrayvec_items(*old(v)).len() < 2,
    ensures
        arrayvec_items(*final(v)) == arrayvec_items(*old(v)).push(element),
{
    v.push(element)
}

/// How a line lies to a sphere.
#[derive(Debug, Clone, Copy, PartialEq, Eq, Structural)]
pub enum Contact {
    /// The line passes the sphere by.
    Miss,
    /// The line touches the sphere in one point.
    Tangent,
    /// The line enters the sphere in one point and leaves it in another.
    Secant,
}

/// The contact that a discriminant tells of: none where it is negative or no
/// number at all, a tangent where it is zero of either sign, a secant where it
/// is positive.
pub open spec fn contact_of(delta: u32) -> Contact {
    if is_nan(delta) || key_of(delta) < 0 {
        Contact::Miss
    } else if key_of(delta) == 0 {
        Contact::Tangent
    } else {
        Contact::Secant
    }
}

/// The parameters that count, in the order in which they are emitted.
pub open spec fn roots_of(delta: u32, near: u32, far: u32) -> Seq<u32> {
    match contact_of(delta) {
        Contact::Miss => seq![],
        Contact::Tangent => seq![near],
        Contact::Secant => seq![near, far],
    }
}

/// Reads the contact off the discriminant.
pub fn contact(delta: u32) -> (c: Contact)
    ensures
        c == contact_of(delta),
{
    let k: i32 = total_key(delta);
    if k == NAN_KEY || k < 0 {
        Contact::Miss
    } else if k == 0 {
        Contact::Tangent
    } else {
        Contact::Secant
    }
}

/// Picks the intersection parameters from the two candidates
/// `near = -b - sqrt(delta)` and `far = -b + sqrt(delta)`.
///
/// A candidate is looked at only where the discriminant admits it, so the NaN
/// that the square root of a negative discriminant leaves in them never gets
/// out. A tangent yields the near candidate once, not twice. Nothing is
/// dropped for lying behind the ray's origin.
pub fn roots(delta: u32, near: u32, far: u32) -> (ts: ArrayVec<u32, 2>)
    ensures
        arrayvec_items(ts) == roots_of(delta, near, far),
{
    let mut solution = arrayvec_new();
    match contact(delta) {
        Contact::Miss => {},
        Contact::Tangent => {
            arrayvec_push(&mut solution, near);
        },
        Contact::Secant => {
            arrayvec_push(&mut solution, near);
            arrayvec_push(&mut solution, far);
        },
    }
    solution
}

/// The contact goes by the sign of the number that the discriminant denotes:
/// a miss where it is negative, a tangent where it is zero, a secant where it
/// is positive.
pub proof fn law_contact_is_sign(delta: u32)
    requires
        !is_nan(delta),
    ensures
        contact_of(delta) == Contact::Miss <==> scaled_value(delta) < 0,
        contact_of(delta) == Contact::Tangent <==> scaled_value(delta) == 0,
        contact_of(delta) == Contact::Secant <==> scaled_value(delta) > 0,
{
    law_order_is_numeric(delta, 0);
    law_order_is_numeric(0, delta);
}

/// Of the parameters that count: they are at most two, each is one of the two
/// candidates, and where the near candidate comes no later than the far one
/// they ascend. On a miss there is none, whatever the candidates hold; a
/// tangent yields one parameter, not the same one twice.
pub proof fn law_roots(delta: u32, near: u32, far: u32)
    ensures
        roots_of(delta, near, far).len() <= 2,
        contact_of(delta) == Contact::Miss <==> roots_of(delta, near, far).len() == 0,
        contact_of(delta) == Contact::Tangent <==> roots_of(delta, near, far).len() == 1,
        forall|i: int|
            0 <= i < roots_of(delta, near, far).len() ==> {
                ||| #[trigger] roots_of(delta, near, far)[i] == near
                ||| roots_of(delta, near, far)[i] == far
            },
        total_le(near, far) ==> forall|i: int, j: int|
            0 <= i <= j < roots_of(delta, near, far).len() ==> total_le(
                roots_of(delta, near, far)[i],
                roots_of(delta, near, far)[j],
            ),
{
}

} // verus!
