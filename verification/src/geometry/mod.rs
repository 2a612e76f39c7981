//! Objects, their identities and the hits a ray scores on them.

use crate::geometry::id::id_order;
use crate::geometry::ray::Ray;
use std::cmp::Ordering;
use std::hash::{Hash, Hasher};
use vstd::prelude::*;
use vstd::std_specs::cmp::{PartialEqSpec, PartialEqSpecImpl, PartialOrdSpec, PartialOrdSpecImpl};

pub mod entries;
pub mod hits;
pub mod id;
pub mod object;
pub mod ray;
pub mod sphere;

pub use hits::{HitContext, Hits};
pub use id::{Id, IdAllocator};
pub use object::Object;

verus! {

/// A shape: what can tell where a ray meets it. The arithmetic of a shape is
/// its own; an object takes the parameters as they come.
pub trait Shape: Sized {
    /// The parameters `t` for which `ray.orig + t * ray.dir` lies on the
    /// shape's surface. None is left out for being negative, that is for lying
    /// behind the ray's origin. The shape takes no note of the call.
    fn intersect(&self, ray: Ray) -> Vec<u32>;

    /// Makes the shape an object of the scene, under a fresh identity.
    fn into_object(self, ids: &mut IdAllocator) -> (obj: Object<Self>)
        requires
            old(ids)@ < u64::MAX,
        ensures
            id::issued(*old(ids), obj.ident(), *final(ids)),
            obj.shape() == self,
    {
        Object::new(self, ids)
    }
}

/// What a ray can hit: it has an identity, and it can tell a ray its hits.
/// Nothing more is known of it, so that objects of any shape can stand side by
/// side. Two of them are compared, ordered and hashed by their identities
/// alone.
pub trait Hittable {
    /// The identity, as contracts speak of it.
    spec fn identity(&self) -> Id;

    /// The identity.
    fn id(&self) -> (id: Id)
        ensures
            id == self.identity(),
    ;

    /// The hits that the ray scores, in ascending order. Each of them points
    /// back to the thing that was asked.
    fn intersect(&self, ray: Ray) -> (hits: Hits)
        ensures
            forall|i: int|
                0 <= i < hits@.len() ==> (#[trigger] hits@[i]).1.obj_hit == self.identity(),
    ;
}

impl<'a> PartialEq for dyn Hittable + 'a {
    fn eq(&self, other: &Self) -> (same: bool) {
        self.id() == other.id()
    }
}

impl<'a> PartialEqSpecImpl for dyn Hittable + 'a {
    open spec fn obeys_eq_spec() -> bool {
        true
    }

    /// Two things that a ray can hit, of whatever kinds, are equal when they
    /// have the same identity.
    open spec fn eq_spec(&self, other: &Self) -> bool {
        self.identity() == other.identity()
    }
}

impl<'a> Eq for dyn Hittable + 'a {

}

impl<'a> PartialOrd for dyn Hittable + 'a {
    fn partial_cmp(&self, other: &Self) -> (order: Option<Ordering>) {
        Some(self.id().order(&other.id()))
    }
}

impl<'a> PartialOrdSpecImpl for dyn Hittable + 'a {
    open spec fn obeys_partial_cmp_spec() -> bool {
        true
    }

    /// Things that a ray can hit are ordered as their identities are.
    open spec fn partial_cmp_spec(&self, other: &Self) -> Option<Ordering> {
        Some(id_order(self.identity(), other.identity()))
    }
}

impl<'a> dyn Hittable + 'a {
    /// Compares two things that a ray can hit by their identities.
    pub fn cmp(&self, other: &Self) -> (order: Ordering)
        ensures
            order == id_order(self.identity(), other.identity()),
    {
        self.id().order(&other.id())
    }
}

impl<'a> Hash for dyn Hittable + 'a {
    /// Feeds the hasher the identity.
    fn hash<H: Hasher>(&self, state: &mut H) {
        self.id().hash(state);
    }
}

/// Seen as no more than something that a ray can hit, a thing is still equal
/// to itself, and two things are equal exactly when they have the same
/// identity; they are ordered as their identities are. The law speaks of
/// references, as `==` and `<` between two `&dyn Hittable` do.
pub proof fn law_hittable_eq_by_identity(a: &dyn Hittable, b: &dyn Hittable)
    ensures
        PartialEqSpec::eq_spec(&a, &a),
        PartialEqSpec::eq_spec(&a, &b) <==> a.identity() == b.identity(),
        PartialOrdSpec::partial_cmp_spec(&a, &b) == Some(id_order(a.identity(), b.identity())),
{
}

} // verus!
