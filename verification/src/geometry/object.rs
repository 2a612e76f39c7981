//! Objects: shapes under an identity.

use crate::geometry::entries::{
    ascending, is_hit_set, keyed, law_ascending_ascends, law_ascending_permutes, lemma_keyed_valid,
};
use crate::geometry::hits::{HitContext, Hits};
use crate::geometry::id::{
    id_order, issued, issued_in_turn, law_id_extensional, law_ids_increase, Id, IdAllocator,
};
use crate::geometry::ray::Ray;
use crate::geometry::{Hittable, Shape};
use std::cmp::Ordering;
use std::hash::{Hash, Hasher};
use vstd::prelude::*;
use vstd::seq_lib::to_multiset_contains;
use vstd::std_specs::cmp::{PartialEqSpec, PartialEqSpecImpl, PartialOrdSpec, PartialOrdSpecImpl};

verus! {

/// An object of the scene: a shape under an identity of its own. Objects are
/// compared, ordered and hashed by that identity alone; their shapes do not
/// enter into it.
#[derive(Debug)]
pub struct Object<S> {
    id: Id,
    shape: S,
}

/// The hits of one object: each parameter with a word on that object.
pub open spec fn paired(ts: Seq<u32>, ctx: HitContext) -> Seq<(u32, HitContext)> {
    ts.map_values(|t: u32| (t, ctx))
}

impl<S> Object<S> {
    /// The object's identity.
    pub closed spec fn ident(&self) -> Id {
        self.id
    }

    /// The object's shape.
    pub closed spec fn shape(&self) -> S {
        self.shape
    }

    /// The entries of this object's hit set, where the ray meets its shape at
    /// the parameters `ts`: one entry for each parameter, each with a word on
    /// this object, in ascending order.
    pub open spec fn entries_at(&self, ts: Seq<u32>) -> Seq<(i32, HitContext)> {
        ascending(keyed(paired(ts, HitContext { obj_hit: self.ident() })))
    }

    /// Puts a shape under an identity that is fresh from `ids`.
    ///
    /// The counter must not have run out.
    pub fn new(shape: S, ids: &mut IdAllocator) -> (obj: Self)
        requires
            old(ids)@ < u64::MAX,
        ensures
            issued(*old(ids), obj.ident(), *final(ids)),
            obj.shape() == shape,
    {
        let id = Id::new(ids);
        Self { id, shape }
    }

    /// Compares two objects by their identities.
    pub fn cmp(&self, other: &Self) -> (order: Ordering)
        ensures
            order == id_order(self.ident(), other.ident()),
    {
        self.id.order(&other.id)
    }

    /// This object's hit set, where the ray meets its shape at the parameters
    /// `ts`.
    pub fn hits_at(&self, ts: Vec<u32>) -> (hits: Hits)
        ensures
            hits@ == self.entries_at(ts@),
            hits@.len() == ts@.len(),
            forall|i: int| 0 <= i < hits@.len() ==> (#[trigger] hits@[i]).1.obj_hit == self.ident(),
    {
        proof {
            law_entries_at(*self, ts@);
        }
        let ctx = HitContext { obj_hit: self.id };
        let mut pairs: Vec<(u32, HitContext)> = Vec::new();
        let mut i: usize = 0;
        while i < ts.len()
            invariant
                i <= ts.len(),
                pairs@ == paired(ts@.take(i as int), ctx),
            decreases ts.len() - i,
        {
            pairs.push((ts[i], ctx));
            assert(pairs@ == paired(ts@.take(i + 1), ctx));
            i += 1;
        }
        assert(ts@.take(i as int) == ts@);
        Hits::from_iter(pairs)
    }
}

impl<S: Clone> Clone for Object<S> {
    /// The copy is the same object: it has the identity of the one it was
    /// made from.
    fn clone(&self) -> (copy: Self)
        ensures
            copy.ident() == self.ident(),
    {
        Self { id: self.id, shape: self.shape.clone() }
    }
}

impl<S> PartialEq for Object<S> {
    fn eq(&self, other: &Self) -> (same: bool) {
        self.id == other.id
    }
}

impl<S> PartialEqSpecImpl for Object<S> {
    open spec fn obeys_eq_spec() -> bool {
        true
    }

    /// Two objects are equal when they have the same identity.
    open spec fn eq_spec(&self, other: &Self) -> bool {
        self.ident() == other.ident()
    }
}

impl<S> Eq for Object<S> {

}

impl<S> PartialOrd for Object<S> {
    fn partial_cmp(&self, other: &Self) -> (order: Option<Ordering>) {
        Some(self.id.order(&other.id))
    }
}

impl<S> PartialOrdSpecImpl for Object<S> {
    open spec fn obeys_partial_cmp_spec() -> bool {
        true
    }

    /// Objects are ordered as their identities are.
    open spec fn partial_cmp_spec(&self, other: &Self) -> Option<Ordering> {
        Some(id_order(self.ident(), other.ident()))
    }
}

impl<S> Hash for Object<S> {
    /// Feeds the hasher the identity and nothing of the shape.
    fn hash<H: Hasher>(&self, state: &mut H) {
        self.id.hash(state);
    }
}

impl<S: Shape> Hittable for Object<S> {
    open spec fn identity(&self) -> Id {
        self.ident()
    }

    fn id(&self) -> (id: Id) {
        self.id
    }

    /// Asks the shape where the ray meets it and files what it answers: the
    /// hit set is that of [`Object::hits_at`] for an answer of the shape.
    fn intersect(&self, ray: Ray) -> (hits: Hits)
        ensures
            exists|ts: Vec<u32>|
                call_ensures(S::intersect, (&self.shape(), ray), ts) && hits@ == self.entries_at(
                    ts@,
                ),
            forall|i: int| 0 <= i < hits@.len() ==> (#[trigger] hits@[i]).1.obj_hit == self.ident(),
    {
        let ts = self.shape.intersect(ray);
        let ghost answer = ts;
        let hits = self.hits_at(ts);
        assert(call_ensures(S::intersect, (&self.shape(), ray), answer) && hits@
            == self.entries_at(answer@));
        hits
    }
}

/// Whatever the parameters, the entries of an object's hit set are as many as
/// the parameters, they are in order, and each of them points back to the
/// object.
pub proof fn law_entries_at<S>(obj: Object<S>, ts: Seq<u32>)
    ensures
        obj.entries_at(ts).len() == ts.len(),
        is_hit_set(obj.entries_at(ts)),
        forall|i: int|
            0 <= i < obj.entries_at(ts).len() ==> (#[trigger] obj.entries_at(ts)[i]).1.obj_hit
                == obj.ident(),
{
    let ctx = HitContext { obj_hit: obj.ident() };
    let pairs = keyed(paired(ts, ctx));
    let entries = obj.entries_at(ts);
    lemma_keyed_valid(paired(ts, ctx));
    law_ascending_ascends(pairs);
    law_ascending_permutes(pairs);
    assert forall|i: int| 0 <= i < entries.len() implies (#[trigger] entries[i]).1.obj_hit
        == obj.ident() by {
        to_multiset_contains(entries, entries[i]);
        to_multiset_contains(pairs, entries[i]);
        assert(entries.contains(entries[i]));
        let at = choose|at: int| 0 <= at < pairs.len() && pairs[at] == entries[i];
        assert(pairs[at].1 == ctx);
    }
}

/// An object is equal to itself.
pub proof fn law_object_equals_itself<S>(a: Object<S>)
    ensures
        PartialEqSpec::eq_spec(&a, &a),
        PartialOrdSpec::partial_cmp_spec(&a, &a) == Some(Ordering::Equal),
{
}

/// Equality of objects takes no note of their shapes: it follows the
/// identities alone, and so does their order.
pub proof fn law_object_eq_by_identity<S>(a: Object<S>, b: Object<S>)
    ensures
        PartialEqSpec::eq_spec(&a, &b) <==> a.ident() == b.ident(),
        PartialEqSpec::eq_spec(&a, &b) <==> PartialOrdSpec::partial_cmp_spec(&a, &b) == Some(
            Ordering::Equal,
        ),
{
    law_id_extensional(a.ident(), b.ident());
}

/// Two objects that one allocator gave their identities, one after the other,
/// are never equal, whatever their shapes, equal or not; and the earlier one
/// is the lesser.
pub proof fn law_objects_distinct<S>(
    states: Seq<IdAllocator>,
    ids: Seq<Id>,
    i: int,
    j: int,
    a: Object<S>,
    b: Object<S>,
)
    requires
        issued_in_turn(states, ids),
        0 <= i < j < ids.len(),
        a.ident() == ids[i],
        b.ident() == ids[j],
    ensures
        !PartialEqSpec::eq_spec(&a, &b),
        !PartialEqSpec::eq_spec(&b, &a),
        PartialOrdSpec::partial_cmp_spec(&a, &b) == Some(Ordering::Less),
{
    law_ids_increase(states, ids, i, j);
}

/// Two objects that one allocator gave their identities, one after the other,
/// differ in identity also where their shapes are of two kinds; so they are
/// not equal either when seen as no more than something that a ray can hit.
pub proof fn law_hittables_distinct<S: Shape, T: Shape>(
    states: Seq<IdAllocator>,
    ids: Seq<Id>,
    i: int,
    j: int,
    a: Object<S>,
    b: Object<T>,
)
    requires
        issued_in_turn(states, ids),
        0 <= i < j < ids.len(),
        a.ident() == ids[i],
        b.ident() == ids[j],
    ensures
        a.identity() != b.identity(),
        id_order(a.identity(), b.identity()) == Ordering::Less,
{
    law_ids_increase(states, ids, i, j);
}

} // verus!
