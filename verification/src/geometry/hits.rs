//! The hits of a ray, in the order in which the ray scores them.
//!
//! A hit is a parameter along the ray together with a word on the object that
//! was hit. A hit set files its hits under the keys of their parameters (see
//! [`crate::util::float_ord`]) in an ordered multimap: ascending by key, and
//! hits of one key in the order in which they came.

use crate::geometry::entries::{
    ascending, between, filed, handed, is_hit_set, key_within, keyed, keys_valid,
    law_ascending_ascends, law_between_picks, law_handed_ascends, law_nearest_forward,
    law_out_of_order_picks_nothing,
    lemma_filter_ascends, lemma_keyed_valid, lemma_nearest_forward_filter, nearest_forward,
};
use crate::geometry::id::Id;
use crate::util::float_ord::{
    bounds_in_order, is_key, key_bits, key_bound, key_of, range_contains, range_in_order,
    total_key, total_le, FloatRange,
};
use btreemultimap::BTreeMultiMap;
use std::ops::Bound;
use vstd::prelude::*;
use vstd::std_specs::cmp::PartialEqSpecImpl;

verus! {

/// What a hit says of its object: the identity by which the owner of the
/// objects finds the one that was hit. It holds no reference to the object,
/// so no hit can outlive what it points to.
#[derive(Debug, Clone, Copy, PartialEq, Eq, PartialOrd, Structural)]
pub struct HitContext {
    pub obj_hit: Id,
}

#[verifier::external_type_specification]
#[verifier::external_body]
#[verifier::reject_recursive_types(K)]
#[verifier::reject_recursive_types(V)]
pub struct ExBTreeMultiMap<K, V>(BTreeMultiMap<K, V>);

/// What a multimap holds, in the order in which it is walked: ascending by
/// key, the values of one key in the order of their insertion.
pub uninterp spec fn multimap_entries(m: BTreeMultiMap<i32, HitContext>) -> Seq<(i32, HitContext)>;

/// `BTreeMultiMap::new`: a map that holds nothing.
#[verifier::external_body]
fn multimap_new() -> (m: BTreeMultiMap<i32, HitContext>)
    ensures
        multimap_entries(m) == Seq::<(i32, HitContext)>::empty(),
{
    BTreeMultiMap::new()
}

/// `BTreeMultiMap::insert`: the value joins the values of its key as their
/// last, and the key joins the keys if it is new. Seen as a walk, the entry
/// comes to stand behind all entries whose key is at most its own; no other
/// entry moves.
#[verifier::external_body]
fn multimap_insert(m: &mut BTreeMultiMap<i32, HitContext>, k: i32, v: HitContext)
    ensures
        multimap_entries(*final(m)) == filed(multimap_entries(*old(m)), k, v),
{
    m.insert(k, v)
}

/// `BTreeMultiMap::range`: the walk over the entries whose key lies between
/// the bounds, in the order of the whole walk. The underlying
/// `BTreeMap::range` panics on bounds out of order, which the precondition
/// rules out.
#[verifier::external_body]
fn multimap_range(m: &BTreeMultiMap<i32, HitContext>, lo: Bound<i32>, hi: Bound<i32>) -> (out: Vec<
    (i32, HitContext),
>)
    requires
        bounds_in_order(lo, hi),
    ensures
        out@ == multimap_entries(*m).filter(key_within(lo, hi)),
{
    m.range((lo, hi)).map(|(k, v)| (*k, *v)).collect()
}

/// `BTreeMultiMap::len`: the number of entries, each value counted.
#[verifier::external_body]
fn multimap_len(m: &BTreeMultiMap<i32, HitContext>) -> (n: usize)
    ensures
        n == multimap_entries(*m).len(),
{
    m.len()
}

/// `BTreeMultiMap::clone`: a map that holds the same entries.
#[verifier::external_body]
fn multimap_clone(m: &BTreeMultiMap<i32, HitContext>) -> (copy: BTreeMultiMap<i32, HitContext>)
    ensures
        multimap_entries(copy) == multimap_entries(*m),
{
    m.clone()
}

/// `BTreeMultiMap::eq`: whether two maps hold the same number of entries and,
/// walked side by side, the same key and the same value at every step.
#[verifier::external_body]
fn multimap_eq(a: &BTreeMultiMap<i32, HitContext>, b: &BTreeMultiMap<i32, HitContext>) -> (same: bool)
    ensures
        same == (multimap_entries(*a) == multimap_entries(*b)),
{
    a == b
}

/// A hit set: hits in ascending order of their parameters.
#[derive(Debug)]
pub struct Hits {
    inner: BTreeMultiMap<i32, HitContext>,
}

impl View for Hits {
    type V = Seq<(i32, HitContext)>;

    /// The entries of the set, each a key and a context, in ascending order.
    closed spec fn view(&self) -> Seq<(i32, HitContext)> {
        multimap_entries(self.inner)
    }
}

impl Clone for Hits {
    fn clone(&self) -> (copy: Self)
        ensures
            copy@ == self@,
    {
        proof {
            use_type_invariant(self);
        }
        Hits { inner: multimap_clone(&self.inner) }
    }
}

impl PartialEq for Hits {
    fn eq(&self, other: &Self) -> (same: bool) {
        multimap_eq(&self.inner, &other.inner)
    }
}

impl PartialEqSpecImpl for Hits {
    open spec fn obeys_eq_spec() -> bool {
        true
    }

    /// Two hit sets are equal when they hold the same entries in the same
    /// order.
    open spec fn eq_spec(&self, other: &Self) -> bool {
        self@ == other@
    }
}

impl Hits {
    #[verifier::type_invariant]
    spec fn well_formed(&self) -> bool {
        is_hit_set(self@)
    }

    /// Files the hits of a list, which may hold the hits of many objects: in
    /// ascending order of their parameters, hits of one parameter in the order
    /// of the list. No hit is dropped and none is merged with another.
    pub fn from_iter(pairs: Vec<(u32, HitContext)>) -> (hits: Hits)
        ensures
            hits@ == ascending(keyed(pairs@)),
            hits@.len() == pairs@.len(),
            is_hit_set(hits@),
    {
        let mut inner = multimap_new();
        let mut i: usize = 0;
        while i < pairs.len()
            invariant
                i <= pairs.len(),
                multimap_entries(inner) == ascending(keyed(pairs@.take(i as int))),
            decreases pairs.len() - i,
        {
            let (t, ctx) = pairs[i];
            let k: i32 = total_key(t);
            multimap_insert(&mut inner, k, ctx);
            proof {
                let next = keyed(pairs@.take(i + 1));
                assert(next.drop_last() == keyed(pairs@.take(i as int)));
                assert(next.last() == (k, ctx));
            }
            i += 1;
        }
        proof {
            assert(pairs@.take(i as int) == pairs@);
            lemma_keyed_valid(pairs@);
            law_ascending_ascends(keyed(pairs@));
        }
        Hits { inner }
    }

    /// The number of hits.
    pub fn size(&self) -> (n: usize)
        ensures
            n == self@.len(),
    {
        multimap_len(&self.inner)
    }

    /// The first hit in front of the ray's origin: of the hits whose
    /// parameter is not negative the one with the least, and of several with
    /// the least the first; nothing if there is no such hit.
    pub fn hit(&self) -> (found: Option<(u32, HitContext)>)
        ensures
            is_hit_set(self@),
            found == nearest_forward(self@),
            found is None <==> forall|i: int| 0 <= i < self@.len() ==> (#[trigger] self@[i]).0 < 0,
            found matches Some(hit) ==> {
                &&& key_of(hit.0) >= 0
                &&& self@.contains((key_of(hit.0) as i32, hit.1))
                &&& forall|i: int|
                    0 <= i < self@.len() && (#[trigger] self@[i]).0 >= 0 ==> key_of(hit.0)
                        <= self@[i].0
            },
    {
        proof {
            use_type_invariant(self);
            law_nearest_forward(self@);
        }
        let range = FloatRange::new((Bound::Included(0u32), Bound::Unbounded));
        let lo = range.start_bound();
        let hi = range.end_bound();
        let ahead = multimap_range(&self.inner, lo, hi);
        proof {
            let pred = key_within(lo, hi);
            lemma_nearest_forward_filter(self@, pred);
            lemma_filter_ascends(self@, pred);
        }
        if ahead.len() == 0 {
            None
        } else {
            let (k, ctx) = ahead[0];
            assert(is_key(ahead@[0].0 as int));
            Some((key_bits(k), ctx))
        }
    }

    /// The hits whose parameter lies in a range, all of them and no others,
    /// in ascending order. The range is a start and an end, each a bound that
    /// takes its point in, leaves it out or is no bound at all.
    ///
    /// Any two bounds are a range. Where they are out of order (see
    /// [`FloatRange::is_in_order`]) no parameter lies between them, and the
    /// answer is empty like that of any other range without a hit.
    pub fn hits_between(&self, range: (Bound<u32>, Bound<u32>)) -> (found: Vec<(u32, HitContext)>)
        ensures
            is_hit_set(self@),
            found@ == between(self@, key_bound(range.0), key_bound(range.1)),
            found@.len() <= self@.len(),
            !range_in_order(range) ==> found@.len() == 0,
            forall|i: int| 0 <= i < found@.len() ==> range_contains(range, (#[trigger] found@[i]).0),
            forall|i: int, j: int|
                0 <= i <= j < found@.len() ==> total_le(found@[i].0, found@[j].0),
    {
        proof {
            use_type_invariant(self);
            law_between_picks(self@, key_bound(range.0), key_bound(range.1));
            self@.lemma_filter_len(key_within(key_bound(range.0), key_bound(range.1)));
        }
        let range = FloatRange::new(range);
        if !range.is_in_order() {
            proof {
                law_out_of_order_picks_nothing(self@, key_bound(range@.0), key_bound(range@.1));
            }
            return Vec::new();
        }
        let lo = range.start_bound();
        let hi = range.end_bound();
        let picked = multimap_range(&self.inner, lo, hi);
        proof {
            lemma_filter_ascends(self@, key_within(lo, hi));
        }
        let mut found: Vec<(u32, HitContext)> = Vec::new();
        let mut i: usize = 0;
        while i < picked.len()
            invariant
                i <= picked.len(),
                keys_valid(picked@),
                found@ == handed(picked@.take(i as int)),
            decreases picked.len() - i,
        {
            let (k, ctx) = picked[i];
            assert(is_key(picked@[i as int].0 as int));
            found.push((key_bits(k), ctx));
            assert(found@ == handed(picked@.take(i + 1)));
            i += 1;
        }
        proof {
            assert(picked@.take(i as int) == picked@);
            law_handed_ascends(picked@);
        }
        found
    }
}

} // verus!
