//! Sequences of entries: what a hit set is to a contract.
//!
//! An entry is a key and a word on the object that was hit. A hit set is a
//! sequence of entries that ascends by key. Here is what it means to file an
//! entry, to order a list of entries, to find the nearest hit in front of the
//! ray's origin and to pick the hits of a range; and what holds of each.

use crate::geometry::hits::HitContext;
use crate::util::float_ord::{bits_of, bounds_in_order, in_bounds, is_key, key_of, total_le};
use std::ops::Bound;
use vstd::prelude::*;
use vstd::seq_lib::{to_multiset_build, to_multiset_insert};

verus! {

/// Whether the entries ascend by key.
pub open spec fn ascends(s: Seq<(i32, HitContext)>) -> bool {
    forall|i: int, j: int| 0 <= i <= j < s.len() ==> s[i].0 <= s[j].0
}

/// Whether every key is the key of some pattern.
pub open spec fn keys_valid(s: Seq<(i32, HitContext)>) -> bool {
    forall|i: int| 0 <= i < s.len() ==> is_key(#[trigger] s[i].0 as int)
}

/// What holds of the entries of every hit set: they ascend by key, and every
/// key is the key of some pattern.
pub open spec fn is_hit_set(s: Seq<(i32, HitContext)>) -> bool {
    ascends(s) && keys_valid(s)
}

/// The number of entries whose key is at most `k`. In a sequence that ascends
/// by key this is the place behind the last of them.
pub open spec fn slot(s: Seq<(i32, HitContext)>, k: i32) -> int
    decreases s.len(),
{
    if s.len() == 0 {
        0
    } else {
        slot(s.drop_last(), k) + if s.last().0 <= k {
            1int
        } else {
            0int
        }
    }
}

/// The sequence with one more entry, filed behind the entries of a key that is
/// at most its own.
pub open spec fn filed(s: Seq<(i32, HitContext)>, k: i32, v: HitContext) -> Seq<(i32, HitContext)> {
    s.insert(slot(s, k), (k, v))
}

/// The entries in ascending order of their keys, entries of one key in the
/// order in which they stand in `pairs`: each in turn is filed into what the
/// earlier ones made.
pub open spec fn ascending(pairs: Seq<(i32, HitContext)>) -> Seq<(i32, HitContext)>
    decreases pairs.len(),
{
    if pairs.len() == 0 {
        Seq::empty()
    } else {
        filed(ascending(pairs.drop_last()), pairs.last().0, pairs.last().1)
    }
}

/// The entries for a list of hits: each parameter replaced by its key.
pub open spec fn keyed(pairs: Seq<(u32, HitContext)>) -> Seq<(i32, HitContext)> {
    pairs.map_values(|p: (u32, HitContext)| (key_of(p.0) as i32, p.1))
}

/// The hits for a list of entries: each key replaced by the pattern that
/// stands for it.
pub open spec fn handed(s: Seq<(i32, HitContext)>) -> Seq<(u32, HitContext)> {
    s.map_values(|e: (i32, HitContext)| (bits_of(e.0 as int), e.1))
}

/// The entries whose key lies between the bounds.
pub open spec fn key_within(lo: Bound<i32>, hi: Bound<i32>) -> spec_fn((i32, HitContext)) -> bool {
    |e: (i32, HitContext)| in_bounds(lo, hi, e.0)
}

/// The entries of the key `k`.
pub open spec fn key_is(k: i32) -> spec_fn((i32, HitContext)) -> bool {
    |e: (i32, HitContext)| e.0 == k
}

/// The entries of the key `k`, in their order.
pub open spec fn of_key(s: Seq<(i32, HitContext)>, k: i32) -> Seq<(i32, HitContext)> {
    s.filter(key_is(k))
}

/// The first entry whose key is not negative, as a hit.
pub open spec fn nearest_forward(s: Seq<(i32, HitContext)>) -> Option<(u32, HitContext)>
    decreases s.len(),
{
    if s.len() == 0 {
        None
    } else if s.first().0 >= 0 {
        Some((bits_of(s.first().0 as int), s.first().1))
    } else {
        nearest_forward(s.drop_first())
    }
}

/// The entries whose key lies between the bounds, as hits.
pub open spec fn between(s: Seq<(i32, HitContext)>, lo: Bound<i32>, hi: Bound<i32>) -> Seq<
    (u32, HitContext),
> {
    handed(s.filter(key_within(lo, hi)))
}

/// Where `k` goes into an ascending sequence: every entry before that place
/// has a key of at most `k`, every entry from it on a greater one.
pub(crate) proof fn lemma_slot(s: Seq<(i32, HitContext)>, k: i32)
    requires
        ascends(s),
    ensures
        0 <= slot(s, k) <= s.len(),
        forall|i: int| 0 <= i < slot(s, k) ==> (#[trigger] s[i]).0 <= k,
        forall|i: int| slot(s, k) <= i < s.len() ==> (#[trigger] s[i]).0 > k,
    decreases s.len(),
{
    if s.len() > 0 {
        let front = s.drop_last();
        assert forall|i: int, j: int| 0 <= i <= j < front.len() implies front[i].0
            <= front[j].0 by {
            assert(s[i].0 <= s[j].0);
        }
        lemma_slot(front, k);
        let p = slot(front, k);
        if s.last().0 <= k && p < front.len() {
            assert(front[p].0 > k);
            assert(s[p].0 <= s[s.len() - 1].0);
        }
        assert forall|i: int| 0 <= i < slot(s, k) implies (#[trigger] s[i]).0 <= k by {
            if i < front.len() {
                assert(s[i] == front[i]);
            }
        }
        assert forall|i: int| slot(s, k) <= i < s.len() implies (#[trigger] s[i]).0 > k by {
            if i < front.len() {
                assert(s[i] == front[i]);
            }
        }
    }
}

/// Filing keeps a sequence ascending and its keys valid.
pub(crate) proof fn lemma_filed_ascends(s: Seq<(i32, HitContext)>, k: i32, v: HitContext)
    requires
        ascends(s),
    ensures
        ascends(filed(s, k, v)),
        filed(s, k, v).len() == s.len() + 1,
        keys_valid(s) && is_key(k as int) ==> keys_valid(filed(s, k, v)),
{
    lemma_slot(s, k);
    let p = slot(s, k);
    let t = filed(s, k, v);
    assert forall|i: int, j: int| 0 <= i <= j < t.len() implies t[i].0 <= t[j].0 by {
        if i < p {
            assert(t[i] == s[i]);
        } else if i > p {
            assert(t[i] == s[i - 1]);
        }
        if j < p {
            assert(t[j] == s[j]);
        } else if j > p {
            assert(t[j] == s[j - 1]);
        }
    }
    if keys_valid(s) && is_key(k as int) {
        assert forall|i: int| 0 <= i < t.len() implies is_key(#[trigger] t[i].0 as int) by {
            if i < p {
                assert(t[i] == s[i]);
            } else if i > p {
                assert(t[i] == s[i - 1]);
            }
        }
    }
}

/// The entries of any list of hits have valid keys.
pub(crate) proof fn lemma_keyed_valid(pairs: Seq<(u32, HitContext)>)
    ensures
        keys_valid(keyed(pairs)),
        keyed(pairs).len() == pairs.len(),
{
}

/// A predicate that holds of no entry picks none.
proof fn lemma_filter_none(s: Seq<(i32, HitContext)>, pred: spec_fn((i32, HitContext)) -> bool)
    requires
        forall|i: int| 0 <= i < s.len() ==> !pred(#[trigger] s[i]),
    ensures
        s.filter(pred) == Seq::<(i32, HitContext)>::empty(),
{
    let picked = s.filter(pred);
    if picked.len() > 0 {
        s.lemma_filter_pred(pred, 0);
        s.lemma_filter_contains_rev(pred, picked[0]);
        let at = choose|at: int| 0 <= at < s.len() && s[at] == picked[0];
        assert(!pred(s[at]));
    }
}

/// Filing an entry appends it to the entries of its key and leaves the
/// entries of every other key as they were.
proof fn lemma_filed_of_key(s: Seq<(i32, HitContext)>, k: i32, v: HitContext, other: i32)
    requires
        ascends(s),
    ensures
        of_key(filed(s, k, v), other) == if other == k {
            of_key(s, other).push((k, v))
        } else {
            of_key(s, other)
        },
{
    let pred = key_is(other);
    lemma_slot(s, k);
    let p = slot(s, k);
    let head = s.subrange(0, p);
    let tail = s.subrange(p, s.len() as int);
    assert(head + tail =~= s);
    assert(filed(s, k, v) =~= head.push((k, v)) + tail);
    Seq::filter_distributes_over_add(head, tail, pred);
    Seq::filter_distributes_over_add(head.push((k, v)), tail, pred);
    head.lemma_filter_push((k, v), pred);
    if other == k {
        assert forall|i: int| 0 <= i < tail.len() implies !pred(#[trigger] tail[i]) by {
            assert(tail[i] == s[p + i]);
        }
        lemma_filter_none(tail, pred);
        assert(head.filter(pred) + tail.filter(pred) =~= head.filter(pred));
        assert(head.filter(pred).push((k, v)) + tail.filter(pred) =~= head.filter(pred).push(
            (k, v),
        ));
    }
}

/// What a predicate picks from a sequence that ascends, ascends; and every
/// picked entry stands in the sequence.
pub(crate) proof fn lemma_filter_ascends(s: Seq<(i32, HitContext)>, pred: spec_fn((i32, HitContext)) -> bool)
    requires
        ascends(s),
    ensures
        ascends(s.filter(pred)),
        forall|i: int| 0 <= i < s.filter(pred).len() ==> s.contains(#[trigger] s.filter(pred)[i]),
        keys_valid(s) ==> keys_valid(s.filter(pred)),
    decreases s.len(),
{
    reveal(Seq::filter);
    if s.len() > 0 {
        let front = s.drop_last();
        assert forall|i: int, j: int| 0 <= i <= j < front.len() implies front[i].0
            <= front[j].0 by {
            assert(s[i].0 <= s[j].0);
        }
        lemma_filter_ascends(front, pred);
        let picked = s.filter(pred);
        let before = front.filter(pred);
        assert forall|i: int| 0 <= i < picked.len() implies s.contains(#[trigger] picked[i]) by {
            if i < before.len() {
                assert(picked[i] == before[i]);
                assert(front.contains(before[i]));
                let at = choose|at: int| 0 <= at < front.len() && front[at] == before[i];
                assert(s[at] == picked[i]);
            } else {
                assert(picked[i] == s[s.len() - 1]);
            }
        }
        assert forall|i: int, j: int| 0 <= i <= j < picked.len() implies picked[i].0
            <= picked[j].0 by {
            assert(s.contains(picked[i]));
            if j < before.len() {
                assert(before[i].0 <= before[j].0);
            } else if i < before.len() {
                assert(front.contains(before[i]));
                let at = choose|at: int| 0 <= at < front.len() && front[at] == before[i];
                assert(s[at].0 <= s[s.len() - 1].0);
            }
        }
        if keys_valid(s) {
            assert forall|i: int| 0 <= i < picked.len() implies is_key(
                #[trigger] picked[i].0 as int,
            ) by {
                assert(s.contains(picked[i]));
                let at = choose|at: int| 0 <= at < s.len() && s[at] == picked[i];
                assert(is_key(s[at].0 as int));
            }
        }
    }
}

/// Among the entries that a predicate picks, in their order, the first is the
/// first entry that the predicate holds of.
pub(crate) proof fn lemma_nearest_forward_filter(
    s: Seq<(i32, HitContext)>,
    pred: spec_fn((i32, HitContext)) -> bool,
)
    requires
        forall|e: (i32, HitContext)| #[trigger] pred(e) <==> e.0 >= 0,
    ensures
        nearest_forward(s) == if s.filter(pred).len() == 0 {
            None
        } else {
            Some((bits_of(s.filter(pred)[0].0 as int), s.filter(pred)[0].1))
        },
    decreases s.len(),
{
    if s.len() == 0 {
        s.lemma_filter_len(pred);
    } else {
        let rest = s.drop_first();
        lemma_nearest_forward_filter(rest, pred);
        rest.lemma_filter_prepend(s.first(), pred);
        assert(seq![s.first()] + rest == s);
    }
}

/// The entries in ascending order do ascend, and are as many as there were.
pub proof fn law_ascending_ascends(pairs: Seq<(i32, HitContext)>)
    ensures
        ascends(ascending(pairs)),
        ascending(pairs).len() == pairs.len(),
        keys_valid(pairs) ==> keys_valid(ascending(pairs)),
    decreases pairs.len(),
{
    if pairs.len() > 0 {
        let front = pairs.drop_last();
        law_ascending_ascends(front);
        lemma_filed_ascends(ascending(front), pairs.last().0, pairs.last().1);
        if keys_valid(pairs) {
            assert forall|i: int| 0 <= i < front.len() implies is_key(
                #[trigger] front[i].0 as int,
            ) by {
                assert(front[i] == pairs[i]);
            }
        }
    }
}

/// The entries in ascending order are the entries that there were, each as
/// often as it was there.
pub proof fn law_ascending_permutes(pairs: Seq<(i32, HitContext)>)
    ensures
        ascending(pairs).to_multiset() == pairs.to_multiset(),
    decreases pairs.len(),
{
    if pairs.len() > 0 {
        let front = pairs.drop_last();
        let last = pairs.last();
        law_ascending_permutes(front);
        law_ascending_ascends(front);
        lemma_slot(ascending(front), last.0);
        to_multiset_insert(ascending(front), slot(ascending(front), last.0), last);
        to_multiset_build(front, last);
        assert(front.push(last) =~= pairs);
        assert((last.0, last.1) == last);
    } else {
        assert(pairs =~= Seq::empty());
    }
}

/// Ordering is stable: the entries of one key stand in the order in which
/// they stood before.
pub proof fn law_ascending_stable(pairs: Seq<(i32, HitContext)>, k: i32)
    ensures
        of_key(ascending(pairs), k) == of_key(pairs, k),
    decreases pairs.len(),
{
    let pred = key_is(k);
    if pairs.len() == 0 {
        assert(ascending(pairs) =~= pairs);
    } else {
        let front = pairs.drop_last();
        let last = pairs.last();
        law_ascending_stable(front, k);
        law_ascending_ascends(front);
        lemma_filed_of_key(ascending(front), last.0, last.1, k);
        front.lemma_filter_push(last, pred);
        assert(front.push(last) =~= pairs);
        assert((last.0, last.1) == last);
    }
}

/// What [`nearest_forward`] finds: nothing exactly when every key is
/// negative; else the first entry whose key is not negative, which in a
/// sequence that ascends has the least such key.
pub proof fn law_nearest_forward(s: Seq<(i32, HitContext)>)
    ensures
        nearest_forward(s) is None <==> forall|i: int| 0 <= i < s.len() ==> (#[trigger] s[i]).0 < 0,
        nearest_forward(s) matches Some(hit) ==> exists|i: int|
            {
                &&& 0 <= i < s.len()
                &&& (#[trigger] s[i]).0 >= 0
                &&& forall|j: int| 0 <= j < i ==> (#[trigger] s[j]).0 < 0
                &&& hit == (bits_of(s[i].0 as int), s[i].1)
                &&& ascends(s) ==> forall|j: int|
                    0 <= j < s.len() && (#[trigger] s[j]).0 >= 0 ==> s[i].0 <= s[j].0
            },
    decreases s.len(),
{
    if s.len() > 0 {
        let rest = s.drop_first();
        law_nearest_forward(rest);
        if s.first().0 >= 0 {
            assert(s[0].0 >= 0);
            if ascends(s) {
                assert forall|j: int| 0 <= j < s.len() && (#[trigger] s[j]).0 >= 0 implies s[0].0
                    <= s[j].0 by {}
            }
        } else {
            if nearest_forward(rest) is None {
                assert forall|i: int| 0 <= i < s.len() implies (#[trigger] s[i]).0 < 0 by {
                    if i > 0 {
                        assert(s[i] == rest[i - 1]);
                    }
                }
            } else {
                let hit = nearest_forward(rest)->Some_0;
                let at = choose|i: int|
                    {
                        &&& 0 <= i < rest.len()
                        &&& (#[trigger] rest[i]).0 >= 0
                        &&& forall|j: int| 0 <= j < i ==> (#[trigger] rest[j]).0 < 0
                        &&& hit == (bits_of(rest[i].0 as int), rest[i].1)
                        &&& ascends(rest) ==> forall|j: int|
                            0 <= j < rest.len() && (#[trigger] rest[j]).0 >= 0 ==> rest[i].0
                                <= rest[j].0
                    };
                let i = at + 1;
                assert(s[i] == rest[at]);
                assert forall|j: int| 0 <= j < i implies (#[trigger] s[j]).0 < 0 by {
                    if j > 0 {
                        assert(s[j] == rest[j - 1]);
                    }
                }
                if ascends(s) {
                    assert forall|j: int|
                        0 <= j < s.len() && (#[trigger] s[j]).0 >= 0 implies s[i].0 <= s[j].0 by {
                        if j < i {
                        } else {
                            assert(s[i].0 <= s[j].0);
                        }
                    }
                }
                assert(s[i].0 >= 0);
                assert(!(forall|i: int| 0 <= i < s.len() ==> (#[trigger] s[i]).0 < 0));
            }
        }
    }
}

/// Handing out what ascends by key gives parameters that do not descend.
pub proof fn law_handed_ascends(s: Seq<(i32, HitContext)>)
    requires
        ascends(s),
        keys_valid(s),
    ensures
        handed(s).len() == s.len(),
        forall|i: int| 0 <= i < s.len() ==> key_of(#[trigger] handed(s)[i].0) == s[i].0,
        forall|i: int, j: int|
            0 <= i <= j < s.len() ==> total_le(handed(s)[i].0, handed(s)[j].0),
{
    assert forall|i: int| 0 <= i < s.len() implies key_of(#[trigger] handed(s)[i].0)
        == s[i].0 by {
        assert(is_key(s[i].0 as int));
    }
    assert forall|i: int, j: int| 0 <= i <= j < s.len() implies total_le(
        handed(s)[i].0,
        handed(s)[j].0,
    ) by {
        assert(s[i].0 <= s[j].0);
        assert(key_of(handed(s)[i].0) == s[i].0);
        assert(key_of(handed(s)[j].0) == s[j].0);
    }
}

/// The hits of a range come in ascending order of their parameters: none
/// comes before one that the order puts before it.
pub proof fn law_between_ascends(s: Seq<(i32, HitContext)>, lo: Bound<i32>, hi: Bound<i32>)
    requires
        ascends(s),
        keys_valid(s),
    ensures
        forall|i: int, j: int|
            0 <= i <= j < between(s, lo, hi).len() ==> total_le(
                between(s, lo, hi)[i].0,
                between(s, lo, hi)[j].0,
            ),
{
    let picked = s.filter(key_within(lo, hi));
    lemma_filter_ascends(s, key_within(lo, hi));
    law_handed_ascends(picked);
}

/// The hits of a range are the entries between the bounds, no more and no
/// fewer.
pub proof fn law_between_picks(s: Seq<(i32, HitContext)>, lo: Bound<i32>, hi: Bound<i32>)
    requires
        keys_valid(s),
    ensures
        forall|i: int|
            0 <= i < between(s, lo, hi).len() ==> in_bounds(
                lo,
                hi,
                key_of((#[trigger] between(s, lo, hi)[i]).0) as i32,
            ),
        forall|j: int|
            0 <= j < s.len() && in_bounds(lo, hi, (#[trigger] s[j]).0) ==> between(
                s,
                lo,
                hi,
            ).contains((bits_of(s[j].0 as int), s[j].1)),
{
    let pred = key_within(lo, hi);
    let picked = s.filter(pred);
    let out = between(s, lo, hi);
    assert forall|i: int| 0 <= i < out.len() implies in_bounds(
        lo,
        hi,
        key_of((#[trigger] out[i]).0) as i32,
    ) by {
        s.lemma_filter_pred(pred, i);
        s.lemma_filter_contains_rev(pred, picked[i]);
        let at = choose|at: int| 0 <= at < s.len() && s[at] == picked[i];
        assert(is_key(s[at].0 as int));
    }
    assert forall|j: int| 0 <= j < s.len() && in_bounds(lo, hi, (#[trigger] s[j]).0) implies out.contains(
        (bits_of(s[j].0 as int), s[j].1),
    ) by {
        s.lemma_filter_contains(pred, j);
        let at = choose|at: int| 0 <= at < picked.len() && picked[at] == s[j];
        assert(out[at] == (bits_of(s[j].0 as int), s[j].1));
    }
}

/// Bounds out of order have no key between them, so they pick no hit from
/// any sequence: a range that starts above its end, or that starts and ends
/// at one point and leaves it out at both, is an empty range.
pub proof fn law_out_of_order_picks_nothing(
    s: Seq<(i32, HitContext)>,
    lo: Bound<i32>,
    hi: Bound<i32>,
)
    requires
        !bounds_in_order(lo, hi),
    ensures
        forall|k: i32| !in_bounds(lo, hi, k),
        between(s, lo, hi) == Seq::<(u32, HitContext)>::empty(),
{
    assert forall|i: int| 0 <= i < s.len() implies !key_within(lo, hi)(#[trigger] s[i]) by {
        assert(!in_bounds(lo, hi, s[i].0));
    }
    lemma_filter_none(s, key_within(lo, hi));
}

/// A set without entries has no nearest hit and no hit in any range, be the
/// range's bounds in order or not.
pub proof fn law_empty_yields_nothing(lo: Bound<i32>, hi: Bound<i32>)
    ensures
        ascending(keyed(Seq::empty())) == Seq::<(i32, HitContext)>::empty(),
        nearest_forward(Seq::empty()) is None,
        between(Seq::empty(), lo, hi) == Seq::<(u32, HitContext)>::empty(),
{
    let none = Seq::<(i32, HitContext)>::empty();
    assert(keyed(Seq::empty()) == none);
    none.lemma_filter_len(key_within(lo, hi));
    assert(between(none, lo, hi) == Seq::<(u32, HitContext)>::empty());
}

} // verus!
