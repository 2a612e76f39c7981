//! Identities, and the allocator that hands them out.
//!
//! An allocator is a counter. It is passed to whoever needs an identity, by
//! exclusive reference, so no two callers can draw from it at once and no
//! identity is issued twice. A counter for the whole process is an allocator
//! behind a lock.

use std::cmp::Ordering;
use std::hash::{Hash, Hasher};
use vstd::prelude::*;

verus! {

/// The identity of an object: a number that an [`IdAllocator`] hands out once
/// and never again.
#[derive(Debug, Clone, Copy, PartialEq, Eq, PartialOrd, Ord, Structural)]
pub struct Id(u64);

/// The source of identities. It counts what it has issued, and the next
/// identity is that count.
#[derive(Debug)]
pub struct IdAllocator {
    issued: u64,
}

impl View for Id {
    type V = u64;

    /// The identity's number.
    closed spec fn view(&self) -> u64 {
        self.0
    }
}

impl View for IdAllocator {
    type V = u64;

    /// The number of identities issued so far.
    closed spec fn view(&self) -> u64 {
        self.issued
    }
}

/// One allocation: `before` hands out `id` and becomes `after`.
pub open spec fn issued(before: IdAllocator, id: Id, after: IdAllocator) -> bool {
    &&& id@ == before@
    &&& after@ == before@ + 1
}

/// A run of allocations on one allocator: `states[i]` hands out `ids[i]` and
/// becomes `states[i + 1]`.
pub open spec fn issued_in_turn(states: Seq<IdAllocator>, ids: Seq<Id>) -> bool {
    &&& states.len() == ids.len() + 1
    &&& forall|i: int| 0 <= i < ids.len() ==> issued(states[i], #[trigger] ids[i], states[i + 1])
}

/// The order of two identities: that of their numbers.
pub open spec fn id_order(a: Id, b: Id) -> Ordering {
    if a@ < b@ {
        Ordering::Less
    } else if a@ == b@ {
        Ordering::Equal
    } else {
        Ordering::Greater
    }
}

impl IdAllocator {
    /// An allocator that has issued nothing.
    pub fn new() -> (ids: Self)
        ensures
            ids@ == 0,
    {
        IdAllocator { issued: 0 }
    }
}

impl Default for IdAllocator {
    fn default() -> (ids: Self)
        ensures
            ids@ == 0,
    {
        IdAllocator::new()
    }
}

impl Id {
    /// Issues the next identity: the number of identities issued before.
    ///
    /// The counter must not have run out.
    pub fn new(ids: &mut IdAllocator) -> (id: Self)
        requires
            old(ids)@ < u64::MAX,
        ensures
            issued(*old(ids), id, *final(ids)),
    {
        let id = Id(ids.issued);
        ids.issued = ids.issued + 1;
        id
    }

    /// The number of identities that `ids` has issued.
    pub fn count(ids: &IdAllocator) -> (n: u64)
        ensures
            n == ids@,
    {
        ids.issued
    }

    /// Compares two identities by their numbers.
    pub fn order(&self, other: &Id) -> (order: Ordering)
        ensures
            order == id_order(*self, *other),
    {
        if self.0 < other.0 {
            Ordering::Less
        } else if self.0 == other.0 {
            Ordering::Equal
        } else {
            Ordering::Greater
        }
    }
}

/// `Hash::hash` of a `u64`: feeds the number to the hasher. Nothing is said of
/// the hasher's state.
pub assume_specification<H: Hasher>[ <u64 as Hash>::hash ](value: &u64, state: &mut H);

impl Hash for Id {
    /// Feeds the hasher the identity's number.
    fn hash<H: Hasher>(&self, state: &mut H) {
        self.0.hash(state);
    }
}

/// Identities are equal exactly when their numbers are.
pub proof fn law_id_extensional(a: Id, b: Id)
    ensures
        a == b <==> a@ == b@,
        a == b <==> id_order(a, b) == Ordering::Equal,
{
}

/// In a run of allocations every count and every identity is the first count
/// plus the number of allocations before.
pub proof fn law_run_counts(states: Seq<IdAllocator>, ids: Seq<Id>, i: int)
    requires
        issued_in_turn(states, ids),
        0 <= i <= ids.len(),
    ensures
        states[i]@ == states[0]@ + i,
        i < ids.len() ==> ids[i]@ == states[0]@ + i,
    decreases i,
{
    if i > 0 {
        law_run_counts(states, ids, i - 1);
        assert(issued(states[i - 1], ids[i - 1], states[i]));
    }
    if i < ids.len() {
        assert(issued(states[i], ids[i], states[i + 1]));
    }
}

/// Any number of allocations in a row return pairwise distinct identities,
/// and the count afterwards is at least their number: it is the count before
/// plus their number.
pub proof fn law_sequential_ids_distinct(states: Seq<IdAllocator>, ids: Seq<Id>)
    requires
        issued_in_turn(states, ids),
    ensures
        forall|i: int, j: int| 0 <= i < j < ids.len() ==> ids[i] != ids[j],
        states.last()@ >= ids.len(),
        states.last()@ == states[0]@ + ids.len(),
{
    assert forall|i: int, j: int| 0 <= i < j < ids.len() implies ids[i] != ids[j] by {
        law_run_counts(states, ids, i);
        law_run_counts(states, ids, j);
    }
    law_run_counts(states, ids, ids.len() as int);
}

/// Identities strictly increase from one allocation to any later one.
pub proof fn law_ids_increase(states: Seq<IdAllocator>, ids: Seq<Id>, i: int, j: int)
    requires
        issued_in_turn(states, ids),
        0 <= i < j < ids.len(),
    ensures
        ids[i]@ < ids[j]@,
        id_order(ids[i], ids[j]) == Ordering::Less,
{
    law_run_counts(states, ids, i);
    law_run_counts(states, ids, j);
}

} // verus!
