//! A total order on single-precision bit patterns, and ranges over it.
//!
//! The machine's own comparison of floating-point numbers is partial: a NaN is
//! neither below, above nor equal to anything. A sorted collection needs more,
//! so every pattern gets an integer key and patterns are ordered by their keys:
//!
//! ```text
//! -inf < ... < -0.0 = +0.0 < ... < +inf < NaN
//! ```
//!
//! Both zeros share the key 0. A NaN is no parameter of a ray, and a shape
//! should never emit one; all the same every NaN pattern has a key, one and the
//! same, above that of positive infinity, so that the order is total on all
//! 2^32 patterns and nothing that goes through it can fail.

use std::ops::Bound;
use vstd::prelude::*;

verus! {

#[verifier::external_type_specification]
#[verifier::reject_recursive_types(T)]
pub struct ExBound<T>(Bound<T>);

/// The sign bit of a pattern.
pub const SIGN_BIT: u32 = 0x8000_0000;

/// Every bit of a pattern but the sign.
pub const MAGNITUDE_MASK: u32 = 0x7fff_ffff;

/// The pattern of positive infinity, and the largest magnitude of a number.
pub const INFINITY_BITS: u32 = 0x7f80_0000;

/// The pattern by which a NaN is handed back.
pub const NAN_BITS: u32 = 0x7fc0_0000;

/// The key of every NaN: one above the key of positive infinity.
pub const NAN_KEY: i32 = 0x7f80_0001;

/// The pattern without its sign bit.
pub open spec fn magnitude(bits: u32) -> int {
    bits as int % 0x8000_0000
}

/// Whether the sign bit is set.
pub open spec fn sign_set(bits: u32) -> bool {
    bits >= SIGN_BIT
}

/// Whether the pattern is a NaN: its exponent is all ones and its fraction is
/// not zero.
pub open spec fn is_nan(bits: u32) -> bool {
    magnitude(bits) > INFINITY_BITS
}

/// The key of a pattern. A number's key is its magnitude, negated where the
/// sign bit is set.
pub open spec fn key_of(bits: u32) -> int {
    if is_nan(bits) {
        NAN_KEY as int
    } else if sign_set(bits) {
        -magnitude(bits)
    } else {
        magnitude(bits)
    }
}

/// Whether an integer is the key of some pattern.
pub open spec fn is_key(k: int) -> bool {
    -(INFINITY_BITS as int) <= k <= NAN_KEY as int
}

/// The pattern that stands for a key: of the two zeros the positive one, of
/// the NaNs [`NAN_BITS`], and of any other number its only pattern.
pub open spec fn bits_of(k: int) -> u32 {
    if k == NAN_KEY as int {
        NAN_BITS
    } else if k >= 0 {
        k as u32
    } else {
        (SIGN_BIT - k) as u32
    }
}

/// The pattern that a given one is filed under and handed back as.
pub open spec fn canonical(bits: u32) -> u32 {
    bits_of(key_of(bits))
}

/// `a` comes no later than `b` in the total order.
pub open spec fn total_le(a: u32, b: u32) -> bool {
    key_of(a) <= key_of(b)
}

/// `a` and `b` hold the same place in the total order.
pub open spec fn total_eq(a: u32, b: u32) -> bool {
    key_of(a) == key_of(b)
}

/// Whether `a` and `b` are equal as the machine compares numbers: both zeros
/// are equal, and a NaN equals nothing, not even itself.
pub open spec fn ieee_eq(a: u32, b: u32) -> bool {
    !is_nan(a) && !is_nan(b) && key_of(a) == key_of(b)
}

/// Computes the key of a pattern.
pub fn total_key(bits: u32) -> (k: i32)
    ensures
        k == key_of(bits),
        is_key(k as int),
{
    let mag: u32 = bits & MAGNITUDE_MASK;
    assert(bits & 0x7fff_ffff == bits % 0x8000_0000) by (bit_vector);
    if mag > INFINITY_BITS {
        NAN_KEY
    } else if bits >= SIGN_BIT {
        -(mag as i32)
    } else {
        mag as i32
    }
}

/// Computes the pattern that stands for a key.
pub fn key_bits(k: i32) -> (bits: u32)
    requires
        is_key(k as int),
    ensures
        bits == bits_of(k as int),
{
    if k == NAN_KEY {
        NAN_BITS
    } else if k >= 0 {
        k as u32
    } else {
        SIGN_BIT + ((-k) as u32)
    }
}

/// Compares two patterns as the machine compares numbers.
pub fn float_eq(a: u32, b: u32) -> (same: bool)
    ensures
        same == ieee_eq(a, b),
{
    let ka: i32 = total_key(a);
    let kb: i32 = total_key(b);
    ka != NAN_KEY && ka == kb
}

/// The bound over keys that stands for a bound over patterns.
pub open spec fn key_bound(bound: Bound<u32>) -> Bound<i32> {
    match bound {
        Bound::Included(bits) => Bound::Included(key_of(bits) as i32),
        Bound::Excluded(bits) => Bound::Excluded(key_of(bits) as i32),
        Bound::Unbounded => Bound::Unbounded,
    }
}

/// Whether a lower bound lets the key `k` pass.
pub open spec fn admits_from(lo: Bound<i32>, k: i32) -> bool {
    match lo {
        Bound::Included(a) => a <= k,
        Bound::Excluded(a) => a < k,
        Bound::Unbounded => true,
    }
}

/// Whether an upper bound lets the key `k` pass.
pub open spec fn admits_up_to(hi: Bound<i32>, k: i32) -> bool {
    match hi {
        Bound::Included(b) => k <= b,
        Bound::Excluded(b) => k < b,
        Bound::Unbounded => true,
    }
}

/// Whether the key `k` lies between the two bounds.
pub open spec fn in_bounds(lo: Bound<i32>, hi: Bound<i32>, k: i32) -> bool {
    admits_from(lo, k) && admits_up_to(hi, k)
}

/// Whether two bounds make a range that an ordered map can be asked for: the
/// start does not lie above the end, and where the two meet they do not both
/// shut their point out.
pub open spec fn bounds_in_order(lo: Bound<i32>, hi: Bound<i32>) -> bool {
    match (lo, hi) {
        (Bound::Unbounded, _) => true,
        (_, Bound::Unbounded) => true,
        (Bound::Excluded(a), Bound::Excluded(b)) => a < b,
        (Bound::Included(a), Bound::Included(b)) => a <= b,
        (Bound::Included(a), Bound::Excluded(b)) => a <= b,
        (Bound::Excluded(a), Bound::Included(b)) => a <= b,
    }
}

/// Whether a pair of bounds over patterns, start and end, is in order once
/// read as bounds over keys.
pub open spec fn range_in_order(range: (Bound<u32>, Bound<u32>)) -> bool {
    bounds_in_order(key_bound(range.0), key_bound(range.1))
}

/// Whether a pattern lies between a pair of bounds over patterns.
pub open spec fn range_contains(range: (Bound<u32>, Bound<u32>), bits: u32) -> bool {
    in_bounds(key_bound(range.0), key_bound(range.1), key_of(bits) as i32)
}

/// Applies `f` to the point of a bound and keeps the bound's kind.
pub fn map_bound<T, U, F: FnOnce(T) -> U>(bound: Bound<T>, f: F) -> (out: Bound<U>)
    requires
        match bound {
            Bound::Included(val) => f.requires((val,)),
            Bound::Excluded(val) => f.requires((val,)),
            Bound::Unbounded => true,
        },
    ensures
        match (bound, out) {
            (Bound::Included(val), Bound::Included(res)) => f.ensures((val,), res),
            (Bound::Excluded(val), Bound::Excluded(res)) => f.ensures((val,), res),
            (Bound::Unbounded, Bound::Unbounded) => true,
            _ => false,
        },
{
    match bound {
        Bound::Included(val) => Bound::Included(f(val)),
        Bound::Excluded(val) => Bound::Excluded(f(val)),
        Bound::Unbounded => Bound::Unbounded,
    }
}

/// A range over patterns, read as a range over their keys.
pub struct FloatRange {
    inner: (Bound<u32>, Bound<u32>),
}

impl View for FloatRange {
    type V = (Bound<u32>, Bound<u32>);

    /// The two bounds over patterns, start and end, that the range was made of.
    closed spec fn view(&self) -> (Bound<u32>, Bound<u32>) {
        self.inner
    }
}

impl FloatRange {
    /// Whether the pattern lies in the range.
    pub open spec fn contains(&self, bits: u32) -> bool {
        range_contains(self@, bits)
    }

    /// Whether the range's bounds are in order, see [`bounds_in_order`].
    pub open spec fn in_order(&self) -> bool {
        range_in_order(self@)
    }

    /// Wraps a pair of bounds over patterns.
    pub fn new(inner: (Bound<u32>, Bound<u32>)) -> (range: Self)
        ensures
            range@ == inner,
    {
        FloatRange { inner }
    }

    /// The start of the range, as a bound over keys.
    pub fn start_bound(&self) -> (bound: Bound<i32>)
        ensures
            bound == key_bound(self@.0),
    {
        map_bound(self.inner.0, total_key)
    }

    /// The end of the range, as a bound over keys.
    pub fn end_bound(&self) -> (bound: Bound<i32>)
        ensures
            bound == key_bound(self@.1),
    {
        map_bound(self.inner.1, total_key)
    }

    /// Tells whether the range's bounds are in order.
    pub fn is_in_order(&self) -> (ok: bool)
        ensures
            ok == self.in_order(),
    {
        match (self.start_bound(), self.end_bound()) {
            (Bound::Unbounded, _) => true,
            (_, Bound::Unbounded) => true,
            (Bound::Excluded(a), Bound::Excluded(b)) => a < b,
            (Bound::Included(a), Bound::Included(b)) => a <= b,
            (Bound::Included(a), Bound::Excluded(b)) => a <= b,
            (Bound::Excluded(a), Bound::Included(b)) => a <= b,
        }
    }
}

/// Every pattern has a key, and it lies in the range of keys.
pub proof fn law_key_in_range(bits: u32)
    ensures
        is_key(key_of(bits)),
{
}

/// The pattern that stands for a key has that key.
pub proof fn law_key_of_bits_of(k: int)
    requires
        is_key(k),
    ensures
        key_of(bits_of(k)) == k,
{
}

/// A pattern is handed back unchanged, unless it is the negative zero, which
/// comes back as the positive one, or a NaN, which comes back as [`NAN_BITS`].
pub proof fn law_canonical(bits: u32)
    ensures
        is_nan(bits) ==> canonical(bits) == NAN_BITS,
        magnitude(bits) == 0 ==> canonical(bits) == 0,
        !is_nan(bits) && magnitude(bits) != 0 ==> canonical(bits) == bits,
        total_eq(canonical(bits), bits),
        canonical(canonical(bits)) == canonical(bits),
{
}

/// Negative and positive zero hold the same place: both have the key 0.
pub proof fn law_zeros_equal()
    ensures
        key_of(0x0000_0000) == 0,
        key_of(0x8000_0000) == 0,
        total_eq(0x0000_0000, 0x8000_0000),
{
}

/// Every NaN has the same key, above that of every number.
pub proof fn law_nan_last(nan: u32, bits: u32)
    requires
        is_nan(nan),
    ensures
        total_le(bits, nan),
        is_nan(bits) <==> total_eq(bits, nan),
{
}

/// The order is reflexive.
pub proof fn law_total_le_reflexive(a: u32)
    ensures
        total_le(a, a),
{
}

/// The order is antisymmetric: two patterns that each come no later than the
/// other hold the same place, and are handed back as the same pattern.
pub proof fn law_total_le_antisymmetric(a: u32, b: u32)
    requires
        total_le(a, b),
        total_le(b, a),
    ensures
        total_eq(a, b),
        canonical(a) == canonical(b),
{
}

/// The order is transitive.
pub proof fn law_total_le_transitive(a: u32, b: u32, c: u32)
    requires
        total_le(a, b),
        total_le(b, c),
    ensures
        total_le(a, c),
{
}

/// The order is total: of two patterns one comes no later than the other.
pub proof fn law_total_le_total(a: u32, b: u32)
    ensures
        total_le(a, b) || total_le(b, a),
{
}

/// Two patterns hold the same place exactly when they are the same number, two
/// zeros or two NaNs.
pub proof fn law_total_eq(a: u32, b: u32)
    ensures
        total_eq(a, b) <==> {
            ||| a == b
            ||| magnitude(a) == 0 && magnitude(b) == 0
            ||| is_nan(a) && is_nan(b)
        },
{
}

} // verus!
