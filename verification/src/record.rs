//! What a table stores: records that carry a key, can be compared and
//! copied, and have a place in the wire format.

use crate::codec::Wire;
use vstd::prelude::*;

verus! {

/// A value a table can hold.
pub trait Record: Wire {
    /// The key the record names itself by.
    spec fn key_of(v: Self::V) -> u32;

    /// Full value equality, by which a write is told from a repeat.
    spec fn same(a: Self::V, b: Self::V) -> bool;

    /// The key the record names itself by.
    fn key(&self) -> (k: u32)
        ensures
            k == Self::key_of(self.deep_view()),
    ;

    /// Whether the two records are equal.
    fn equals(&self, other: &Self) -> (b: bool)
        ensures
            b == Self::same(self.deep_view(), other.deep_view()),
    ;

    /// A copy of the record.
    fn duplicate(&self) -> (r: Self)
        ensures
            r.deep_view() == self.deep_view(),
    ;
}

/// Whether `bits`, read as an IEEE-754 single, is a NaN.
pub open spec fn is_nan(bits: u32) -> bool {
    bits & 0x7fff_ffff > 0x7f80_0000
}

/// Whether `bits`, read as an IEEE-754 single, is zero of either sign.
pub open spec fn is_zero(bits: u32) -> bool {
    bits & 0x7fff_ffff == 0
}

/// Equality of two IEEE-754 singles given by their bit patterns: a NaN
/// equals nothing, the two zeros equal each other, and any other number
/// equals only itself.
pub open spec fn single_eq(a: u32, b: u32) -> bool {
    !is_nan(a) && !is_nan(b) && (a == b || (is_zero(a) && is_zero(b)))
}

/// Compares two singles held as bit patterns the way the numbers compare.
pub fn singles_equal(a: u32, b: u32) -> (r: bool)
    ensures
        r == single_eq(a, b),
{
    let a_nan: bool = a & 0x7fff_ffff > 0x7f80_0000;
    let b_nan: bool = b & 0x7fff_ffff > 0x7f80_0000;
    !a_nan && !b_nan && (a == b || (a & 0x7fff_ffff == 0 && b & 0x7fff_ffff == 0))
}

} // verus!
