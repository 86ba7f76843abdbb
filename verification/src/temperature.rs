//! Temperatures as the sensors report them: single-precision IEEE-754 values,
//! held here by their bit pattern so that comparisons can be stated and proved
//! over integers.
use vstd::prelude::*;

verus! {

/// A temperature, held as the bit pattern of an IEEE-754 single-precision value.
///
/// `==` on this type compares bit patterns; ordering is given by `less_than`,
/// which follows IEEE comparison: NaN is unordered and `+0` equals `-0`.
#[derive(Clone, Copy, Debug, PartialEq, Eq, Structural)]
pub struct Temperature {
    pub bits: u32,
}

/// The sign bit is set.
pub open spec fn sign_set(bits: u32) -> bool {
    bits >= 0x8000_0000
}

/// The bit pattern without its sign bit.
pub open spec fn magnitude(bits: u32) -> int {
    if sign_set(bits) {
        bits - 0x8000_0000
    } else {
        bits as int
    }
}

/// The pattern encodes NaN: all exponent bits set and a non-zero fraction.
pub open spec fn encodes_nan(bits: u32) -> bool {
    magnitude(bits) > 0x7f80_0000
}

/// An integer that orders all non-NaN patterns as their values are ordered.
pub open spec fn order_key(bits: u32) -> int {
    if sign_set(bits) {
        -magnitude(bits)
    } else {
        magnitude(bits)
    }
}

impl Temperature {
    pub open spec fn is_nan(self) -> bool {
        encodes_nan(self.bits)
    }

    /// `self < other` as IEEE-754 compares the two values.
    pub open spec fn below(self, other: Temperature) -> bool {
        !self.is_nan() && !other.is_nan() && order_key(self.bits) < order_key(other.bits)
    }

    /// Decides `self < other` as IEEE-754 compares the two values.
    pub fn less_than(&self, other: &Temperature) -> (r: bool)
        ensures
            r == self.below(*other),
    {
        let a = self.bits;
        let b = other.bits;
        let a_mag: u32 = if a >= 0x8000_0000 { a - 0x8000_0000 } else { a };
        let b_mag: u32 = if b >= 0x8000_0000 { b - 0x8000_0000 } else { b };
        if a_mag > 0x7f80_0000 || b_mag > 0x7f80_0000 {
            return false;
        }
        let a_key: i64 = if a >= 0x8000_0000 { -(a_mag as i64) } else { a_mag as i64 };
        let b_key: i64 = if b >= 0x8000_0000 { -(b_mag as i64) } else { b_mag as i64 };
        a_key < b_key
    }

    /// Positive zero.
    pub fn zero() -> (t: Temperature)
        ensures
            t.bits == 0,
    {
        Temperature { bits: 0 }
    }
}

/// No temperature is below itself.
pub proof fn lemma_below_irreflexive(a: Temperature)
    ensures
        !a.below(a),
{
}

/// Of two temperatures at most one is below the other.
pub proof fn lemma_below_asymmetric(a: Temperature, b: Temperature)
    ensures
        !(a.below(b) && b.below(a)),
{
}

/// Being below is transitive.
pub proof fn lemma_below_transitive(a: Temperature, b: Temperature, c: Temperature)
    requires
        a.below(b),
        b.below(c),
    ensures
        a.below(c),
{
}

/// NaN is neither below nor above any temperature.
pub proof fn lemma_nan_unordered(a: Temperature, b: Temperature)
    requires
        a.is_nan(),
    ensures
        !a.below(b),
        !b.below(a),
{
}

/// Positive and negative zero are neither below the other.
pub proof fn lemma_zeros_equal()
    ensures
        !(Temperature { bits: 0 }).below(Temperature { bits: 0x8000_0000 }),
        !(Temperature { bits: 0x8000_0000 }).below(Temperature { bits: 0 }),
{
}

/// `below` is the IEEE-754 order of single-precision values, read off their
/// bit patterns: a pattern whose magnitude (the bits below the sign) exceeds
/// that of infinity is NaN and unordered; two non-negative values are ordered
/// as their patterns; two negative values in the reverse order of their
/// patterns; a negative value is below a non-negative one unless both are
/// zeros; a non-negative value is never below a negative one.
pub proof fn lemma_below_is_ieee_order(a: Temperature, b: Temperature)
    ensures
        a.bits % 0x8000_0000 > 0x7f80_0000 ==> !a.below(b) && !b.below(a),
        (a.bits % 0x8000_0000 <= 0x7f80_0000 && b.bits % 0x8000_0000 <= 0x7f80_0000) ==> {
            &&& (a.bits < 0x8000_0000 && b.bits < 0x8000_0000) ==> (a.below(b) <==> a.bits
                < b.bits)
            &&& (a.bits >= 0x8000_0000 && b.bits >= 0x8000_0000) ==> (a.below(b) <==> b.bits
                < a.bits)
            &&& (a.bits >= 0x8000_0000 && b.bits < 0x8000_0000) ==> (a.below(b) <==> !(a.bits
                == 0x8000_0000 && b.bits == 0))
            &&& (a.bits < 0x8000_0000 && b.bits >= 0x8000_0000) ==> !a.below(b)
        },
{
    assert(magnitude(a.bits) == a.bits % 0x8000_0000);
    assert(magnitude(b.bits) == b.bits % 0x8000_0000);
}

} // verus!
