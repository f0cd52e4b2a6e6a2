//! IEEE-754 binary32 values, held by their bit patterns.
//!
//! The library moves, compares, negates and clamps such values; sums, products
//! and transcendental functions of them are computed by its callers.

use vstd::prelude::*;

verus! {

/// Bit weight of the sign.
pub const SIGN_BIT: u32 = 0x8000_0000;

/// Bit pattern of positive infinity; larger magnitudes are NaNs.
pub const INFINITY_BITS: u32 = 0x7f80_0000;

/// A binary32 value, by its bit pattern. `==` compares the patterns;
/// [`Scalar::is_equal`] compares the values.
#[derive(Clone, Copy, Debug, PartialEq, Eq, Structural)]
pub struct Scalar {
    pub bits: u32,
}

/// Bit pattern of `0.0`.
pub const ZERO_BITS: u32 = 0;

/// Bit pattern of `1.0`.
pub const ONE_BITS: u32 = 0x3f80_0000;

/// Bit pattern of `-1.0`.
pub const MINUS_ONE_BITS: u32 = 0xbf80_0000;

impl Scalar {
    /// Whether the sign bit is set.
    pub open spec fn negative(self) -> bool {
        self.bits >= SIGN_BIT
    }

    /// The bit pattern without its sign.
    pub open spec fn magnitude(self) -> int {
        if self.negative() {
            self.bits - SIGN_BIT
        } else {
            self.bits as int
        }
    }

    /// Not a number.
    pub open spec fn nan(self) -> bool {
        self.magnitude() > INFINITY_BITS
    }

    /// Orders the numbers as their values: for values that are not NaN,
    /// `a.rank() < b.rank()` holds exactly where `a < b`, and the two zeros
    /// have the same rank.
    pub open spec fn rank(self) -> int {
        if self.negative() {
            -self.magnitude()
        } else {
            self.magnitude()
        }
    }

    /// Orders every bit pattern: negative NaNs first, then the numbers with
    /// `-0.0` before `0.0`, then the positive NaNs.
    pub open spec fn total_rank(self) -> int {
        if self.negative() {
            -self.magnitude() - 1
        } else {
            self.magnitude()
        }
    }

    /// `self < other`; false where either is NaN.
    pub open spec fn below(self, other: Scalar) -> bool {
        !self.nan() && !other.nan() && self.rank() < other.rank()
    }

    /// `self <= other`; false where either is NaN.
    pub open spec fn at_most(self, other: Scalar) -> bool {
        !self.nan() && !other.nan() && self.rank() <= other.rank()
    }

    /// `self == other` by value: the two zeros are equal, and a NaN equals
    /// nothing.
    pub open spec fn equals(self, other: Scalar) -> bool {
        !self.nan() && !other.nan() && self.rank() == other.rank()
    }

    /// `self` with its sign flipped.
    pub open spec fn negated(self) -> Scalar {
        Scalar {
            bits: if self.negative() {
                (self.bits - SIGN_BIT) as u32
            } else {
                (self.bits + SIGN_BIT) as u32
            },
        }
    }

    /// `self` moved into `lo..=hi`; a NaN stays as it is.
    pub open spec fn clamped(self, lo: Scalar, hi: Scalar) -> Scalar {
        if self.below(lo) {
            lo
        } else if hi.below(self) {
            hi
        } else {
            self
        }
    }

    /// The smaller of the two, the other one where one is NaN.
    pub open spec fn smaller(self, other: Scalar) -> Scalar {
        if self.nan() || other.below(self) {
            other
        } else {
            self
        }
    }

    /// The larger of the two, the other one where one is NaN.
    pub open spec fn larger(self, other: Scalar) -> Scalar {
        if self.nan() || self.below(other) {
            other
        } else {
            self
        }
    }

    /// The value `0.0`.
    pub open spec fn spec_zero() -> Scalar {
        Scalar { bits: ZERO_BITS }
    }

    /// The value `1.0`.
    pub open spec fn spec_one() -> Scalar {
        Scalar { bits: ONE_BITS }
    }

    /// The value `0.0`.
    #[verifier::when_used_as_spec(spec_zero)]
    pub fn zero() -> (r: Scalar)
        ensures
            r == Scalar::spec_zero(),
    {
        Scalar { bits: ZERO_BITS }
    }

    /// The value `1.0`.
    #[verifier::when_used_as_spec(spec_one)]
    pub fn one() -> (r: Scalar)
        ensures
            r == Scalar::spec_one(),
    {
        Scalar { bits: ONE_BITS }
    }

    /// The bit pattern without its sign.
    fn unsigned(self) -> (m: u32)
        ensures
            m == self.magnitude(),
    {
        if self.bits >= SIGN_BIT {
            self.bits - SIGN_BIT
        } else {
            self.bits
        }
    }

    /// Whether the value is NaN.
    pub fn is_nan(self) -> (b: bool)
        ensures
            b == self.nan(),
    {
        self.unsigned() > INFINITY_BITS
    }

    /// `self < other`.
    pub fn is_below(self, other: Scalar) -> (b: bool)
        ensures
            b == self.below(other),
    {
        let left: i64 = self.unsigned() as i64;
        let right: i64 = other.unsigned() as i64;
        let left_rank: i64 = if self.bits >= SIGN_BIT {
            -left
        } else {
            left
        };
        let right_rank: i64 = if other.bits >= SIGN_BIT {
            -right
        } else {
            right
        };
        !self.is_nan() && !other.is_nan() && left_rank < right_rank
    }

    /// `self <= other`.
    pub fn is_at_most(self, other: Scalar) -> (b: bool)
        ensures
            b == self.at_most(other),
    {
        !self.is_nan() && !other.is_nan() && !other.is_below(self)
    }

    /// `self == other` by value.
    pub fn is_equal(self, other: Scalar) -> (b: bool)
        ensures
            b == self.equals(other),
    {
        self.is_at_most(other) && other.is_at_most(self)
    }

    /// `-self`.
    pub fn neg(self) -> (r: Scalar)
        ensures
            r == self.negated(),
    {
        if self.bits >= SIGN_BIT {
            Scalar { bits: self.bits - SIGN_BIT }
        } else {
            Scalar { bits: self.bits + SIGN_BIT }
        }
    }

    /// `self` moved into `lo..=hi`.
    pub fn clamp(self, lo: Scalar, hi: Scalar) -> (r: Scalar)
        requires
            lo.at_most(hi),
        ensures
            r == self.clamped(lo, hi),
    {
        if self.is_below(lo) {
            lo
        } else if hi.is_below(self) {
            hi
        } else {
            self
        }
    }

    /// The smaller of the two.
    pub fn min(self, other: Scalar) -> (r: Scalar)
        ensures
            r == self.smaller(other),
    {
        if self.is_nan() || other.is_below(self) {
            other
        } else {
            self
        }
    }

    /// The larger of the two.
    pub fn max(self, other: Scalar) -> (r: Scalar)
        ensures
            r == self.larger(other),
    {
        if self.is_nan() || self.is_below(other) {
            other
        } else {
            self
        }
    }

    /// Whether `self` comes strictly before `other` in the total order of bit
    /// patterns.
    pub fn is_before(self, other: Scalar) -> (b: bool)
        ensures
            b == (self.total_rank() < other.total_rank()),
    {
        let left: i64 = self.unsigned() as i64;
        let right: i64 = other.unsigned() as i64;
        let left_rank: i64 = if self.bits >= SIGN_BIT {
            -left - 1
        } else {
            left
        };
        let right_rank: i64 = if other.bits >= SIGN_BIT {
            -right - 1
        } else {
            right
        };
        left_rank < right_rank
    }
}

/// Flipping a sign twice gives back the value, bit for bit.
pub proof fn law_negation_is_an_involution(x: Scalar)
    ensures
        x.negated().negated() == x,
{
}

/// A value that is no NaN, clamped, lies between the bounds.
pub proof fn law_clamp_stays_in_bounds(x: Scalar, lo: Scalar, hi: Scalar)
    requires
        lo.at_most(hi),
        !x.nan(),
    ensures
        lo.at_most(x.clamped(lo, hi)),
        x.clamped(lo, hi).at_most(hi),
{
}

/// The patterns with the exponent all ones and some fraction are the NaNs,
/// whatever their sign, and no comparison of values holds with one.
pub proof fn law_nan_compares_with_nothing(a: Scalar, b: Scalar)
    ensures
        a.nan() <==> 0x7f80_0000 < a.bits < 0x8000_0000 || 0xff80_0000 < a.bits,
        a.nan() ==> !a.below(b) && !b.below(a) && !a.at_most(b) && !b.at_most(a) && !a.equals(b)
            && !b.equals(a),
{
}

/// Numbers without a sign are ordered as their patterns, those with a sign in
/// reverse, and every number with a sign lies below every one without, but for
/// the two zeros, which are equal.
pub proof fn law_values_are_ordered_by_their_patterns(a: Scalar, b: Scalar)
    requires
        !a.nan(),
        !b.nan(),
    ensures
        a.bits < 0x8000_0000 && b.bits < 0x8000_0000 ==> {
            &&& a.below(b) == (a.bits < b.bits)
            &&& a.at_most(b) == (a.bits <= b.bits)
            &&& a.equals(b) == (a.bits == b.bits)
        },
        a.bits >= 0x8000_0000 && b.bits >= 0x8000_0000 ==> {
            &&& a.below(b) == (a.bits > b.bits)
            &&& a.at_most(b) == (a.bits >= b.bits)
            &&& a.equals(b) == (a.bits == b.bits)
        },
        a.bits >= 0x8000_0000 && b.bits < 0x8000_0000 ==> {
            let zeros = a.bits == 0x8000_0000 && b.bits == 0;
            &&& a.below(b) == !zeros
            &&& a.at_most(b)
            &&& !b.below(a)
            &&& b.at_most(a) == zeros
            &&& a.equals(b) == zeros
            &&& b.equals(a) == zeros
        },
{
}

/// Every pattern has its place in the total order: those with a sign first and
/// in reverse, then those without.
pub proof fn law_total_order_is_by_sign_and_pattern(a: Scalar, b: Scalar)
    ensures
        a.bits < 0x8000_0000 && b.bits < 0x8000_0000 ==> (a.total_rank() < b.total_rank() <==> a.bits
            < b.bits),
        a.bits >= 0x8000_0000 && b.bits >= 0x8000_0000 ==> (a.total_rank() < b.total_rank()
            <==> a.bits > b.bits),
        a.bits >= 0x8000_0000 && b.bits < 0x8000_0000 ==> a.total_rank() < b.total_rank(),
        a.total_rank() == b.total_rank() <==> a.bits == b.bits,
{
}

/// A negated value differs in its sign bit and in nothing else.
pub proof fn law_negation_flips_the_sign_bit(x: Scalar)
    ensures
        x.bits < 0x8000_0000 ==> x.negated().bits == x.bits + 0x8000_0000,
        x.bits >= 0x8000_0000 ==> x.negated().bits == x.bits - 0x8000_0000,
{
}

/// Clamping leaves a value within the bounds as it is, bit for bit, and moves
/// any other to the bound that it is beyond.
pub proof fn law_clamp_moves_only_what_is_outside(x: Scalar, lo: Scalar, hi: Scalar)
    requires
        lo.at_most(hi),
    ensures
        lo.at_most(x) && x.at_most(hi) ==> x.clamped(lo, hi) == x,
        x.below(lo) ==> x.clamped(lo, hi) == lo,
        hi.below(x) ==> x.clamped(lo, hi) == hi,
        x.nan() ==> x.clamped(lo, hi) == x,
{
}

/// The smaller of two values is one of them and above neither, the larger one
/// of them and below neither; of equal ones it is the first, and beside a NaN
/// the other one.
pub proof fn law_smaller_and_larger_bound_both(a: Scalar, b: Scalar)
    ensures
        !a.nan() && !b.nan() ==> {
            &&& a.smaller(b).at_most(a) && a.smaller(b).at_most(b)
            &&& a.at_most(a.larger(b)) && b.at_most(a.larger(b))
            &&& a.below(b) ==> a.smaller(b) == a && a.larger(b) == b
            &&& b.below(a) ==> a.smaller(b) == b && a.larger(b) == a
            &&& a.equals(b) ==> a.smaller(b) == a && a.larger(b) == a
        },
        a.nan() ==> a.smaller(b) == b && a.larger(b) == b,
        b.nan() && !a.nan() ==> a.smaller(b) == a && a.larger(b) == a,
        Scalar::spec_zero().bits == 0,
        Scalar::spec_one().bits == 0x3f80_0000,
{
}

} // verus!
