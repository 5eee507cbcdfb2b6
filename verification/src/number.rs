//! 32-bit floating-point values carried as their bit patterns.
//!
//! The library stores, compares and clamps such values; it never adds or
//! multiplies them. Comparing is exact on the bits: without the sign bit the
//! patterns are ordered as the numbers are.
use vstd::prelude::*;

use vstd::arithmetic::power2::lemma2_to64;
use vstd::arithmetic::power2::lemma_pow2_unfold;
use vstd::arithmetic::power2::pow2;

verus! {

/// How many bits it takes to write `n`.
pub open spec fn width(n: int) -> nat
    decreases n,
{
    if n <= 0 {
        0
    } else {
        1 + width(n / 2)
    }
}

/// A number that is written with `k` bits is at least as large as the highest
/// of them, and less than twice that.
pub proof fn lemma_width(n: int)
    requires
        n > 0,
    ensures
        width(n) >= 1,
        pow2((width(n) - 1) as nat) <= n < pow2(width(n)),
    decreases n,
{
    lemma2_to64();
    if n == 1 {
        assert(width(1) == 1) by {
            reveal_with_fuel(width, 2);
        }
    } else {
        lemma_width(n / 2);
        lemma_pow2_unfold((width(n) - 1) as nat);
        lemma_pow2_unfold(width(n));
    }
}

/// A 32-bit IEEE 754 value, held as its bits.
#[derive(Debug, Clone, Copy, PartialEq, Eq, Hash, Structural)]
pub struct Real32 {
    pub bits: u32,
}

/// The bits of the value 0.
pub const ZERO_BITS: u32 = 0;

/// The bits of the value 1.
pub const ONE_BITS: u32 = 0x3f80_0000;

/// The bits of the value one half.
pub const HALF_BITS: u32 = 0x3f00_0000;

impl Real32 {
    /// Not a number: all exponent bits set and a fraction.
    pub open spec fn nan(self) -> bool {
        self.bits % 0x8000_0000 > 0x7f80_0000
    }

    /// The rank of the value among all that are numbers: equal for the two
    /// zeros, else in the order of the values.
    pub open spec fn rank(self) -> int {
        if self.bits < 0x8000_0000 {
            self.bits as int
        } else {
            0x8000_0000 - self.bits
        }
    }

    /// The value is less than `other`; false where either is not a number.
    pub open spec fn below(self, other: Real32) -> bool {
        !self.nan() && !other.nan() && self.rank() < other.rank()
    }

    /// The value is at most `other`; false where either is not a number.
    pub open spec fn at_most(self, other: Real32) -> bool {
        !self.nan() && !other.nan() && self.rank() <= other.rank()
    }

    /// A value that is not negative, counted in the smallest step between
    /// values, which is 2 to the power of -149.
    pub open spec fn steps(self) -> int {
        let k = self.rank();
        if k < 0x80_0000 {
            k
        } else {
            (0x80_0000 + k % 0x80_0000) * pow2((k / 0x80_0000 - 1) as nat)
        }
    }

    /// Two values that are not negative differ by less than a thousandth.
    pub open spec fn near(self, other: Real32) -> bool {
        -pow2(149) < 1000 * (self.steps() - other.steps()) < pow2(149)
    }

    /// The value held between `lo` and `hi`; what is not a number stays so.
    pub open spec fn clamped(self, lo: Real32, hi: Real32) -> Real32 {
        if self.below(lo) {
            lo
        } else if hi.below(self) {
            hi
        } else {
            self
        }
    }

    /// The larger of two values, or the one that is a number.
    pub open spec fn larger(self, other: Real32) -> Real32 {
        if self.nan() || self.below(other) {
            other
        } else {
            self
        }
    }

    /// The smaller of two values, or the one that is a number.
    pub open spec fn smaller(self, other: Real32) -> Real32 {
        if self.nan() || other.below(self) {
            other
        } else {
            self
        }
    }

    /// The value without its sign.
    pub open spec fn unsigned(self) -> Real32 {
        Real32 { bits: self.bits % 0x8000_0000 }
    }

    pub fn is_nan(self) -> (r: bool)
        ensures
            r == self.nan(),
    {
        self.bits % 0x8000_0000 > 0x7f80_0000
    }

    /// `self < other`.
    pub fn lt(self, other: Real32) -> (r: bool)
        ensures
            r == self.below(other),
    {
        if self.is_nan() || other.is_nan() {
            false
        } else if self.bits < 0x8000_0000 {
            other.bits < 0x8000_0000 && self.bits < other.bits
        } else {
            if other.bits < 0x8000_0000 {
                self.bits != 0x8000_0000 || other.bits != 0
            } else {
                self.bits > other.bits
            }
        }
    }

    /// `self <= other`.
    pub fn le(self, other: Real32) -> (r: bool)
        ensures
            r == self.at_most(other),
    {
        !self.is_nan() && !other.is_nan() && !other.lt(self)
    }

    /// The value held between `lo` and `hi`.
    pub fn clamp(self, lo: Real32, hi: Real32) -> (r: Real32)
        ensures
            r == self.clamped(lo, hi),
    {
        if self.lt(lo) {
            lo
        } else if hi.lt(self) {
            hi
        } else {
            self
        }
    }

    /// The larger of two values, or the one that is a number.
    pub fn max(self, other: Real32) -> (r: Real32)
        ensures
            r == self.larger(other),
    {
        if self.is_nan() || self.lt(other) {
            other
        } else {
            self
        }
    }

    /// The smaller of two values, or the one that is a number.
    pub fn min(self, other: Real32) -> (r: Real32)
        ensures
            r == self.smaller(other),
    {
        if self.is_nan() || other.lt(self) {
            other
        } else {
            self
        }
    }

    /// The value without its sign.
    pub fn abs(self) -> (r: Real32)
        ensures
            r == self.unsigned(),
    {
        Real32 { bits: self.bits % 0x8000_0000 }
    }
}

/// A clamped number lies within its bounds, and clamping again changes
/// nothing.
pub proof fn clamp_stays_in_bounds(x: Real32, lo: Real32, hi: Real32)
    requires
        lo.at_most(hi),
        !x.nan(),
    ensures
        lo.at_most(x.clamped(lo, hi)),
        x.clamped(lo, hi).at_most(hi),
        x.clamped(lo, hi).clamped(lo, hi) == x.clamped(lo, hi),
{
}

} // verus!
