//! Single-precision numbers by their bit patterns.
//!
//! Comparing and clamping need no arithmetic: the order of IEEE 754 numbers is
//! the order of their bit patterns read as sign and magnitude.
use vstd::prelude::*;

verus! {

/// A single-precision number, held as its IEEE 754 bit pattern.
#[derive(Clone, Copy, PartialEq, Eq, Debug, Structural)]
pub struct Real32 {
    pub bits: u32,
}

impl Real32 {
    /// Whether the pattern stands for no number: all exponent bits set and a
    /// mantissa that is not zero.
    pub open spec fn is_nan_spec(self) -> bool {
        self.bits as int % 0x8000_0000 > 0x7F80_0000
    }

    /// The place of the number in numeric order. Both zeroes share place 0.
    pub open spec fn rank(self) -> int {
        if self.bits < 0x8000_0000 {
            self.bits as int
        } else {
            0x8000_0000 - self.bits
        }
    }

    /// The number within `lo..=hi`, with `default` in place of no number.
    pub open spec fn clamped(self, lo: Real32, hi: Real32, default: Real32) -> Real32 {
        let v = if self.is_nan_spec() {
            default
        } else {
            self
        };
        if v.rank() < lo.rank() {
            lo
        } else if v.rank() > hi.rank() {
            hi
        } else {
            v
        }
    }

    pub fn is_nan(self) -> (b: bool)
        ensures
            b == self.is_nan_spec(),
    {
        let magnitude: u32 = if self.bits < 0x8000_0000 {
            self.bits
        } else {
            self.bits - 0x8000_0000
        };
        magnitude > 0x7F80_0000
    }

    fn place(self) -> (r: i64)
        ensures
            r == self.rank(),
    {
        if self.bits < 0x8000_0000 {
            self.bits as i64
        } else {
            0x8000_0000 - self.bits as i64
        }
    }

    /// Whether this number is below `other`.
    pub fn below(self, other: Real32) -> (b: bool)
        ensures
            b == (!self.is_nan_spec() && !other.is_nan_spec() && self.rank() < other.rank()),
    {
        !self.is_nan() && !other.is_nan() && self.place() < other.place()
    }

    /// The number within `lo..=hi`, with `default` in place of no number.
    pub fn clamp(self, lo: Real32, hi: Real32, default: Real32) -> (r: Real32)
        ensures
            r == self.clamped(lo, hi, default),
    {
        let v = if self.is_nan() {
            default
        } else {
            self
        };
        if v.place() < lo.place() {
            lo
        } else if v.place() > hi.place() {
            hi
        } else {
            v
        }
    }
}

/// Clamping gives a number in range, and clamping again changes nothing.
pub proof fn lemma_clamp_is_stable(v: Real32, lo: Real32, hi: Real32, default: Real32)
    requires
        lo.rank() <= hi.rank(),
        !lo.is_nan_spec(),
        !hi.is_nan_spec(),
        !default.is_nan_spec(),
    ensures
        !v.clamped(lo, hi, default).is_nan_spec(),
        lo.rank() <= v.clamped(lo, hi, default).rank() <= hi.rank(),
        v.clamped(lo, hi, default).clamped(lo, hi, default) == v.clamped(lo, hi, default),
{
}

} // verus!
