//! IEEE-754 values held as their bit patterns.
//!
//! The library never does arithmetic on audio samples or on statistics. It stores them, compares
//! them and asks whether they are zero or finite, and for that the bit pattern is enough: a pattern
//! is a sign bit over a magnitude, the magnitudes of one sign are ordered as the values are, and
//! the magnitudes above the one of infinity are the NaNs.

use vstd::prelude::*;

verus! {

/// Sign bit of a single.
pub const SINGLE_SIGN: u32 = 0x8000_0000;

/// Magnitude of a single infinity.
pub const SINGLE_INFINITY: u32 = 0x7f80_0000;

/// Sign bit of a double.
pub const DOUBLE_SIGN: u64 = 0x8000_0000_0000_0000;

/// Magnitude of a double infinity.
pub const DOUBLE_INFINITY: u64 = 0x7ff0_0000_0000_0000;

/// A 32-bit IEEE-754 sample, by its bit pattern.
#[derive(Clone, Copy, Debug, PartialEq, Eq, Structural)]
pub struct Single {
    pub bits: u32,
}

/// A 64-bit IEEE-754 value, by its bit pattern.
#[derive(Clone, Copy, Debug, PartialEq, Eq, Structural)]
pub struct Double {
    pub bits: u64,
}

/// One stereo frame.
#[derive(Clone, Copy, Debug, PartialEq, Eq, Structural)]
pub struct Frame {
    pub left: Single,
    pub right: Single,
}

impl Single {
    /// The pattern without its sign.
    pub open spec fn magnitude(self) -> int {
        if self.bits >= SINGLE_SIGN { self.bits - SINGLE_SIGN } else { self.bits as int }
    }

    /// Neither infinite nor NaN.
    pub open spec fn finite(self) -> bool {
        self.magnitude() < SINGLE_INFINITY
    }

    /// `0.0` or `-0.0`.
    pub open spec fn zero(self) -> bool {
        self.magnitude() == 0
    }

    pub fn is_finite(self) -> (r: bool)
        ensures
            r == self.finite(),
    {
        if self.bits >= SINGLE_SIGN {
            self.bits - SINGLE_SIGN < SINGLE_INFINITY
        } else {
            self.bits < SINGLE_INFINITY
        }
    }

    pub fn is_zero(self) -> (r: bool)
        ensures
            r == self.zero(),
    {
        self.bits == 0 || self.bits == SINGLE_SIGN
    }
}

impl Double {
    /// The pattern without its sign.
    pub open spec fn magnitude(self) -> int {
        if self.bits >= DOUBLE_SIGN { self.bits - DOUBLE_SIGN } else { self.bits as int }
    }

    pub open spec fn nan(self) -> bool {
        self.magnitude() > DOUBLE_INFINITY
    }

    /// Neither infinite nor NaN.
    pub open spec fn finite(self) -> bool {
        self.magnitude() < DOUBLE_INFINITY
    }

    /// An integer that orders the patterns that are no NaN as their values are ordered; the two
    /// zeros share one.
    pub open spec fn rank(self) -> int {
        if self.bits >= DOUBLE_SIGN { -self.magnitude() } else { self.magnitude() }
    }

    /// The value of `self` is greater than that of `other`: false where either is a NaN.
    pub open spec fn above(self, other: Double) -> bool {
        !self.nan() && !other.nan() && self.rank() > other.rank()
    }

    /// The value of `self` is at most that of `other`: false where either is a NaN.
    pub open spec fn at_most(self, other: Double) -> bool {
        !self.nan() && !other.nan() && self.rank() <= other.rank()
    }

    /// Positive zero.
    pub open spec fn spec_zero() -> Double {
        Double { bits: 0 }
    }

    pub fn zero() -> (r: Double)
        ensures
            r == Double::spec_zero(),
    {
        Double { bits: 0 }
    }

    fn unsigned(self) -> (r: u64)
        ensures
            r == self.magnitude(),
            r < DOUBLE_SIGN,
    {
        if self.bits >= DOUBLE_SIGN { self.bits - DOUBLE_SIGN } else { self.bits }
    }

    pub fn is_nan(self) -> (r: bool)
        ensures
            r == self.nan(),
    {
        self.unsigned() > DOUBLE_INFINITY
    }

    pub fn is_finite(self) -> (r: bool)
        ensures
            r == self.finite(),
    {
        self.unsigned() < DOUBLE_INFINITY
    }

    /// `self > other`.
    pub fn gt(self, other: Double) -> (r: bool)
        ensures
            r == self.above(other),
    {
        if self.is_nan() || other.is_nan() {
            return false;
        }
        if self.bits >= DOUBLE_SIGN {
            other.bits >= DOUBLE_SIGN && self.unsigned() < other.unsigned()
        } else if other.bits >= DOUBLE_SIGN {
            self.unsigned() > 0 || other.unsigned() > 0
        } else {
            self.bits > other.bits
        }
    }

    /// `self <= other`.
    pub fn le(self, other: Double) -> (r: bool)
        ensures
            r == self.at_most(other),
    {
        !self.is_nan() && !other.is_nan() && !self.gt(other)
    }
}

impl Frame {
    /// Both channels are zero.
    pub open spec fn silent(self) -> bool {
        self.left.zero() && self.right.zero()
    }

    pub open spec fn spec_silence() -> Frame {
        Frame { left: Single { bits: 0 }, right: Single { bits: 0 } }
    }

    /// A frame of two positive zeros.
    pub fn silence() -> (r: Frame)
        ensures
            r == Frame::spec_silence(),
    {
        Frame { left: Single { bits: 0 }, right: Single { bits: 0 } }
    }

    pub fn is_silent(self) -> (r: bool)
        ensures
            r == self.silent(),
    {
        self.left.is_zero() && self.right.is_zero()
    }
}

/// What a pattern stands for is in its fields: a value is finite where the exponent field is not
/// full, a NaN where it is full over a mantissa other than zero, and zero where all bits but the
/// sign are clear.
pub proof fn values_are_told_by_their_fields(s: Single, d: Double)
    ensures
        s.finite() <==> s.bits / 0x80_0000 % 0x100 != 0xff,
        s.zero() <==> s.bits == 0 || s.bits == 0x8000_0000,
        d.finite() <==> d.bits / 0x10_0000_0000_0000 % 0x800 != 0x7ff,
        d.nan() <==> d.bits / 0x10_0000_0000_0000 % 0x800 == 0x7ff && d.bits % 0x10_0000_0000_0000 != 0,
{
}

/// Values of unlike sign are ordered by it, the two zeros being equal; positive values are ordered
/// as their patterns are, negative ones the other way round; and no NaN is ordered at all.
pub proof fn doubles_are_ordered_by_value(a: Double, b: Double)
    ensures
        a.nan() || b.nan() ==> !a.above(b) && !a.at_most(b),
        !a.nan() && !b.nan() ==> {
            &&& a.at_most(b) <==> !a.above(b)
            &&& a.bits < 0x8000_0000_0000_0000 && b.bits < 0x8000_0000_0000_0000 ==> (a.above(b) <==> a.bits
                > b.bits)
            &&& a.bits >= 0x8000_0000_0000_0000 && b.bits >= 0x8000_0000_0000_0000 ==> (a.above(b) <==> a.bits
                < b.bits)
            &&& a.bits < 0x8000_0000_0000_0000 && b.bits >= 0x8000_0000_0000_0000 ==> (a.above(b) <==> a.bits
                != 0 || b.bits != 0x8000_0000_0000_0000)
            &&& a.bits >= 0x8000_0000_0000_0000 && b.bits < 0x8000_0000_0000_0000 ==> !a.above(b)
        },
{
}

/// A frame is silent where each of its two samples is a zero of either sign.
pub proof fn a_silent_frame_has_two_zeros(f: Frame)
    ensures
        f.silent() <==> (f.left.bits == 0 || f.left.bits == 0x8000_0000) && (f.right.bits == 0
            || f.right.bits == 0x8000_0000),
        Frame::spec_silence().left.bits == 0 && Frame::spec_silence().right.bits == 0,
        Double::spec_zero().bits == 0,
{
}

} // verus!
