//! Binary64 values carried by their IEEE-754 encoding, with the comparisons
//! that the bookkeeping needs, stated over the encoding.

use vstd::prelude::*;

verus! {

/// The sign bit of a binary64 encoding.
pub const SIGN_BIT: u64 = 0x8000_0000_0000_0000;

/// The encoding of positive infinity: a magnitude above it encodes a NaN.
pub const POSITIVE_INFINITY_BITS: u64 = 0x7FF0_0000_0000_0000;

/// The encoding of the most negative finite-or-infinite value (negative infinity).
pub const NEGATIVE_INFINITY_BITS: u64 = 0xFFF0_0000_0000_0000;

/// A binary64 floating-point value, held by its IEEE-754 encoding.
#[derive(Clone, Copy, Debug)]
pub struct Float64 {
    pub bits: u64,
}

impl Float64 {
    /// The encoding without its sign bit.
    pub open spec fn magnitude(self) -> int {
        if self.bits >= SIGN_BIT {
            self.bits - SIGN_BIT
        } else {
            self.bits as int
        }
    }

    /// The encoding is a NaN (not a number).
    pub open spec fn nan(self) -> bool {
        self.magnitude() > POSITIVE_INFINITY_BITS
    }

    /// The position of a non-NaN value on the number line: among non-NaN
    /// encodings, one value is below another exactly when its key is smaller,
    /// and the two zeros share the key 0.
    pub open spec fn key(self) -> int {
        if self.bits >= SIGN_BIT {
            -self.magnitude()
        } else {
            self.magnitude()
        }
    }

    /// `self < other` as binary64 values: false whenever a NaN is involved.
    pub open spec fn less(self, other: Float64) -> bool {
        !self.nan() && !other.nan() && self.key() < other.key()
    }

    /// `self == other` as binary64 values: NaN equals nothing, `-0.0 == 0.0`.
    pub open spec fn same_value(self, other: Float64) -> bool {
        !self.nan() && !other.nan() && self.key() == other.key()
    }

    /// `self < 0.0` as a binary64 value.
    pub open spec fn negative(self) -> bool {
        self.less(Float64 { bits: 0 })
    }

    /// The key by which values are ranked: the number-line key, with every
    /// NaN ranked below negative infinity.
    pub open spec fn rank_key(self) -> int {
        if self.nan() {
            -0x1_0000_0000_0000_0000
        } else {
            self.key()
        }
    }

    /// The value with the given encoding.
    pub fn from_bits(bits: u64) -> (r: Float64)
        ensures
            r.bits == bits,
    {
        Float64 { bits }
    }

    /// The encoding of this value.
    pub fn to_bits(self) -> (r: u64)
        ensures
            r == self.bits,
    {
        self.bits
    }

    /// Positive zero.
    pub fn zero() -> (r: Float64)
        ensures
            r.bits == 0,
    {
        Float64 { bits: 0 }
    }

    /// Whether this value is a NaN.
    pub fn is_nan(&self) -> (r: bool)
        ensures
            r == self.nan(),
    {
        self.bits > POSITIVE_INFINITY_BITS && (self.bits < SIGN_BIT || self.bits > NEGATIVE_INFINITY_BITS)
    }

    /// `self < 0.0`.
    pub fn is_negative(&self) -> (r: bool)
        ensures
            r == self.negative(),
    {
        self.bits > SIGN_BIT && self.bits <= NEGATIVE_INFINITY_BITS
    }

    /// The ranking key of [`Float64::rank_key`], computed.
    pub fn ranking_key(&self) -> (r: i128)
        ensures
            r == self.rank_key(),
    {
        if self.is_nan() {
            -0x1_0000_0000_0000_0000i128
        } else if self.bits >= SIGN_BIT {
            let m: u64 = self.bits - SIGN_BIT;
            0i128 - (m as i128)
        } else {
            self.bits as i128
        }
    }

    /// `self < other` as binary64 values.
    pub fn less_than(&self, other: &Float64) -> (r: bool)
        ensures
            r == self.less(*other),
    {
        if self.is_nan() || other.is_nan() {
            false
        } else {
            self.ranking_key() < other.ranking_key()
        }
    }

    /// `self == other` as binary64 values.
    pub fn value_eq(&self, other: &Float64) -> (r: bool)
        ensures
            r == self.same_value(*other),
    {
        if self.is_nan() || other.is_nan() {
            false
        } else {
            self.ranking_key() == other.ranking_key()
        }
    }
}

} // verus!
