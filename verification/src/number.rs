use vstd::prelude::*;

verus! {

/// The bit that carries the sign of a binary64 pattern.
pub const SIGN_BIT: u64 = 0x8000_0000_0000_0000;

/// The pattern of positive infinity: every pattern whose magnitude lies above
/// it is a NaN.
pub const INFINITY_BITS: u64 = 0x7ff0_0000_0000_0000;

/// The pattern without its sign.
pub open spec fn magnitude(bits: u64) -> int {
    if bits >= SIGN_BIT {
        bits - SIGN_BIT
    } else {
        bits as int
    }
}

/// Whether the pattern encodes a NaN.
pub open spec fn is_nan_bits(bits: u64) -> bool {
    magnitude(bits) > INFINITY_BITS
}

/// The place of a pattern on the number line: binary64 is a sign and a
/// magnitude, and magnitudes of patterns are ordered as the values are, so the
/// signed magnitude orders every pattern but the NaNs. Both zeros land on 0.
pub open spec fn rank(bits: u64) -> int {
    if bits >= SIGN_BIT {
        -magnitude(bits)
    } else {
        magnitude(bits)
    }
}

/// A Lox number: an IEEE-754 binary64 value, held by its bit pattern.
#[derive(Clone, Copy, Debug, PartialEq, Eq, Structural)]
pub struct Number {
    pub bits: u64,
}

impl Number {
    /// The number with the given bit pattern.
    pub fn from_bits(bits: u64) -> (r: Number)
        ensures
            r.bits == bits,
    {
        Number { bits }
    }

    /// The bit pattern.
    pub fn to_bits(&self) -> (r: u64)
        ensures
            r == self.bits,
    {
        self.bits
    }

    /// Whether the number is a NaN.
    pub open spec fn is_nan_spec(&self) -> bool {
        is_nan_bits(self.bits)
    }

    /// Whether the number is `0` or `-0`.
    pub open spec fn is_zero_spec(&self) -> bool {
        magnitude(self.bits) == 0
    }

    /// IEEE equality: false whenever a NaN takes part, and `0 == -0`.
    pub open spec fn equals_spec(&self, other: &Number) -> bool {
        !is_nan_bits(self.bits) && !is_nan_bits(other.bits) && rank(self.bits) == rank(other.bits)
    }

    /// IEEE `<`: false whenever a NaN takes part.
    pub open spec fn less_spec(&self, other: &Number) -> bool {
        !is_nan_bits(self.bits) && !is_nan_bits(other.bits) && rank(self.bits) < rank(other.bits)
    }

    /// IEEE `<=`: false whenever a NaN takes part.
    pub open spec fn less_equal_spec(&self, other: &Number) -> bool {
        !is_nan_bits(self.bits) && !is_nan_bits(other.bits) && rank(self.bits) <= rank(other.bits)
    }

    /// The pattern with the sign flipped.
    pub open spec fn negated_spec(&self) -> Number {
        if self.bits >= SIGN_BIT {
            Number { bits: (self.bits - SIGN_BIT) as u64 }
        } else {
            Number { bits: (self.bits + SIGN_BIT) as u64 }
        }
    }

    fn magnitude_of(&self) -> (m: u64)
        ensures
            m == magnitude(self.bits),
    {
        if self.bits >= SIGN_BIT {
            self.bits - SIGN_BIT
        } else {
            self.bits
        }
    }

    /// Whether the number is a NaN.
    pub fn is_nan(&self) -> (r: bool)
        ensures
            r == self.is_nan_spec(),
    {
        self.magnitude_of() > INFINITY_BITS
    }

    /// Whether the number is `0` or `-0`.
    pub fn is_zero(&self) -> (r: bool)
        ensures
            r == self.is_zero_spec(),
    {
        self.magnitude_of() == 0
    }

    /// The number with the opposite sign; a NaN stays a NaN.
    pub fn negated(&self) -> (r: Number)
        ensures
            r == self.negated_spec(),
            r.is_nan_spec() == self.is_nan_spec(),
            magnitude(r.bits) == magnitude(self.bits),
    {
        if self.bits >= SIGN_BIT {
            Number { bits: self.bits - SIGN_BIT }
        } else {
            Number { bits: self.bits + SIGN_BIT }
        }
    }

    /// `self == other` as IEEE-754 has it.
    pub fn equals(&self, other: &Number) -> (r: bool)
        ensures
            r == self.equals_spec(other),
    {
        if self.is_nan() || other.is_nan() {
            return false;
        }
        let a = self.magnitude_of();
        let b = other.magnitude_of();
        if a == 0 && b == 0 {
            return true;
        }
        self.bits == other.bits
    }

    /// `self < other` as IEEE-754 has it.
    pub fn less(&self, other: &Number) -> (r: bool)
        ensures
            r == self.less_spec(other),
    {
        if self.is_nan() || other.is_nan() {
            return false;
        }
        let a = self.magnitude_of();
        let b = other.magnitude_of();
        let a_negative = self.bits >= SIGN_BIT;
        let b_negative = other.bits >= SIGN_BIT;
        if a_negative {
            if b_negative {
                b < a
            } else {
                a != 0 || b != 0
            }
        } else {
            if b_negative {
                false
            } else {
                a < b
            }
        }
    }

    /// `self <= other` as IEEE-754 has it.
    pub fn less_equal(&self, other: &Number) -> (r: bool)
        ensures
            r == self.less_equal_spec(other),
    {
        self.less(other) || self.equals(other)
    }

    /// `self > other` as IEEE-754 has it.
    pub fn greater(&self, other: &Number) -> (r: bool)
        ensures
            r == other.less_spec(self),
    {
        other.less(self)
    }

    /// `self >= other` as IEEE-754 has it.
    pub fn greater_equal(&self, other: &Number) -> (r: bool)
        ensures
            r == other.less_equal_spec(self),
    {
        other.less_equal(self)
    }
}

} // verus!
