//! Decimal numbers: IEEE 754 binary64 values, held as their bit patterns.
//!
//! Equality, order, sign and the test for zero are defined here on the bits.
//! Arithmetic, and conversion to and from integers and text, are left to the
//! caller's floating-point unit: see [`DecRequest`].

use vstd::prelude::*;

verus! {

/// The sign bit of a binary64 pattern.
pub const SIGN_BIT: u64 = 0x8000_0000_0000_0000;

/// The magnitude of positive infinity; a larger magnitude is not a number.
pub const INFINITY_BITS: u64 = 0x7ff0_0000_0000_0000;

/// The pattern of `1.0`.
pub const ONE_BITS: u64 = 0x3ff0_0000_0000_0000;

/// How two values stand to each other in an order.
#[derive(Clone, Copy, Debug, PartialEq, Eq, Structural)]
pub enum Rel {
    Less,
    Equal,
    Greater,
}

/// A decimal number of the language.
#[derive(Clone, Copy, Debug)]
pub struct Dec {
    pub bits: u64,
}

/// A computation on decimals that is left to the floating-point unit of the
/// caller.
#[derive(Clone, Copy, Debug)]
pub enum DecRequest {
    /// The sum of two numbers.
    Add(Dec, Dec),
    /// The difference of two numbers.
    Subtract(Dec, Dec),
    /// The product of two numbers.
    Multiply(Dec, Dec),
    /// The quotient of two numbers.
    Divide(Dec, Dec),
    /// What is left of the first number after division by the second; it
    /// has the sign of the first.
    Remainder(Dec, Dec),
    /// The decimal nearest to an integer.
    FromInt(i64),
    /// The integer that a decimal comes to when what is behind its point
    /// is dropped: the nearest integer where it is out of range, and zero
    /// where it is not a number.
    ToInt(Dec),
    /// How a decimal is written.
    ToText(Dec),
}

/// The pattern without its sign bit.
pub open spec fn dec_magnitude(bits: u64) -> u64 {
    if bits >= SIGN_BIT {
        (bits - SIGN_BIT) as u64
    } else {
        bits
    }
}

/// Whether the sign bit is set.
pub open spec fn dec_is_negative(bits: u64) -> bool {
    bits >= SIGN_BIT
}

/// Whether the pattern is not a number.
pub open spec fn dec_is_nan(bits: u64) -> bool {
    dec_magnitude(bits) > INFINITY_BITS
}

/// Whether the pattern is zero, of either sign.
pub open spec fn dec_is_zero(bits: u64) -> bool {
    dec_magnitude(bits) == 0
}

/// The place of a pattern that is a number on the number line: patterns
/// with a larger place are larger numbers, and both zeros have place 0.
pub open spec fn dec_place(bits: u64) -> int {
    if dec_is_negative(bits) {
        -(dec_magnitude(bits) as int)
    } else {
        dec_magnitude(bits) as int
    }
}

/// How two patterns compare as numbers; nothing where either is not a
/// number.
pub open spec fn dec_order(a: u64, b: u64) -> Option<Rel> {
    if dec_is_nan(a) || dec_is_nan(b) {
        None
    } else if dec_place(a) < dec_place(b) {
        Some(Rel::Less)
    } else if dec_place(a) == dec_place(b) {
        Some(Rel::Equal)
    } else {
        Some(Rel::Greater)
    }
}

/// Whether two patterns are equal as numbers. What is not a number equals
/// nothing, itself included; the two zeros are equal.
pub open spec fn dec_eq(a: u64, b: u64) -> bool {
    dec_order(a, b) == Some(Rel::Equal)
}

/// The pattern with its sign bit flipped.
pub open spec fn dec_neg(bits: u64) -> u64 {
    if bits >= SIGN_BIT {
        (bits - SIGN_BIT) as u64
    } else {
        (bits + SIGN_BIT) as u64
    }
}

impl Dec {
    /// The decimal with the given binary64 pattern.
    pub fn from_bits(bits: u64) -> (r: Dec)
        ensures
            r.bits == bits,
    {
        Dec { bits }
    }

    /// The binary64 pattern of this decimal.
    pub fn to_bits(&self) -> (r: u64)
        ensures
            r == self.bits,
    {
        self.bits
    }

    /// Positive zero.
    pub fn zero() -> (r: Dec)
        ensures
            r.bits == 0,
    {
        Dec { bits: 0 }
    }

    /// The number one.
    pub fn one() -> (r: Dec)
        ensures
            r.bits == ONE_BITS,
    {
        Dec { bits: ONE_BITS }
    }

    fn magnitude(&self) -> (r: u64)
        ensures
            r == dec_magnitude(self.bits),
    {
        if self.bits >= SIGN_BIT {
            self.bits - SIGN_BIT
        } else {
            self.bits
        }
    }

    /// Whether this is not a number.
    pub fn is_nan(&self) -> (r: bool)
        ensures
            r == dec_is_nan(self.bits),
    {
        self.magnitude() > INFINITY_BITS
    }

    /// Whether this is zero, of either sign.
    pub fn is_zero(&self) -> (r: bool)
        ensures
            r == dec_is_zero(self.bits),
    {
        self.magnitude() == 0
    }

    /// This number with the opposite sign.
    pub fn negated(&self) -> (r: Dec)
        ensures
            r.bits == dec_neg(self.bits),
    {
        if self.bits >= SIGN_BIT {
            Dec { bits: self.bits - SIGN_BIT }
        } else {
            Dec { bits: self.bits + SIGN_BIT }
        }
    }

    /// How this number compares with another.
    pub fn compare(&self, other: &Dec) -> (r: Option<Rel>)
        ensures
            r == dec_order(self.bits, other.bits),
    {
        if self.is_nan() || other.is_nan() {
            return None;
        }
        let a = self.magnitude();
        let b = other.magnitude();
        let a_neg = self.bits >= SIGN_BIT;
        let b_neg = other.bits >= SIGN_BIT;
        if a_neg && b_neg {
            if a > b {
                Some(Rel::Less)
            } else if a == b {
                Some(Rel::Equal)
            } else {
                Some(Rel::Greater)
            }
        } else if a_neg {
            if a == 0 && b == 0 {
                Some(Rel::Equal)
            } else {
                Some(Rel::Less)
            }
        } else if b_neg {
            if a == 0 && b == 0 {
                Some(Rel::Equal)
            } else {
                Some(Rel::Greater)
            }
        } else {
            if a < b {
                Some(Rel::Less)
            } else if a == b {
                Some(Rel::Equal)
            } else {
                Some(Rel::Greater)
            }
        }
    }

    /// Whether this number equals another.
    pub fn equals(&self, other: &Dec) -> (r: bool)
        ensures
            r == dec_eq(self.bits, other.bits),
    {
        match self.compare(other) {
            Some(Rel::Equal) => true,
            _ => false,
        }
    }
}

/// Negating twice gives the pattern back.
pub proof fn lemma_dec_neg_involutive(bits: u64)
    ensures
        dec_neg(dec_neg(bits)) == bits,
{
}

/// Negation keeps what is not a number so, keeps zero zero, and mirrors
/// the place of every number.
pub proof fn lemma_dec_neg_place(bits: u64)
    ensures
        dec_is_nan(dec_neg(bits)) == dec_is_nan(bits),
        dec_is_zero(dec_neg(bits)) == dec_is_zero(bits),
        dec_place(dec_neg(bits)) == -dec_place(bits),
{
}

} // verus!
