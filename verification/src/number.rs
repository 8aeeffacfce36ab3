//! JSON numbers.

use vstd::prelude::*;
use vstd::std_specs::cmp::PartialEqSpecImpl;

verus! {

/// A JSON number: an integer numeral or a floating numeral.
#[derive(Clone, Copy, Debug)]
pub enum Number {
    /// A non-negative integer numeral.
    PosInt(u64),
    /// A negative integer numeral.
    NegInt(i64),
    /// A numeral with a fraction or an exponent, or an integer numeral too
    /// large for 64 bits, held as the bit pattern of its IEEE-754 double.
    Float(u64),
}

/// The bit pattern of the double `-0.0`.
pub const NEGATIVE_ZERO_BITS: u64 = 0x8000_0000_0000_0000;

/// Whether a bit pattern is that of one of the two floating zeros.
pub open spec fn is_zero_bits(bits: u64) -> bool {
    bits == 0 || bits == NEGATIVE_ZERO_BITS
}

impl Number {
    /// Whether the number is an integer numeral that fits a signed 64-bit
    /// integer.
    pub open spec fn is_integer(self) -> bool {
        match self {
            Number::PosInt(v) => v <= i64::MAX,
            Number::NegInt(_) => true,
            Number::Float(_) => false,
        }
    }

    /// Whether two numbers are the same numeral: integers of the same sign
    /// and value, or doubles that compare equal. The two floating zeros
    /// compare equal although their bit patterns differ.
    pub open spec fn same(self, other: Number) -> bool {
        match (self, other) {
            (Number::PosInt(a), Number::PosInt(b)) => a == b,
            (Number::NegInt(a), Number::NegInt(b)) => a == b,
            (Number::Float(a), Number::Float(b)) => a == b || (is_zero_bits(a) && is_zero_bits(b)),
            _ => false,
        }
    }

    /// The number of a signed integer.
    pub fn from_i64(value: i64) -> (r: Number)
        ensures
            r == (if value < 0 {
                Number::NegInt(value)
            } else {
                Number::PosInt(value as u64)
            }),
            r.is_integer(),
    {
        if value < 0 {
            Number::NegInt(value)
        } else {
            Number::PosInt(value as u64)
        }
    }

    /// The number of an unsigned integer.
    pub fn from_u64(value: u64) -> (r: Number)
        ensures
            r == Number::PosInt(value),
    {
        Number::PosInt(value)
    }

    /// The floating number of the given IEEE-754 bit pattern.
    pub fn from_f64_bits(bits: u64) -> (r: Number)
        ensures
            r == Number::Float(bits),
            !r.is_integer(),
    {
        Number::Float(bits)
    }

    /// Tells an integer that fits a signed 64-bit integer from every other
    /// number.
    pub fn is_i64(&self) -> (r: bool)
        ensures
            r == self.is_integer(),
    {
        match self {
            Number::PosInt(v) => *v <= 0x7fff_ffff_ffff_ffffu64,
            Number::NegInt(_) => true,
            Number::Float(_) => false,
        }
    }
}

impl PartialEq for Number {
    fn eq(&self, other: &Number) -> (r: bool) {
        match (self, other) {
            (Number::PosInt(a), Number::PosInt(b)) => *a == *b,
            (Number::NegInt(a), Number::NegInt(b)) => *a == *b,
            (Number::Float(a), Number::Float(b)) => {
                *a == *b || ((*a == 0 || *a == NEGATIVE_ZERO_BITS) && (*b == 0 || *b
                    == NEGATIVE_ZERO_BITS))
            },
            _ => false,
        }
    }
}

impl PartialEqSpecImpl for Number {
    open spec fn obeys_eq_spec() -> bool {
        true
    }

    open spec fn eq_spec(&self, other: &Number) -> bool {
        self.same(*other)
    }
}

} // verus!
