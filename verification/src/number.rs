//! The numbers of the calculator as plain data.
//!
//! A number is a binary floating-point value with a mantissa of up to 256
//! bits. This crate stores numbers, hands them out and takes them back; it
//! performs no arithmetic on them.

use vstd::prelude::*;

verus! {

/// The kinds of values a number can be.
#[derive(Debug, Clone, Copy, PartialEq, Eq, Structural)]
pub enum NumberClass {
    /// Zero or an ordinary number.
    Finite,
    /// An infinity.
    Infinite,
    /// Not a number.
    NotANumber,
}

/// A number: the value `mantissa * 2^exponent`, with a sign.
///
/// The mantissa is `mantissa_hi * 2^128 + mantissa_lo`. A finite number with
/// mantissa 0 is a zero. Of an infinity only the sign counts.
#[derive(Debug, Clone, Copy, PartialEq, Eq, Structural)]
pub struct Number {
    pub class: NumberClass,
    pub negative: bool,
    pub mantissa_hi: u128,
    pub mantissa_lo: u128,
    pub exponent: i32,
}

impl Number {
    /// The mantissa as a natural number.
    pub open spec fn mantissa(self) -> nat {
        (self.mantissa_hi as nat) * 0x1_0000_0000_0000_0000_0000_0000_0000_0000nat
            + self.mantissa_lo as nat
    }

    /// The number is the integer `n`, written with exponent 0.
    pub open spec fn is_integer(self, n: nat) -> bool {
        &&& self.class == NumberClass::Finite
        &&& !self.negative
        &&& self.mantissa() == n
        &&& self.exponent == 0
    }

    /// The natural number `n`.
    pub fn from_u64(n: u64) -> (r: Number)
        ensures
            r.is_integer(n as nat),
            r == Number::spec_from_u64(n),
    {
        Number {
            class: NumberClass::Finite,
            negative: false,
            mantissa_hi: 0,
            mantissa_lo: n as u128,
            exponent: 0,
        }
    }

    /// The natural number `n`.
    pub open spec fn spec_from_u64(n: u64) -> Number {
        Number {
            class: NumberClass::Finite,
            negative: false,
            mantissa_hi: 0,
            mantissa_lo: n as u128,
            exponent: 0,
        }
    }

    /// Positive zero.
    pub open spec fn spec_zero() -> Number {
        Number::spec_from_u64(0)
    }

    /// The number one.
    pub open spec fn spec_one() -> Number {
        Number::spec_from_u64(1)
    }

    /// Positive zero.
    #[verifier::when_used_as_spec(spec_zero)]
    pub fn zero() -> (r: Number)
        ensures
            r == Number::spec_zero(),
    {
        Number::from_u64(0)
    }

    /// The number one.
    #[verifier::when_used_as_spec(spec_one)]
    pub fn one() -> (r: Number)
        ensures
            r == Number::spec_one(),
    {
        Number::from_u64(1)
    }
}

} // verus!
