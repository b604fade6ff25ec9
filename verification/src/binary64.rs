//! Numbers of the 64-bit binary floating-point format, as bit patterns.

use vstd::prelude::*;
use vstd::arithmetic::power2::lemma2_to64_rest;
use crate::ieee::{from_nat, product, representable, truncate_saturating, FloatValue, Format};
use crate::rounding::{from_unsigned, multiply, truncate, Unpacked};

verus! {

/// The sign bit.
pub const SIGN: u64 = 0x8000_0000_0000_0000;

/// The leading mantissa bit, which the pattern of a normal number leaves out.
pub const HIDDEN: u64 = 0x10_0000_0000_0000;

/// The exponent field of infinities and of not-a-number.
pub const SPECIAL: u64 = 0x7ff;

/// A number of the 64-bit format, held as its bit pattern: one sign bit,
/// eleven bits of exponent, fifty-two bits of mantissa. Two of them are
/// equal where their bits are, so the two zeros differ and a not-a-number
/// equals itself.
#[derive(Clone, Copy, Debug, PartialEq, Eq, Structural, Hash)]
pub struct Binary64(pub u64);

impl View for Binary64 {
    type V = FloatValue;

    /// What the bit pattern stands for.
    open spec fn view(&self) -> FloatValue {
        let negative = self.0 >= SIGN;
        let magnitude = self.0 % SIGN;
        let field = magnitude / HIDDEN;
        let fraction = magnitude % HIDDEN;
        if field == SPECIAL {
            if fraction == 0 {
                FloatValue::Infinite { negative }
            } else {
                FloatValue::Nan
            }
        } else if field == 0 {
            FloatValue::Finite { negative, mantissa: fraction as nat, exponent: -1074 }
        } else {
            FloatValue::Finite {
                negative,
                mantissa: (HIDDEN + fraction) as nat,
                exponent: field - 1075,
            }
        }
    }
}

impl Binary64 {
    /// The number with the given bit pattern.
    pub fn from_bits(bits: u64) -> (r: Self)
        ensures
            r.0 == bits,
    {
        Binary64(bits)
    }

    /// The bit pattern.
    pub fn to_bits(self) -> (bits: u64)
        ensures
            bits == self.0,
    {
        self.0
    }

    /// Takes the bit pattern apart.
    pub fn unpack(self) -> (u: Unpacked)
        ensures
            u@ == self@,
            representable(Format::double(), u@),
    {
        proof {
            lemma2_to64_rest();
        }
        let negative: bool = self.0 >= SIGN;
        let magnitude: u64 = self.0 % SIGN;
        let field: u64 = magnitude / HIDDEN;
        let fraction: u64 = magnitude % HIDDEN;
        if field == SPECIAL {
            if fraction == 0 {
                Unpacked::Infinite { negative }
            } else {
                Unpacked::Nan
            }
        } else if field == 0 {
            Unpacked::Finite { negative, mantissa: fraction, exponent: -1074 }
        } else {
            Unpacked::Finite { negative, mantissa: HIDDEN + fraction, exponent: field as i32 - 1075 }
        }
    }

    /// Puts a number of the format together. Not-a-number gets the quiet
    /// pattern with no payload.
    pub fn pack(u: Unpacked) -> (r: Self)
        requires
            representable(Format::double(), u@),
        ensures
            r@ == u@,
    {
        proof {
            lemma2_to64_rest();
        }
        match u {
            Unpacked::Nan => Binary64(0x7ff8_0000_0000_0000),
            Unpacked::Infinite { negative } => {
                if negative {
                    Binary64(0xfff0_0000_0000_0000)
                } else {
                    Binary64(0x7ff0_0000_0000_0000)
                }
            },
            Unpacked::Finite { negative, mantissa, exponent } => {
                let magnitude: u64 = if mantissa < HIDDEN {
                    mantissa
                } else {
                    ((exponent + 1074) as u64) * HIDDEN + mantissa
                };
                if negative {
                    Binary64(SIGN + magnitude)
                } else {
                    Binary64(magnitude)
                }
            },
        }
    }

    /// The product, rounded to nearest, ties to even.
    pub fn multiply(self, rhs: Self) -> (r: Self)
        ensures
            r@ == product(Format::double(), self@, rhs@),
    {
        Self::pack(multiply(Format::binary64(), self.unpack(), rhs.unpack()))
    }

    /// The integer `x` as a floating-point number; nothing is lost.
    pub fn from_u16(x: u16) -> (r: Self)
        ensures
            r@ == from_nat(Format::double(), x as nat),
    {
        Self::pack(from_unsigned(Format::binary64(), x))
    }

    /// The integer part, held within the range of `u16`; zero for
    /// not-a-number.
    pub fn to_u16(self) -> (r: u16)
        ensures
            r == truncate_saturating(self@, 65535),
    {
        truncate(self.unpack(), 65535)
    }

    /// The integer part, held within the range of `u8`; zero for
    /// not-a-number.
    pub fn to_u8(self) -> (r: u8)
        ensures
            r == truncate_saturating(self@, 255),
    {
        truncate(self.unpack(), 255) as u8
    }

    /// Apart from not-a-number, each value has one bit pattern.
    pub proof fn lemma_view_injective(self, other: Self)
        requires
            self@ == other@,
            !(self@ is Nan),
        ensures
            self == other,
    {
    }
}

} // verus!
