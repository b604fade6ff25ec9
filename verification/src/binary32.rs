//! Numbers of the 32-bit binary floating-point format, as bit patterns.

use vstd::prelude::*;
use vstd::arithmetic::power2::lemma2_to64;
use crate::ieee::{from_nat, product, representable, truncate_saturating, FloatValue, Format};
use crate::rounding::{from_unsigned, multiply, truncate, Unpacked};

verus! {

/// The sign bit.
pub const SIGN: u32 = 0x8000_0000;

/// The leading mantissa bit, which the pattern of a normal number leaves out.
pub const HIDDEN: u32 = 0x80_0000;

/// The exponent field of infinities and of not-a-number.
pub const SPECIAL: u32 = 0xff;

/// A number of the 32-bit format, held as its bit pattern: one sign bit,
/// eight bits of exponent, twenty-three bits of mantissa. Two of them are
/// equal where their bits are, so the two zeros differ and a not-a-number
/// equals itself.
#[derive(Clone, Copy, Debug, PartialEq, Eq, Structural, Hash)]
pub struct Binary32(pub u32);

impl View for Binary32 {
    type V = FloatValue;

    /// What the bit pattern stands for.
    open spec fn view(&self) -> FloatValue {
        let negative = self.0 >= SIGN;
        let magnitude = self.0 % SIGN;
        let field = magnitude / HIDDEN;
        let fraction = magnitude % HIDDEN;
        if field == SPECIAL {
            if fraction == 0 {
                FloatValue::Infinite { negative }
            } else {
                FloatValue::Nan
            }
        } else if field == 0 {
            FloatValue::Finite { negative, mantissa: fraction as nat, exponent: -149 }
        } else {
            FloatValue::Finite {
                negative,
                mantissa: (HIDDEN + fraction) as nat,
                exponent: field - 150,
            }
        }
    }
}

impl Binary32 {
    /// The number with the given bit pattern.
    pub fn from_bits(bits: u32) -> (r: Self)
        ensures
            r.0 == bits,
    {
        Binary32(bits)
    }

    /// The bit pattern.
    pub fn to_bits(self) -> (bits: u32)
        ensures
            bits == self.0,
    {
        self.0
    }

    /// Takes the bit pattern apart.
    pub fn unpack(self) -> (u: Unpacked)
        ensures
            u@ == self@,
            representable(Format::single(), u@),
    {
        proof {
            lemma2_to64();
        }
        let negative: bool = self.0 >= SIGN;
        let magnitude: u32 = self.0 % SIGN;
        let field: u32 = magnitude / HIDDEN;
        let fraction: u32 = magnitude % HIDDEN;
        if field == SPECIAL {
            if fraction == 0 {
                Unpacked::Infinite { negative }
            } else {
                Unpacked::Nan
            }
        } else if field == 0 {
            Unpacked::Finite { negative, mantissa: fraction as u64, exponent: -149 }
        } else {
            Unpacked::Finite { negative, mantissa: (HIDDEN + fraction) as u64, exponent: field as i32 - 150 }
        }
    }

    /// Puts a number of the format together. Not-a-number gets the quiet
    /// pattern with no payload.
    pub fn pack(u: Unpacked) -> (r: Self)
        requires
            representable(Format::single(), u@),
        ensures
            r@ == u@,
    {
        proof {
            lemma2_to64();
        }
        match u {
            Unpacked::Nan => Binary32(0x7fc0_0000),
            Unpacked::Infinite { negative } => {
                if negative {
                    Binary32(0xff80_0000)
                } else {
                    Binary32(0x7f80_0000)
                }
            },
            Unpacked::Finite { negative, mantissa, exponent } => {
                let magnitude: u32 = if mantissa < HIDDEN as u64 {
                    mantissa as u32
                } else {
                    ((exponent + 149) as u32) * HIDDEN + mantissa as u32
                };
                if negative {
                    Binary32(SIGN + magnitude)
                } else {
                    Binary32(magnitude)
                }
            },
        }
    }

    /// The product, rounded to nearest, ties to even.
    pub fn multiply(self, rhs: Self) -> (r: Self)
        ensures
            r@ == product(Format::single(), self@, rhs@),
    {
        Self::pack(multiply(Format::binary32(), self.unpack(), rhs.unpack()))
    }

    /// The integer `x` as a floating-point number; nothing is lost.
    pub fn from_u16(x: u16) -> (r: Self)
        ensures
            r@ == from_nat(Format::single(), x as nat),
    {
        Self::pack(from_unsigned(Format::binary32(), x))
    }

    /// The integer part, held within the range of `u16`; zero for
    /// not-a-number.
    pub fn to_u16(self) -> (r: u16)
        ensures
            r == truncate_saturating(self@, 65535),
    {
        truncate(self.unpack(), 65535)
    }

    /// The integer part, held within the range of `u8`; zero for
    /// not-a-number.
    pub fn to_u8(self) -> (r: u8)
        ensures
            r == truncate_saturating(self@, 255),
    {
        truncate(self.unpack(), 255) as u8
    }

    /// Apart from not-a-number, each value has one bit pattern.
    pub proof fn lemma_view_injective(self, other: Self)
        requires
            self@ == other@,
            !(self@ is Nan),
        ensures
            self == other,
    {
    }
}

} // verus!
