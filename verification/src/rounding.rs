//! Floating-point arithmetic on unpacked numbers, done with integers.
//!
//! An unpacked number holds its sign, mantissa and exponent apart. The
//! functions here compute on such numbers and are proved to give what the
//! model in [`crate::ieee`] says.

use vstd::prelude::*;
use vstd::arithmetic::div_mod::{lemma_basic_div, lemma_multiply_divide_lt, lemma_small_mod};
use vstd::arithmetic::mul::{lemma_mul_inequality, lemma_mul_strict_inequality};
use vstd::arithmetic::power2::{
    lemma2_to64,
    lemma2_to64_rest,
    lemma_pow2_adds,
    lemma_pow2_pos,
    lemma_pow2_unfold,
    pow2,
};
use vstd::bits::{lemma_u64_pow2_no_overflow, lemma_u64_shl_is_mul};
use crate::ieee::{
    bit_length,
    from_nat,
    lemma_bit_length_at_most,
    lemma_bit_length_bounds,
    lemma_bit_length_shift,
    lemma_pow2_monotone,
    lemma_round_representable,
    product,
    representable,
    round_nearest_even,
    scale_to_nearest,
    truncate_saturating,
    FloatValue,
    Format,
};

verus! {

/// A floating-point number taken apart, in machine integers.
#[derive(Clone, Copy, Debug)]
pub enum Unpacked {
    /// Not a number.
    Nan,
    /// An infinity.
    Infinite { negative: bool },
    /// The number `mantissa * 2^exponent`, negated where `negative` is set.
    Finite { negative: bool, mantissa: u64, exponent: i32 },
}

impl View for Unpacked {
    type V = FloatValue;

    open spec fn view(&self) -> FloatValue {
        match *self {
            Unpacked::Nan => FloatValue::Nan,
            Unpacked::Infinite { negative } => FloatValue::Infinite { negative },
            Unpacked::Finite { negative, mantissa, exponent } => FloatValue::Finite {
                negative,
                mantissa: mantissa as nat,
                exponent: exponent as int,
            },
        }
    }
}

/// `2^k` as a machine integer.
fn pow2_u128(k: u32) -> (r: u128)
    requires
        k <= 127,
    ensures
        r == pow2(k as nat),
        r > 0,
{
    proof {
        lemma_pow2_pos(k as nat);
    }
    if k < 64 {
        let shift: u64 = k as u64;
        proof {
            lemma_u64_pow2_no_overflow(k as nat);
            lemma_u64_shl_is_mul(1, shift);
        }
        let low: u64 = 1u64 << shift;
        low as u128
    } else {
        let shift: u64 = (k - 64) as u64;
        proof {
            lemma_u64_pow2_no_overflow((k - 64) as nat);
            lemma_u64_shl_is_mul(1, shift);
            lemma_pow2_adds(64, (k - 64) as nat);
            lemma2_to64();
        }
        let high: u64 = 1u64 << shift;
        (high as u128) * 0x1_0000_0000_0000_0000
    }
}

/// Number of binary digits of `n`, found by halving the range seven times.
fn bit_length_u128(n: u128) -> (len: u32)
    ensures
        len == bit_length(n as nat),
        len <= 128,
{
    proof {
        lemma2_to64();
        lemma_pow2_adds(64, 64);
    }
    let mut len: u32 = 0;
    let mut rest: u128 = n;
    let mut k: u32 = 64;
    while k > 0
        invariant
            k == 64 || k == 32 || k == 16 || k == 8 || k == 4 || k == 2 || k == 1 || k == 0,
            len + bit_length(rest as nat) == bit_length(n as nat),
            k > 0 ==> rest < pow2((2 * k) as nat),
            k == 0 ==> rest < 2,
            len + 2 * k <= 128,
            k == 0 ==> len <= 127,
        decreases k,
    {
        proof {
            lemma2_to64();
        }
        let step: u128 = pow2_u128(k);
        if rest >= step {
            proof {
                lemma_bit_length_shift(rest as nat, k as nat);
                lemma_pow2_adds(k as nat, k as nat);
                lemma_multiply_divide_lt(rest as int, step as int, step as int);
            }
            rest = rest / step;
            len = len + k;
        }
        k = k / 2;
    }
    assert(bit_length(0) == 0);
    assert(bit_length(1) == 1);
    len + rest as u32
}

/// Rounds `n * 2^e`, with the given sign, to the format. The integer is
/// below `2^126`, which leaves room for the product of two mantissas, and
/// the exponent within `2^22` of zero.
pub fn round(fmt: Format, negative: bool, n: u128, e: i32) -> (r: Unpacked)
    requires
        fmt.wf(),
        n < 0x4000_0000_0000_0000_0000_0000_0000_0000,
        -0x40_0000 <= e <= 0x40_0000,
    ensures
        r@ == round_nearest_even(fmt, negative, n as nat, e as int),
        representable(fmt, r@),
{
    proof {
        lemma_round_representable(fmt, negative, n as nat, e as int);
    }
    if n == 0 {
        return Unpacked::Finite { negative, mantissa: 0, exponent: fmt.least_exponent };
    }
    let len: u32 = bit_length_u128(n);
    let p: i32 = fmt.precision as i32;
    proof {
        lemma_bit_length_bounds(n as nat);
        lemma_pow2_adds(63, 63);
        lemma2_to64_rest();
        lemma_bit_length_at_most(n as nat, 126);
        lemma_pow2_monotone(fmt.precision as nat, 63);
    }
    let unclamped: i32 = e + len as i32 - p;
    let q: i32 = if unclamped < fmt.least_exponent {
        fmt.least_exponent
    } else {
        unclamped
    };
    let k: i32 = e - q;
    let m: u128;
    if k >= 0 {
        proof {
            lemma_pow2_pos(k as nat);
            lemma_pow2_adds(len as nat, k as nat);
            lemma_pow2_monotone((len + k) as nat, fmt.precision as nat);
            lemma_mul_strict_inequality(n as int, pow2(len as nat) as int, pow2(k as nat) as int);
        }
        let factor: u128 = pow2_u128(k as u32);
        m = n * factor;
    } else {
        let shift: u32 = (-k) as u32;
        if shift >= len + 2 {
            proof {
                lemma_pow2_adds(len as nat, 2);
                lemma2_to64();
                lemma_pow2_monotone((len + 2) as nat, shift as nat);
                lemma_basic_div(n as int, pow2(shift as nat) as int);
                lemma_small_mod(n as nat, pow2(shift as nat));
            }
            m = 0;
        } else {
            let d: u128 = pow2_u128(shift);
            let quo: u128 = n / d;
            let rem: u128 = n % d;
            proof {
                lemma_pow2_adds(fmt.precision as nat, shift as nat);
                lemma_pow2_monotone(len as nat, (fmt.precision + shift) as nat);
                assert(pow2(fmt.precision as nat) * d == d * pow2(fmt.precision as nat))
                    by (nonlinear_arith);
                lemma_multiply_divide_lt(n as int, d as int, pow2(fmt.precision as nat) as int);
            }
            if rem > d - rem || (rem == d - rem && quo % 2 == 1) {
                m = quo + 1;
            } else {
                m = quo;
            }
        }
    }
    proof {
        lemma_pow2_unfold(fmt.precision as nat);
    }
    let top: u128 = pow2_u128(fmt.precision);
    let carried: bool = m == top;
    let mantissa: u128 = if carried {
        top / 2
    } else {
        m
    };
    let exponent: i32 = if carried {
        q + 1
    } else {
        q
    };
    if exponent + p - 1 > fmt.greatest_exponent {
        Unpacked::Infinite { negative }
    } else {
        Unpacked::Finite { negative, mantissa: mantissa as u64, exponent }
    }
}

/// The product of two numbers of the format, rounded to the format.
pub fn multiply(fmt: Format, a: Unpacked, b: Unpacked) -> (r: Unpacked)
    requires
        fmt.wf(),
        representable(fmt, a@),
        representable(fmt, b@),
    ensures
        r@ == product(fmt, a@, b@),
        representable(fmt, r@),
{
    match a {
        Unpacked::Nan => Unpacked::Nan,
        Unpacked::Infinite { negative: s } => match b {
            Unpacked::Nan => Unpacked::Nan,
            Unpacked::Infinite { negative: t } => Unpacked::Infinite { negative: s != t },
            Unpacked::Finite { negative: t, mantissa, .. } => {
                if mantissa == 0 {
                    Unpacked::Nan
                } else {
                    Unpacked::Infinite { negative: s != t }
                }
            },
        },
        Unpacked::Finite { negative: s, mantissa: m, exponent: e } => match b {
            Unpacked::Nan => Unpacked::Nan,
            Unpacked::Infinite { negative: t } => {
                if m == 0 {
                    Unpacked::Nan
                } else {
                    Unpacked::Infinite { negative: s != t }
                }
            },
            Unpacked::Finite { negative: t, mantissa: n, exponent: f } => {
                proof {
                    lemma_pow2_monotone(fmt.precision as nat, 63);
                    lemma2_to64_rest();
                    assert(m * n < 0x4000_0000_0000_0000_0000_0000_0000_0000)
                        by (nonlinear_arith)
                        requires
                            m < 0x8000_0000_0000_0000,
                            n < 0x8000_0000_0000_0000,
                    ;
                }
                round(fmt, s != t, (m as u128) * (n as u128), e + f)
            },
        },
    }
}

/// The unsigned integer `x` as a number of the format.
pub fn from_unsigned(fmt: Format, x: u16) -> (r: Unpacked)
    requires
        fmt.wf(),
    ensures
        r@ == from_nat(fmt, x as nat),
        representable(fmt, r@),
{
    round(fmt, false, x as u128, 0)
}

/// The number cut down to an unsigned integer no larger than `max`.
pub fn truncate(a: Unpacked, max: u16) -> (r: u16)
    ensures
        r == truncate_saturating(a@, max as nat),
{
    match a {
        Unpacked::Nan => 0,
        Unpacked::Infinite { negative } => {
            if negative {
                0
            } else {
                max
            }
        },
        Unpacked::Finite { negative, mantissa, exponent } => {
            if negative {
                0
            } else if exponent >= 16 {
                proof {
                    lemma2_to64();
                    lemma_pow2_monotone(16, exponent as nat);
                    if mantissa > 0 {
                        lemma_mul_inequality(1, mantissa as int, pow2(exponent as nat) as int);
                    } else {
                        assert(mantissa * pow2(exponent as nat) == 0) by (nonlinear_arith)
                            requires
                                mantissa == 0,
                        ;
                    }
                }
                if mantissa == 0 {
                    0
                } else {
                    max
                }
            } else if exponent >= 0 {
                let factor: u128 = pow2_u128(exponent as u32);
                proof {
                    lemma2_to64();
                    lemma_pow2_monotone(exponent as nat, 16);
                    lemma_mul_inequality(
                        factor as int,
                        0x1_0000,
                        mantissa as int,
                    );
                    assert(mantissa * factor == factor * mantissa) by (nonlinear_arith);
                }
                let whole: u128 = (mantissa as u128) * factor;
                if whole > max as u128 {
                    max
                } else {
                    whole as u16
                }
            } else if exponent <= -64 {
                proof {
                    lemma2_to64();
                    lemma_pow2_monotone(64, (-exponent) as nat);
                    lemma_basic_div(mantissa as int, pow2((-exponent) as nat) as int);
                }
                0
            } else {
                let d: u128 = pow2_u128((-exponent) as u32);
                let whole: u128 = (mantissa as u128) / d;
                if whole > max as u128 {
                    max
                } else {
                    whole as u16
                }
            }
        },
    }
}

} // verus!
