//! Fractions to and from floating-point numbers, and the product of two
//! 8-bit fractions, which is computed in floating point.
//!
//! A floating-point number comes and goes as a bit pattern. All arithmetic
//! on it is done with integers and rounds as the binary formats prescribe:
//! to nearest, ties to even.

use vstd::prelude::*;
use vstd::arithmetic::div_mod::{
    lemma_basic_div,
    lemma_div_by_multiple,
    lemma_div_denominator,
    lemma_fundamental_div_mod_converse,
};
use vstd::arithmetic::mul::{lemma_mul_inequality, lemma_mul_strict_inequality};
use vstd::arithmetic::power2::{
    lemma2_to64,
    lemma2_to64_rest,
    lemma_pow2_adds,
    lemma_pow2_pos,
    lemma_pow2_unfold,
    pow2,
};
use vstd::std_specs::ops::MulSpecImpl;
use crate::binary32::Binary32;
use crate::binary64::Binary64;
use crate::fractional_u16::FractionalU16;
use crate::fractional_u8::FractionalU8;
use crate::ieee::{
    above_one,
    below_zero,
    bit_length,
    from_nat,
    half,
    lemma_above_one_gives_max,
    lemma_below_zero_gives_zero,
    lemma_bit_length_at_most,
    lemma_bit_length_bounds,
    lemma_bit_length_unique,
    lemma_from_nat_exact,
    lemma_pow2_monotone,
    nearest_quotient,
    one,
    product,
    round_nearest_even,
    truncate_saturating,
    zero,
    FloatValue,
    Format,
};

verus! {

/// The raw value of a floating-point number, for a width whose largest raw
/// value is `max`: the number times `max`, rounded to the format, then cut
/// down to an integer from zero to `max`. Numbers below 0.0 give zero, and
/// so does not-a-number; numbers above 1.0 give `max`.
pub open spec fn raw_of_float(fmt: Format, v: FloatValue, max: nat) -> nat {
    truncate_saturating(product(fmt, v, from_nat(fmt, max)), max)
}

/// The number of the format nearest to `1 / d`, for a `d` whose reciprocal
/// is well above the format's least number.
pub open spec fn reciprocal(fmt: Format, d: nat) -> FloatValue
    recommends
        d > 0,
{
    let shift = bit_length(d) + fmt.precision - 1;
    round_nearest_even(fmt, false, nearest_quotient(pow2(shift as nat), d), -shift)
}

/// The floating-point number of a raw value, for a width whose largest raw
/// value is `max`: the raw value times the reciprocal of `max`, both the
/// reciprocal and the product rounded to the format.
pub open spec fn float_of_raw(fmt: Format, raw: nat, max: nat) -> FloatValue {
    product(fmt, from_nat(fmt, raw), reciprocal(fmt, max))
}

/// The 16-bit raw value of the product of two 8-bit fractions: both are
/// taken to the 64-bit format and multiplied there.
pub open spec fn raw_product(a: nat, b: nat) -> nat {
    raw_of_float(
        Format::double(),
        product(
            Format::double(),
            float_of_raw(Format::double(), a, FractionalU8::max_raw()),
            float_of_raw(Format::double(), b, FractionalU8::max_raw()),
        ),
        FractionalU16::max_raw(),
    )
}

/// The reciprocal of `d` is `m * 2^-shift` where `m`, the nearest integer
/// to `2^shift / d`, has as many bits as the format keeps.
proof fn lemma_reciprocal_is(fmt: Format, d: nat, l: nat, m: nat)
    requires
        fmt.wf(),
        l > 0,
        pow2((l - 1) as nat) <= d < pow2(l),
        m == nearest_quotient(pow2((l + fmt.precision - 1) as nat), d),
        pow2((fmt.precision - 1) as nat) <= m < pow2(fmt.precision as nat),
        fmt.least_exponent <= -(l + fmt.precision - 1),
        -l <= fmt.greatest_exponent,
    ensures
        reciprocal(fmt, d) == (FloatValue::Finite {
            negative: false,
            mantissa: m,
            exponent: -(l + fmt.precision - 1),
        }),
{
    lemma_bit_length_unique(d, l);
    lemma_bit_length_unique(m, fmt.precision as nat);
    lemma2_to64();
    assert(m * pow2(0) == m) by (nonlinear_arith)
        requires
            pow2(0) == 1,
    ;
}

/// The four reciprocals that the conversions multiply by, each the number
/// of its format nearest to the exact reciprocal.
pub proof fn lemma_reciprocal_values()
    ensures
        reciprocal(Format::single(), 255) == (FloatValue::Finite {
            negative: false,
            mantissa: 0x80_8081,
            exponent: -31,
        }),
        reciprocal(Format::single(), 65535) == (FloatValue::Finite {
            negative: false,
            mantissa: 0x80_0080,
            exponent: -39,
        }),
        reciprocal(Format::double(), 255) == (FloatValue::Finite {
            negative: false,
            mantissa: 0x10_1010_1010_1010,
            exponent: -60,
        }),
        reciprocal(Format::double(), 65535) == (FloatValue::Finite {
            negative: false,
            mantissa: 0x10_0010_0010_0010,
            exponent: -68,
        }),
{
    lemma2_to64();
    lemma2_to64_rest();
    lemma_pow2_adds(64, 4);
    lemma_reciprocal_is(Format::single(), 255, 8, 0x80_8081);
    lemma_reciprocal_is(Format::single(), 65535, 16, 0x80_0080);
    lemma_reciprocal_is(Format::double(), 255, 8, 0x10_1010_1010_1010);
    lemma_reciprocal_is(Format::double(), 65535, 16, 0x10_0010_0010_0010);
}

/// The reciprocal of 255 in the 32-bit format.
fn reciprocal_255_single() -> (r: Binary32)
    ensures
        r@ == reciprocal(Format::single(), 255),
{
    proof {
        lemma_reciprocal_values();
    }
    Binary32(0x3b80_8081)
}

/// The reciprocal of 65535 in the 32-bit format.
fn reciprocal_65535_single() -> (r: Binary32)
    ensures
        r@ == reciprocal(Format::single(), 65535),
{
    proof {
        lemma_reciprocal_values();
    }
    Binary32(0x3780_0080)
}

/// The reciprocal of 255 in the 64-bit format.
fn reciprocal_255_double() -> (r: Binary64)
    ensures
        r@ == reciprocal(Format::double(), 255),
{
    proof {
        lemma_reciprocal_values();
    }
    Binary64(0x3f70_1010_1010_1010)
}

/// The reciprocal of 65535 in the 64-bit format.
fn reciprocal_65535_double() -> (r: Binary64)
    ensures
        r@ == reciprocal(Format::double(), 65535),
{
    proof {
        lemma_reciprocal_values();
    }
    Binary64(0x3ef0_0010_0010_0010)
}

/// The raw value `max` of a width gives the number one where the product
/// of `max`, as a number of the format, and its reciprocal `mr * 2^er` has
/// `l` bits and rounds up into the next power of two or lands on it.
proof fn lemma_max_gives_one(fmt: Format, max: nat, w: nat, mr: nat, er: int, l: nat)
    requires
        fmt.wf(),
        w > 0,
        pow2((w - 1) as nat) <= max < pow2(w),
        w <= fmt.precision,
        reciprocal(fmt, max) == (FloatValue::Finite { negative: false, mantissa: mr, exponent: er }),
        l > fmt.precision,
        pow2((l - 1) as nat) <= max * pow2((fmt.precision - w) as nat) * mr < pow2(l),
        w - fmt.precision + er + l - fmt.precision >= fmt.least_exponent,
        ({
            let m = nearest_quotient(
                max * pow2((fmt.precision - w) as nat) * mr,
                pow2((l - fmt.precision) as nat),
            );
            let q = w - fmt.precision + er + l - fmt.precision;
            ||| (m == pow2(fmt.precision as nat) && q + 1 == 1 - fmt.precision)
            ||| (m == pow2((fmt.precision - 1) as nat) && q == 1 - fmt.precision)
        }),
    ensures
        float_of_raw(fmt, max, max) == one(fmt),
{
    let p = fmt.precision as nat;
    lemma_pow2_pos((w - 1) as nat);
    lemma_pow2_unfold(p);
    lemma_pow2_monotone(w, p);
    lemma_pow2_pos((l - p) as nat);
    lemma_bit_length_unique(max, w);
    lemma_from_nat_exact(fmt, max);
    let n = max * pow2((p - w) as nat) * mr;
    lemma_bit_length_unique(n, l);
}

/// The fraction 0.0 is the number zero and the fraction 1.0 is the number
/// one, in both formats and at both widths.
pub proof fn lemma_float_of_ends()
    ensures
        float_of_raw(Format::single(), 0, FractionalU8::max_raw()) == zero(Format::single()),
        float_of_raw(Format::double(), 0, FractionalU8::max_raw()) == zero(Format::double()),
        float_of_raw(Format::single(), 0, FractionalU16::max_raw()) == zero(Format::single()),
        float_of_raw(Format::double(), 0, FractionalU16::max_raw()) == zero(Format::double()),
        float_of_raw(Format::single(), 255, FractionalU8::max_raw()) == one(Format::single()),
        float_of_raw(Format::double(), 255, FractionalU8::max_raw()) == one(Format::double()),
        float_of_raw(Format::single(), 65535, FractionalU16::max_raw()) == one(Format::single()),
        float_of_raw(Format::double(), 65535, FractionalU16::max_raw()) == one(Format::double()),
{
    lemma_reciprocal_values();
    lemma2_to64();
    lemma2_to64_rest();
    lemma_pow2_adds(64, 40);
    lemma_pow2_adds(64, 41);
    lemma_max_gives_one(Format::single(), 255, 8, 0x80_8081, -31, 48);
    lemma_max_gives_one(Format::single(), 65535, 16, 0x80_0080, -39, 47);
    lemma_max_gives_one(Format::double(), 255, 8, 0x10_1010_1010_1010, -60, 105);
    lemma_max_gives_one(Format::double(), 65535, 16, 0x10_0010_0010_0010, -68, 105);
}

/// A power of two `2^(x + p - 1)`, written with a mantissa of full length,
/// times a positive integer `max` that leaves the format a bit to spare
/// is exact: nothing is rounded away.
proof fn lemma_power_of_two_times(fmt: Format, x: int, max: nat)
    requires
        fmt.wf(),
        0 < max < pow2((fmt.precision - 1) as nat),
        fmt.least_exponent <= x + bit_length(max) - 1,
        x + bit_length(max) + fmt.precision - 2 <= fmt.greatest_exponent,
    ensures
        product(
            fmt,
            FloatValue::Finite {
                negative: false,
                mantissa: pow2((fmt.precision - 1) as nat),
                exponent: x,
            },
            from_nat(fmt, max),
        ) == (FloatValue::Finite {
            negative: false,
            mantissa: max * pow2((fmt.precision - bit_length(max)) as nat),
            exponent: x + bit_length(max) - 1,
        }),
{
    let p = fmt.precision as nat;
    let w = bit_length(max);
    let d = pow2((p - 1) as nat);
    lemma_pow2_unfold(p);
    lemma_pow2_pos((p - 1) as nat);
    lemma_bit_length_bounds(max);
    lemma_from_nat_exact(fmt, max);
    let a = (p - w) as nat;
    let mc = max * pow2(a);
    let n = d * mc;
    lemma_pow2_pos(a);
    lemma_pow2_adds(w, a);
    lemma_pow2_adds((w - 1) as nat, a);
    lemma_mul_strict_inequality(max as int, pow2(w) as int, pow2(a) as int);
    lemma_mul_inequality(pow2((w - 1) as nat) as int, max as int, pow2(a) as int);
    lemma_pow2_adds((p - 1) as nat, (p - 1) as nat);
    lemma_pow2_adds((p - 1) as nat, p);
    lemma_mul_inequality(d as int, mc as int, d as int);
    lemma_mul_strict_inequality(mc as int, pow2(p) as int, d as int);
    assert(mc * d == n && d * d == pow2((2 * p - 2) as nat) && pow2(p) * d == pow2(
        (2 * p - 1) as nat,
    )) by (nonlinear_arith)
        requires
            n == d * mc,
            pow2((p - 1 + (p - 1)) as nat) == d * d,
            pow2((p - 1 + p) as nat) == d * pow2(p),
    ;
    lemma_bit_length_unique(n, (2 * p - 1) as nat);
    lemma_fundamental_div_mod_converse(n as int, d as int, mc as int, 0);
}

/// Zero gives the fraction 0.0, one gives the fraction 1.0 and one half
/// gives the half of the largest raw value, rounded down.
pub proof fn lemma_raw_of_zero_one_half(fmt: Format, max: nat)
    requires
        fmt.wf(),
        fmt.least_exponent <= -fmt.precision,
        0 < max < pow2((fmt.precision - 1) as nat),
    ensures
        raw_of_float(fmt, zero(fmt), max) == 0,
        raw_of_float(fmt, one(fmt), max) == max,
        raw_of_float(fmt, half(fmt), max) == max / 2,
{
    let p = fmt.precision as nat;
    let w = bit_length(max);
    lemma_product_with_zero(fmt, from_nat(fmt, max), zero(fmt));
    lemma_truncate_zero(product(fmt, zero(fmt), from_nat(fmt, max)), max);
    lemma_bit_length_bounds(max);
    lemma_bit_length_at_most(max, (p - 1) as nat);
    let a = (p - w) as nat;
    let pa = pow2(a);
    lemma_pow2_pos(a);
    lemma_power_of_two_times(fmt, 1 - p, max);
    lemma_power_of_two_times(fmt, -(p as int), max);
    lemma_div_by_multiple(max as int, pa as int);
    lemma_pow2_unfold(a + 1);
    lemma_div_denominator((max * pa) as int, pa as int, 2);
}

/// Whether the value is a zero of either sign or not a number: the values
/// that stay so under every product.
pub open spec fn zero_or_nan(v: FloatValue) -> bool {
    match v {
        FloatValue::Nan => true,
        FloatValue::Infinite { .. } => false,
        FloatValue::Finite { mantissa, .. } => mantissa == 0,
    }
}

/// A product with a zero or with not-a-number is again one of the two.
pub proof fn lemma_product_with_zero(fmt: Format, x: FloatValue, z: FloatValue)
    requires
        zero_or_nan(z),
    ensures
        zero_or_nan(product(fmt, x, z)),
        zero_or_nan(product(fmt, z, x)),
{
    match (x, z) {
        (
            FloatValue::Finite { mantissa: m, .. },
            FloatValue::Finite { mantissa: n, .. },
        ) => {
            assert(m * n == 0 && n * m == 0) by (nonlinear_arith)
                requires
                    n == 0,
            ;
        },
        _ => {},
    }
}

/// A zero and not-a-number are cut down to zero.
pub proof fn lemma_truncate_zero(v: FloatValue, max: nat)
    requires
        zero_or_nan(v),
    ensures
        truncate_saturating(v, max) == 0,
{
    match v {
        FloatValue::Finite { mantissa, exponent, .. } => {
            if exponent >= 0 {
                assert(mantissa * pow2(exponent as nat) == 0) by (nonlinear_arith)
                    requires
                        mantissa == 0,
                ;
            } else {
                lemma_pow2_pos((-exponent) as nat);
                lemma_basic_div(0, pow2((-exponent) as nat) as int);
            }
        },
        _ => {},
    }
}

/// The fraction 0.0 is the number zero in every format, or not a number
/// where the format cannot hold the reciprocal.
pub proof fn lemma_float_of_zero(fmt: Format, max: nat)
    ensures
        zero_or_nan(float_of_raw(fmt, 0, max)),
{
    lemma_product_with_zero(fmt, reciprocal(fmt, max), from_nat(fmt, 0));
}

/// The product of two 8-bit fractions is the fraction 0.0 where either of
/// them is.
pub proof fn lemma_raw_product_zero(a: nat)
    ensures
        raw_product(a, 0) == 0,
        raw_product(0, a) == 0,
{
    let fmt = Format::double();
    let max = FractionalU8::max_raw();
    let wide = FractionalU16::max_raw();
    let x = float_of_raw(fmt, a, max);
    let z = float_of_raw(fmt, 0, max);
    lemma_float_of_zero(fmt, max);
    lemma_product_with_zero(fmt, x, z);
    lemma_product_with_zero(fmt, from_nat(fmt, wide), product(fmt, x, z));
    lemma_product_with_zero(fmt, from_nat(fmt, wide), product(fmt, z, x));
    lemma_truncate_zero(product(fmt, product(fmt, x, z), from_nat(fmt, wide)), wide);
    lemma_truncate_zero(product(fmt, product(fmt, z, x), from_nat(fmt, wide)), wide);
}

/// Every number below zero gives the fraction 0.0 and every number above
/// one gives the fraction 1.0, in both formats and at both widths. So do
/// the two infinities.
pub proof fn lemma_out_of_range_clamps(v: FloatValue)
    ensures
        below_zero(v) ==> {
            &&& raw_of_float(Format::single(), v, FractionalU8::max_raw()) == 0
            &&& raw_of_float(Format::double(), v, FractionalU8::max_raw()) == 0
            &&& raw_of_float(Format::single(), v, FractionalU16::max_raw()) == 0
            &&& raw_of_float(Format::double(), v, FractionalU16::max_raw()) == 0
        },
        above_one(v) ==> {
            &&& raw_of_float(Format::single(), v, FractionalU8::max_raw())
                == FractionalU8::max_raw()
            &&& raw_of_float(Format::double(), v, FractionalU8::max_raw())
                == FractionalU8::max_raw()
            &&& raw_of_float(Format::single(), v, FractionalU16::max_raw())
                == FractionalU16::max_raw()
            &&& raw_of_float(Format::double(), v, FractionalU16::max_raw())
                == FractionalU16::max_raw()
        },
{
    lemma2_to64();
    lemma2_to64_rest();
    if below_zero(v) {
        lemma_below_zero_gives_zero(Format::single(), v, 255);
        lemma_below_zero_gives_zero(Format::double(), v, 255);
        lemma_below_zero_gives_zero(Format::single(), v, 65535);
        lemma_below_zero_gives_zero(Format::double(), v, 65535);
    }
    if above_one(v) {
        lemma_above_one_gives_max(Format::single(), v, 255);
        lemma_above_one_gives_max(Format::double(), v, 255);
        lemma_above_one_gives_max(Format::single(), v, 65535);
        lemma_above_one_gives_max(Format::double(), v, 65535);
    }
}

impl FractionalU8 {
    /// The fraction of a number of the 32-bit format: the number times 255,
    /// cut down to an integer. Numbers outside 0.0 to 1.0 give the nearer
    /// end of the range; not-a-number gives 0.0.
    pub fn new_f32(value: Binary32) -> (r: Self)
        ensures
            r@ == raw_of_float(Format::single(), value@, Self::max_raw()),
    {
        let scaled = value.multiply(Binary32::from_u16(255));
        Self::new(scaled.to_u8())
    }

    /// The fraction of a number of the 64-bit format: the number times 255,
    /// cut down to an integer. Numbers outside 0.0 to 1.0 give the nearer
    /// end of the range; not-a-number gives 0.0.
    pub fn new_f64(value: Binary64) -> (r: Self)
        ensures
            r@ == raw_of_float(Format::double(), value@, Self::max_raw()),
    {
        let scaled = value.multiply(Binary64::from_u16(255));
        Self::new(scaled.to_u8())
    }

    /// The fraction as a number of the 32-bit format: the raw integer times
    /// the reciprocal of 255.
    pub fn to_f32(self) -> (r: Binary32)
        ensures
            r@ == float_of_raw(Format::single(), self@, Self::max_raw()),
    {
        Binary32::from_u16(self.u8() as u16).multiply(reciprocal_255_single())
    }

    /// The fraction as a number of the 64-bit format: the raw integer times
    /// the reciprocal of 255.
    pub fn to_f64(self) -> (r: Binary64)
        ensures
            r@ == float_of_raw(Format::double(), self@, Self::max_raw()),
    {
        Binary64::from_u16(self.u8() as u16).multiply(reciprocal_255_double())
    }
}

impl FractionalU16 {
    /// The fraction of a number of the 32-bit format: the number times
    /// 65535, cut down to an integer. Numbers outside 0.0 to 1.0 give the
    /// nearer end of the range; not-a-number gives 0.0.
    pub fn new_f32(value: Binary32) -> (r: Self)
        ensures
            r@ == raw_of_float(Format::single(), value@, Self::max_raw()),
    {
        let scaled = value.multiply(Binary32::from_u16(65535));
        Self::new(scaled.to_u16())
    }

    /// The fraction of a number of the 64-bit format: the number times
    /// 65535, cut down to an integer. Numbers outside 0.0 to 1.0 give the
    /// nearer end of the range; not-a-number gives 0.0.
    pub fn new_f64(value: Binary64) -> (r: Self)
        ensures
            r@ == raw_of_float(Format::double(), value@, Self::max_raw()),
    {
        let scaled = value.multiply(Binary64::from_u16(65535));
        Self::new(scaled.to_u16())
    }

    /// The fraction as a number of the 32-bit format: the raw integer times
    /// the reciprocal of 65535.
    pub fn to_f32(self) -> (r: Binary32)
        ensures
            r@ == float_of_raw(Format::single(), self@, Self::max_raw()),
    {
        Binary32::from_u16(self.u16()).multiply(reciprocal_65535_single())
    }

    /// The fraction as a number of the 64-bit format: the raw integer times
    /// the reciprocal of 65535.
    pub fn to_f64(self) -> (r: Binary64)
        ensures
            r@ == float_of_raw(Format::double(), self@, Self::max_raw()),
    {
        Binary64::from_u16(self.u16()).multiply(reciprocal_65535_double())
    }
}

impl MulSpecImpl for FractionalU8 {
    open spec fn obeys_mul_spec() -> bool {
        true
    }

    open spec fn mul_req(self, rhs: Self) -> bool {
        true
    }

    open spec fn mul_spec(self, rhs: Self) -> FractionalU16 {
        FractionalU16::from_raw(raw_product(self@, rhs@))
    }
}

impl core::ops::Mul for FractionalU8 {
    type Output = FractionalU16;

    /// The product of two 8-bit fractions as a 16-bit fraction. It goes
    /// through the 64-bit format, so it is the nearest below the product of
    /// the two rounded numbers, not of the two exact fractions.
    fn mul(self, rhs: Self) -> (r: FractionalU16)
        ensures
            r@ == raw_product(self@, rhs@),
    {
        let r = FractionalU16::new_f64(self.to_f64().multiply(rhs.to_f64()));
        proof {
            r.lemma_from_raw();
        }
        r
    }
}

} // verus!
