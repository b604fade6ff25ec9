//! A mathematical model of binary floating point.
//!
//! A finite number is a sign, a natural mantissa and an integer exponent,
//! and stands for `mantissa * 2^exponent`. Rounding, products and the cut
//! down to an integer are defined here over natural numbers and integers
//! of any size, and the facts that the rest of the crate needs of them are
//! proved.

use vstd::prelude::*;
use vstd::arithmetic::div_mod::{
    lemma_div_by_multiple,
    lemma_div_denominator,
    lemma_div_is_ordered,
    lemma_fundamental_div_mod,
    lemma_multiply_divide_lt,
};
use vstd::arithmetic::mul::{
    lemma_mul_inequality,
    lemma_mul_strict_inequality,
    lemma_mul_strictly_positive,
};
use vstd::arithmetic::power2::{
    lemma2_to64,
    lemma_pow2_adds,
    lemma_pow2_pos,
    lemma_pow2_strictly_increases,
    lemma_pow2_unfold,
    pow2,
};

verus! {

/// What a bit pattern of a binary floating-point format stands for.
pub enum FloatValue {
    /// Not a number.
    Nan,
    /// An infinity.
    Infinite { negative: bool },
    /// The number `mantissa * 2^exponent`, negated where `negative` is set.
    /// Zero keeps its sign.
    Finite { negative: bool, mantissa: nat, exponent: int },
}

/// The three numbers that fix a binary floating-point format.
#[derive(Clone, Copy, Debug)]
pub struct Format {
    /// Number of bits of a mantissa, the leading one included.
    pub precision: u32,
    /// Exponent of the least positive number, which is `2^least_exponent`.
    pub least_exponent: i32,
    /// Exponent of the greatest power of two among the finite numbers.
    pub greatest_exponent: i32,
}

impl Format {
    /// The bounds within which the arithmetic of this crate works: a
    /// mantissa fits in a machine word, one is a number with a mantissa of
    /// full length, and every integer of that many bits is finite.
    pub open spec fn wf(self) -> bool {
        &&& 2 <= self.precision <= 63
        &&& -0x10_0000 <= self.least_exponent <= 1 - self.precision
        &&& self.precision - 1 <= self.greatest_exponent <= 0x10_0000
    }

    /// The 32-bit format: 24 bits of mantissa, numbers from `2^-149` to
    /// just under `2^128`.
    pub open spec fn single() -> Format {
        Format { precision: 24, least_exponent: -149i32, greatest_exponent: 127 }
    }

    /// The 64-bit format: 53 bits of mantissa, numbers from `2^-1074` to
    /// just under `2^1024`.
    pub open spec fn double() -> Format {
        Format { precision: 53, least_exponent: -1074i32, greatest_exponent: 1023 }
    }

    /// The 32-bit format.
    pub fn binary32() -> (fmt: Format)
        ensures
            fmt == Format::single(),
            fmt.wf(),
    {
        Format { precision: 24, least_exponent: -149i32, greatest_exponent: 127 }
    }

    /// The 64-bit format.
    pub fn binary64() -> (fmt: Format)
        ensures
            fmt == Format::double(),
            fmt.wf(),
    {
        Format { precision: 53, least_exponent: -1074i32, greatest_exponent: 1023 }
    }
}

/// Number of binary digits of `n`: the least `l` with `n < 2^l`.
pub open spec fn bit_length(n: nat) -> nat
    decreases n,
{
    if n == 0 {
        0
    } else {
        1 + bit_length(n / 2)
    }
}

/// The integer nearest to `n / d`; of two equally near, the even one.
pub open spec fn nearest_quotient(n: nat, d: nat) -> nat
    recommends
        d > 0,
{
    let q = n / d;
    let r = n % d;
    if 2 * r < d || (2 * r == d && q % 2 == 0) {
        q
    } else {
        q + 1
    }
}

/// The integer nearest to `n * 2^k`; of two equally near, the even one.
pub open spec fn scale_to_nearest(n: nat, k: int) -> nat {
    if k >= 0 {
        n * pow2(k as nat)
    } else {
        nearest_quotient(n, pow2((-k) as nat))
    }
}

/// The integer part of `n * 2^k`.
pub open spec fn scale_down(n: nat, k: int) -> nat {
    if k >= 0 {
        n * pow2(k as nat)
    } else {
        n / pow2((-k) as nat)
    }
}

/// Exponent of the last mantissa bit that the format keeps for a number of
/// the size of `n * 2^e`.
pub open spec fn quantum(fmt: Format, n: nat, e: int) -> int {
    let q = e + bit_length(n) - fmt.precision;
    if q < fmt.least_exponent {
        fmt.least_exponent as int
    } else {
        q
    }
}

/// Whether a value is one of the format's own, written the one way in
/// which a bit pattern holds it: a mantissa of full length, or a shorter
/// one at the least exponent.
pub open spec fn representable(fmt: Format, v: FloatValue) -> bool {
    match v {
        FloatValue::Nan => true,
        FloatValue::Infinite { .. } => true,
        FloatValue::Finite { mantissa, exponent, .. } => {
            &&& mantissa < pow2(fmt.precision as nat)
            &&& fmt.least_exponent <= exponent
            &&& exponent + fmt.precision - 1 <= fmt.greatest_exponent
            &&& exponent > fmt.least_exponent ==> mantissa >= pow2((fmt.precision - 1) as nat)
        },
    }
}

/// The number `n * 2^e`, with the given sign, rounded to the format: to the
/// nearest of the format's numbers, to the one with an even mantissa where
/// two are equally near, and to an infinity where the result would need an
/// exponent above the format's greatest.
pub open spec fn round_nearest_even(fmt: Format, negative: bool, n: nat, e: int) -> FloatValue {
    if n == 0 {
        FloatValue::Finite { negative, mantissa: 0, exponent: fmt.least_exponent as int }
    } else {
        let q = quantum(fmt, n, e);
        let m = scale_to_nearest(n, e - q);
        let carried = m == pow2(fmt.precision as nat);
        let mantissa = if carried {
            pow2((fmt.precision - 1) as nat)
        } else {
            m
        };
        let exponent = if carried {
            q + 1
        } else {
            q
        };
        if exponent + fmt.precision - 1 > fmt.greatest_exponent {
            FloatValue::Infinite { negative }
        } else {
            FloatValue::Finite { negative, mantissa, exponent }
        }
    }
}

/// The natural number `n` as a number of the format, rounded where the
/// format cannot hold it.
pub open spec fn from_nat(fmt: Format, n: nat) -> FloatValue {
    round_nearest_even(fmt, false, n, 0)
}

/// The product of two values, rounded to the format. Anything times
/// not-a-number, and zero times an infinity, is not a number.
pub open spec fn product(fmt: Format, a: FloatValue, b: FloatValue) -> FloatValue {
    match (a, b) {
        (FloatValue::Nan, _) => FloatValue::Nan,
        (_, FloatValue::Nan) => FloatValue::Nan,
        (FloatValue::Infinite { negative: s }, FloatValue::Infinite { negative: t }) => {
            FloatValue::Infinite { negative: s != t }
        },
        (FloatValue::Infinite { negative: s }, FloatValue::Finite { negative: t, mantissa, .. }) => {
            if mantissa == 0 {
                FloatValue::Nan
            } else {
                FloatValue::Infinite { negative: s != t }
            }
        },
        (FloatValue::Finite { negative: s, mantissa, .. }, FloatValue::Infinite { negative: t }) => {
            if mantissa == 0 {
                FloatValue::Nan
            } else {
                FloatValue::Infinite { negative: s != t }
            }
        },
        (
            FloatValue::Finite { negative: s, mantissa: m, exponent: e },
            FloatValue::Finite { negative: t, mantissa: n, exponent: f },
        ) => round_nearest_even(fmt, s != t, m * n, e + f),
    }
}

/// The value cut down to a natural number no larger than `max`: the
/// integer part of a number in range, zero for a negative number and for
/// not-a-number, `max` for anything above it.
pub open spec fn truncate_saturating(v: FloatValue, max: nat) -> nat {
    match v {
        FloatValue::Nan => 0,
        FloatValue::Infinite { negative } => if negative {
            0
        } else {
            max
        },
        FloatValue::Finite { negative, mantissa, exponent } => {
            if negative {
                0
            } else if scale_down(mantissa, exponent) > max {
                max
            } else {
                scale_down(mantissa, exponent)
            }
        },
    }
}

/// The number zero, with the positive sign.
pub open spec fn zero(fmt: Format) -> FloatValue {
    FloatValue::Finite { negative: false, mantissa: 0, exponent: fmt.least_exponent as int }
}

/// The number one.
pub open spec fn one(fmt: Format) -> FloatValue {
    FloatValue::Finite {
        negative: false,
        mantissa: pow2((fmt.precision - 1) as nat),
        exponent: 1 - fmt.precision,
    }
}

/// The number one half.
pub open spec fn half(fmt: Format) -> FloatValue {
    FloatValue::Finite {
        negative: false,
        mantissa: pow2((fmt.precision - 1) as nat),
        exponent: -(fmt.precision as int),
    }
}

/// Whether the value is a number below zero, or the negative infinity.
pub open spec fn below_zero(v: FloatValue) -> bool {
    match v {
        FloatValue::Nan => false,
        FloatValue::Infinite { negative } => negative,
        FloatValue::Finite { negative, mantissa, .. } => negative && mantissa > 0,
    }
}

/// Whether the value is a number above one, or the positive infinity.
pub open spec fn above_one(v: FloatValue) -> bool {
    match v {
        FloatValue::Nan => false,
        FloatValue::Infinite { negative } => !negative,
        FloatValue::Finite { negative, mantissa, exponent } => {
            &&& !negative
            &&& if exponent >= 0 {
                mantissa * pow2(exponent as nat) > 1
            } else {
                mantissa > pow2((-exponent) as nat)
            }
        },
    }
}

/// Powers of two grow with their exponent.
pub proof fn lemma_pow2_monotone(a: nat, b: nat)
    requires
        a <= b,
    ensures
        pow2(a) <= pow2(b),
{
    if a < b {
        lemma_pow2_strictly_increases(a, b);
    }
}

/// A positive number lies between the two powers of two that its bit
/// length names.
pub proof fn lemma_bit_length_bounds(n: nat)
    ensures
        n < pow2(bit_length(n)),
        n > 0 ==> pow2((bit_length(n) - 1) as nat) <= n,
    decreases n,
{
    lemma2_to64();
    if n > 0 {
        let half = n / 2;
        let l = bit_length(half);
        lemma_bit_length_bounds(half);
        lemma_pow2_unfold(l + 1);
        if half > 0 {
            lemma_pow2_unfold(l);
        }
    }
}

/// A number below `2^k` has at most `k` bits.
pub proof fn lemma_bit_length_at_most(n: nat, k: nat)
    requires
        n < pow2(k),
    ensures
        bit_length(n) <= k,
{
    lemma_bit_length_bounds(n);
    if bit_length(n) > k {
        lemma_pow2_monotone(k, (bit_length(n) - 1) as nat);
    }
}

/// Dropping the `k` lowest bits of a number that has more than `k` bits
/// shortens it by `k`.
pub proof fn lemma_bit_length_shift(n: nat, k: nat)
    requires
        n >= pow2(k),
    ensures
        bit_length(n) == k + bit_length(n / pow2(k)),
    decreases k,
{
    lemma2_to64();
    if k > 0 {
        let d = pow2((k - 1) as nat);
        lemma_pow2_unfold(k);
        lemma_pow2_pos((k - 1) as nat);
        lemma_bit_length_shift(n / 2, (k - 1) as nat);
        lemma_div_denominator(n as int, 2, d as int);
        assert((n / 2) / d == n / (2 * d));
    } else {
        assert(n / 1 == n);
    }
}

/// The bit length of a number is fixed by the powers of two around it.
pub proof fn lemma_bit_length_unique(n: nat, l: nat)
    requires
        l > 0,
        pow2((l - 1) as nat) <= n < pow2(l),
    ensures
        bit_length(n) == l,
{
    lemma_bit_length_at_most(n, l);
    lemma_bit_length_bounds(n);
    lemma_pow2_pos((l - 1) as nat);
    if bit_length(n) < l {
        lemma_pow2_monotone(bit_length(n), (l - 1) as nat);
    }
}

/// A quotient is at least `b` where the dividend is at least `b * d`.
pub proof fn lemma_quotient_at_least(n: int, d: int, b: int)
    requires
        d > 0,
        b >= 0,
        n >= b * d,
    ensures
        n / d >= b,
{
    lemma_div_is_ordered(b * d, n, d);
    lemma_div_by_multiple(b, d);
}

/// The nearest quotient is within half a unit of the exact one, and where
/// it is exactly half a unit off it is even.
pub proof fn lemma_nearest_quotient_is_nearest(n: nat, d: nat)
    requires
        d > 0,
    ensures
        2 * (nearest_quotient(n, d) * d - n) <= d,
        2 * (n - nearest_quotient(n, d) * d) <= d,
        2 * (nearest_quotient(n, d) * d - n) == d || 2 * (n - nearest_quotient(n, d) * d) == d
            ==> nearest_quotient(n, d) % 2 == 0,
{
    let q = n / d;
    let r = n % d;
    lemma_fundamental_div_mod(n as int, d as int);
    assert(d * q == q * d) by (nonlinear_arith);
    assert((q + 1) * d == q * d + d) by (nonlinear_arith);
}

/// What [`round_nearest_even`] gives is a number of the format.
pub proof fn lemma_round_representable(fmt: Format, negative: bool, n: nat, e: int)
    requires
        fmt.wf(),
    ensures
        representable(fmt, round_nearest_even(fmt, negative, n, e)),
{
    let p = fmt.precision as nat;
    lemma_pow2_pos(p);
    lemma_pow2_unfold(p);
    if n > 0 {
        let len = bit_length(n);
        let q = quantum(fmt, n, e);
        let k = e - q;
        let m = scale_to_nearest(n, k);
        lemma_bit_length_bounds(n);
        if k >= 0 {
            lemma_pow2_pos(k as nat);
            lemma_pow2_adds(len, k as nat);
            lemma_pow2_monotone((len + k) as nat, p);
            lemma_mul_strict_inequality(n as int, pow2(len) as int, pow2(k as nat) as int);
            if q > fmt.least_exponent {
                lemma_pow2_adds((len - 1) as nat, k as nat);
                lemma_mul_inequality(
                    pow2((len - 1) as nat) as int,
                    n as int,
                    pow2(k as nat) as int,
                );
            }
        } else {
            let shift = (-k) as nat;
            let d = pow2(shift);
            lemma_pow2_pos(shift);
            lemma_pow2_adds(p, shift);
            lemma_pow2_monotone(len, p + shift);
            assert(pow2(p) * d == d * pow2(p)) by (nonlinear_arith);
            lemma_multiply_divide_lt(n as int, d as int, pow2(p) as int);
            if q > fmt.least_exponent {
                lemma_pow2_adds((p - 1) as nat, shift);
                lemma_quotient_at_least(n as int, d as int, pow2((p - 1) as nat) as int);
            }
        }
    }
}

/// A positive integer with no more bits than the format keeps is one of
/// the format's numbers: converting it loses nothing.
pub proof fn lemma_from_nat_exact(fmt: Format, n: nat)
    requires
        fmt.wf(),
        0 < n < pow2(fmt.precision as nat),
    ensures
        bit_length(n) <= fmt.precision,
        from_nat(fmt, n) == (FloatValue::Finite {
            negative: false,
            mantissa: n * pow2((fmt.precision - bit_length(n)) as nat),
            exponent: bit_length(n) - fmt.precision,
        }),
{
    let p = fmt.precision as nat;
    let w = bit_length(n);
    lemma_bit_length_bounds(n);
    lemma_bit_length_at_most(n, p);
    let a = (p - w) as nat;
    lemma_pow2_pos(a);
    lemma_pow2_adds(w, a);
    lemma_mul_strict_inequality(n as int, pow2(w) as int, pow2(a) as int);
}

/// A number that is at least one, written `m * 2^e`, is at least
/// `2^(s - e)` once scaled by `2^s`.
proof fn lemma_unit_scaled(m: nat, e: int, s: nat)
    requires
        s - e >= 0,
        e >= 0 ==> m >= 1,
        e < 0 ==> m >= pow2((-e) as nat),
    ensures
        m * pow2(s) >= pow2((s - e) as nat),
{
    lemma_pow2_pos(s);
    if e >= 0 {
        lemma_pow2_monotone((s - e) as nat, s);
        lemma_mul_inequality(1, m as int, pow2(s) as int);
    } else {
        lemma_pow2_adds(s, (-e) as nat);
        lemma_mul_inequality(pow2((-e) as nat) as int, m as int, pow2(s) as int);
        assert(pow2(s) * pow2((-e) as nat) == pow2((-e) as nat) * pow2(s)) by (nonlinear_arith);
    }
}

/// A negative value times a natural number is cut down to zero.
pub proof fn lemma_below_zero_gives_zero(fmt: Format, v: FloatValue, max: nat)
    requires
        below_zero(v),
    ensures
        truncate_saturating(product(fmt, v, from_nat(fmt, max)), max) == 0,
{
}

/// A value above one times a positive integer `max`, one that leaves the
/// format a bit to spare, is cut down to `max`.
pub proof fn lemma_above_one_gives_max(fmt: Format, v: FloatValue, max: nat)
    requires
        fmt.wf(),
        above_one(v),
        0 < max < pow2((fmt.precision - 1) as nat),
    ensures
        truncate_saturating(product(fmt, v, from_nat(fmt, max)), max) == max,
{
    let p = fmt.precision as nat;
    let w = bit_length(max);
    lemma_pow2_unfold(p);
    lemma_bit_length_at_most(max, (p - 1) as nat);
    lemma_from_nat_exact(fmt, max);
    let a = (p - w) as nat;
    let pa = pow2(a);
    let mc = max * pa;
    lemma_pow2_pos(a);
    lemma_mul_strictly_positive(max as int, pa as int);
    match v {
        FloatValue::Nan => {},
        FloatValue::Infinite { .. } => {},
        FloatValue::Finite { mantissa: m, exponent: e, .. } => {
            // The number is at least one: m >= 1, and m >= 2^-e where e < 0.
            if e >= 0 {
                assert(m >= 1) by (nonlinear_arith)
                    requires
                        m * pow2(e as nat) > 1,
                ;
            } else {
                lemma_pow2_pos((-e) as nat);
            }
            let n = m * mc;
            let ee = e - a;
            lemma_mul_strictly_positive(m as int, mc as int);
            lemma_round_representable(fmt, false, n, ee);
            let q = quantum(fmt, n, ee);
            let k = ee - q;
            let m1 = scale_to_nearest(n, k);
            // The exact product is m * max * 2^e. Where the kept bits end
            // below the units, the rounded mantissa m1 is at least
            // max * 2^-q, so the rounded product is at least max.
            if q < 0 {
                let nq = (-q) as nat;
                let pq = pow2(nq);
                if k >= 0 {
                    let t = (a + k) as nat;
                    let pk = pow2(k as nat);
                    let pt = pow2(t);
                    lemma_pow2_adds(a, k as nat);
                    lemma_unit_scaled(m, e, t);
                    lemma_mul_inequality(pq as int, (m * pt) as int, max as int);
                    assert(n * pk == (m * pt) * max) by (nonlinear_arith)
                        requires
                            n == m * (max * pa),
                            pt == pa * pk,
                    ;
                    assert(m1 >= max * pq) by (nonlinear_arith)
                        requires
                            m1 == (m * pt) * max,
                            pq * max <= (m * pt) * max,
                    ;
                } else {
                    let d = pow2((-k) as nat);
                    let pae = pow2((a - e) as nat);
                    lemma_pow2_pos((-k) as nat);
                    lemma_unit_scaled(m, e, a);
                    lemma_pow2_adds(nq, (-k) as nat);
                    lemma_mul_inequality(pae as int, (m * pa) as int, max as int);
                    assert(n >= (max * pq) * d) by (nonlinear_arith)
                        requires
                            n == m * (max * pa),
                            pae == pq * d,
                            pae * max <= (m * pa) * max,
                    ;
                    lemma_mul_strictly_positive(max as int, pq as int);
                    lemma_pow2_pos(nq);
                    lemma_quotient_at_least(n as int, d as int, (max * pq) as int);
                }
            }
            match round_nearest_even(fmt, false, n, ee) {
                FloatValue::Finite { mantissa: mm, exponent: x, .. } => {
                    // With no bits below the units the mantissa has full
                    // length, and max has fewer bits than that.
                    if x >= 0 {
                        lemma_pow2_pos(x as nat);
                        lemma_mul_inequality(1, pow2(x as nat) as int, mm as int);
                        assert(mm * pow2(x as nat) == pow2(x as nat) * mm) by (nonlinear_arith);
                    } else {
                        let px = pow2((-x) as nat);
                        lemma_pow2_pos((-x) as nat);
                        if m1 == pow2(p) {
                            lemma_pow2_unfold((-q) as nat);
                            assert(mm >= max * px) by (nonlinear_arith)
                                requires
                                    2 * mm >= max * (2 * px),
                            ;
                        }
                        lemma_quotient_at_least(mm as int, px as int, max as int);
                    }
                },
                _ => {},
            }
        },
    }
}

} // verus!
