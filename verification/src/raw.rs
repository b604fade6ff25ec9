//! Arithmetic on raw values, stated over natural numbers.
//!
//! A raw value `a` of a width whose largest raw value is `max` stands for
//! the fraction `a / max`.

use vstd::prelude::*;

verus! {

/// Sum of two raw values, held at `max`.
pub open spec fn saturating_sum(a: nat, b: nat, max: nat) -> nat {
    if a + b > max {
        max
    } else {
        a + b
    }
}

/// Difference of two raw values, held at zero.
pub open spec fn saturating_difference(a: nat, b: nat) -> nat {
    if a < b {
        0
    } else {
        (a - b) as nat
    }
}

/// The raw value that stands for one minus the fraction `a / max`.
pub open spec fn complement(a: nat, max: nat) -> nat
    recommends
        a <= max,
{
    (max - a) as nat
}

/// The 16-bit raw value of an 8-bit one: `65535 / 255 == 257`, so both ends
/// of the range are kept.
pub open spec fn widen(a: nat) -> nat {
    a * 257
}

/// The 8-bit raw value of a 16-bit one, rounded down.
pub open spec fn narrow(a: nat) -> nat {
    a / 257
}

/// Taking the complement twice gives the raw value back.
pub proof fn lemma_complement_involution(a: nat, max: nat)
    requires
        a <= max,
    ensures
        complement(a, max) <= max,
        complement(complement(a, max), max) == a,
{
}

/// Widening keeps a raw value inside the 16-bit range and narrowing undoes it.
pub proof fn lemma_widen_narrow(a: nat)
    requires
        a <= 255,
    ensures
        widen(a) <= 65535,
        narrow(widen(a)) == a,
{
}

/// Narrowing then widening never goes above the value it started from, and
/// stays within one 8-bit step of it.
pub proof fn lemma_narrow_widen(a: nat)
    ensures
        widen(narrow(a)) <= a < widen(narrow(a)) + 257,
{
}

/// A saturating sum never leaves the range and never falls below either
/// operand that is inside it.
pub proof fn lemma_saturating_sum_bounds(a: nat, b: nat, max: nat)
    requires
        a <= max,
    ensures
        a <= saturating_sum(a, b, max) <= max,
        saturating_sum(max, b, max) == max,
        saturating_sum(a, 0, max) == a,
{
}

/// A saturating difference never exceeds what it was taken from.
pub proof fn lemma_saturating_difference_bounds(a: nat, b: nat)
    ensures
        saturating_difference(a, b) <= a,
        saturating_difference(0, b) == 0,
        saturating_difference(a, 0) == a,
{
}

} // verus!
