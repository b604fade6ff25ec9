//! The 16-bit fraction.

use vstd::prelude::*;
use vstd::std_specs::cmp::PartialOrdSpecImpl;
use vstd::std_specs::convert::FromSpecImpl;
use vstd::std_specs::ops::{AddSpecImpl, NotSpec, SubSpecImpl};
use core::cmp::Ordering;
use crate::raw::{complement, saturating_difference, saturating_sum};

verus! {

/// A 16-bit unsigned integer `raw` read as the fraction `raw / 65535`.
#[derive(Debug, Copy, Clone, Eq, PartialEq, Structural, Ord, Hash)]
pub struct FractionalU16(u16);

impl View for FractionalU16 {
    type V = nat;

    /// The raw integer.
    closed spec fn view(&self) -> nat {
        self.0 as nat
    }
}

impl FractionalU16 {
    /// Largest raw value; it stands for 1.0.
    pub open spec fn max_raw() -> nat {
        65535
    }

    /// The fraction with the given raw integer.
    pub closed spec fn from_raw(raw: nat) -> Self {
        FractionalU16(raw as u16)
    }

    /// The fraction 1.0.
    pub fn max_value() -> (r: Self)
        ensures
            r@ == Self::max_raw(),
    {
        Self(65535)
    }

    /// Wraps a raw integer as it is.
    pub fn new(value: u16) -> (r: Self)
        ensures
            r@ == value,
    {
        Self(value)
    }

    /// The raw integer.
    pub fn u16(self) -> (r: u16)
        ensures
            r == self@,
    {
        self.0
    }

    /// The larger of two fractions.
    pub fn max(self, rhs: Self) -> (r: Self)
        ensures
            r@ == if self@ >= rhs@ { self@ } else { rhs@ },
    {
        if self.0 >= rhs.0 {
            self
        } else {
            rhs
        }
    }

    /// The smaller of two fractions.
    pub fn min(self, rhs: Self) -> (r: Self)
        ensures
            r@ == if self@ <= rhs@ { self@ } else { rhs@ },
    {
        if self.0 <= rhs.0 {
            self
        } else {
            rhs
        }
    }

    /// Every raw value lies in the range of the width.
    pub proof fn lemma_view_bounded(self)
        ensures
            self@ <= Self::max_raw(),
    {
    }

    /// Inverting twice gives the fraction back.
    pub proof fn lemma_not_involution(self)
        ensures
            self.not_spec()@ == complement(self@, Self::max_raw()),
            self.not_spec().not_spec() == self,
    {
    }

    /// A fraction is the one that its raw integer names.
    pub proof fn lemma_from_raw(self)
        ensures
            Self::from_raw(self@) == self,
    {
    }

    /// Naming a fraction by a raw integer in range gives that raw integer.
    pub proof fn lemma_from_raw_view(raw: nat)
        requires
            raw <= Self::max_raw(),
        ensures
            Self::from_raw(raw)@ == raw,
    {
    }

    /// Two fractions are equal exactly when their raw integers are.
    pub proof fn lemma_eq_by_view(self, other: Self)
        ensures
            self == other <==> self@ == other@,
    {
    }
}

impl Default for FractionalU16 {
    /// The fraction 0.0.
    fn default() -> (r: Self)
        ensures
            r@ == 0,
    {
        Self(0)
    }
}

impl FromSpecImpl<u16> for FractionalU16 {
    open spec fn obeys_from_spec() -> bool {
        true
    }

    open spec fn from_spec(v: u16) -> Self {
        Self::from_raw(v as nat)
    }
}

impl From<u16> for FractionalU16 {
    fn from(value: u16) -> (r: Self)
        ensures
            r@ == value,
    {
        Self(value)
    }
}

impl vstd::std_specs::ops::NotSpecImpl for FractionalU16 {
    open spec fn obeys_not_spec() -> bool {
        true
    }

    open spec fn not_req(self) -> bool {
        true
    }

    open spec fn not_spec(self) -> Self {
        Self::from_raw(complement(self@, Self::max_raw()))
    }
}

impl core::ops::Not for FractionalU16 {
    type Output = Self;

    /// One minus the fraction: every bit of the raw integer flipped.
    fn not(self) -> (r: Self)
        ensures
            r@ == complement(self@, Self::max_raw()),
    {
        let x: u16 = self.0;
        assert(!x == 65535 - x) by (bit_vector);
        Self(!x)
    }
}

impl PartialOrdSpecImpl for FractionalU16 {
    open spec fn obeys_partial_cmp_spec() -> bool {
        true
    }

    /// Fractions are ordered as their raw integers are.
    open spec fn partial_cmp_spec(&self, other: &Self) -> Option<Ordering> {
        if self@ < other@ {
            Some(Ordering::Less)
        } else if self@ == other@ {
            Some(Ordering::Equal)
        } else {
            Some(Ordering::Greater)
        }
    }
}

impl PartialOrd for FractionalU16 {
    fn partial_cmp(&self, other: &Self) -> (r: Option<Ordering>) {
        if self.0 < other.0 {
            Some(Ordering::Less)
        } else if self.0 == other.0 {
            Some(Ordering::Equal)
        } else {
            Some(Ordering::Greater)
        }
    }
}

impl AddSpecImpl for FractionalU16 {
    open spec fn obeys_add_spec() -> bool {
        true
    }

    open spec fn add_req(self, rhs: Self) -> bool {
        true
    }

    open spec fn add_spec(self, rhs: Self) -> Self {
        Self::from_raw(saturating_sum(self@, rhs@, Self::max_raw()))
    }
}

impl core::ops::Add for FractionalU16 {
    type Output = Self;

    /// The sum, held at 1.0.
    fn add(self, rhs: Self) -> (r: Self)
        ensures
            r@ == saturating_sum(self@, rhs@, Self::max_raw()),
    {
        Self(self.0.saturating_add(rhs.0))
    }
}

impl AddSpecImpl<u16> for FractionalU16 {
    open spec fn obeys_add_spec() -> bool {
        true
    }

    open spec fn add_req(self, rhs: u16) -> bool {
        true
    }

    open spec fn add_spec(self, rhs: u16) -> Self {
        Self::from_raw(saturating_sum(self@, rhs as nat, Self::max_raw()))
    }
}

impl core::ops::Add<u16> for FractionalU16 {
    type Output = Self;

    /// The sum with a raw integer, held at 1.0.
    fn add(self, rhs: u16) -> (r: Self)
        ensures
            r@ == saturating_sum(self@, rhs as nat, Self::max_raw()),
    {
        Self(self.0.saturating_add(rhs))
    }
}

impl core::ops::AddAssign for FractionalU16 {
    /// Adds in place, holding the sum at 1.0.
    fn add_assign(&mut self, rhs: Self)
        ensures
            final(self)@ == saturating_sum(old(self)@, rhs@, Self::max_raw()),
    {
        self.0 = self.0.saturating_add(rhs.0);
    }
}

impl core::ops::AddAssign<u16> for FractionalU16 {
    /// Adds a raw integer in place, holding the sum at 1.0.
    fn add_assign(&mut self, rhs: u16)
        ensures
            final(self)@ == saturating_sum(old(self)@, rhs as nat, Self::max_raw()),
    {
        self.0 = self.0.saturating_add(rhs);
    }
}

impl SubSpecImpl for FractionalU16 {
    open spec fn obeys_sub_spec() -> bool {
        true
    }

    open spec fn sub_req(self, rhs: Self) -> bool {
        true
    }

    open spec fn sub_spec(self, rhs: Self) -> Self {
        Self::from_raw(saturating_difference(self@, rhs@))
    }
}

impl core::ops::Sub for FractionalU16 {
    type Output = Self;

    /// The difference, held at 0.0.
    fn sub(self, rhs: Self) -> (r: Self)
        ensures
            r@ == saturating_difference(self@, rhs@),
    {
        Self(self.0.saturating_sub(rhs.0))
    }
}

impl SubSpecImpl<u16> for FractionalU16 {
    open spec fn obeys_sub_spec() -> bool {
        true
    }

    open spec fn sub_req(self, rhs: u16) -> bool {
        true
    }

    open spec fn sub_spec(self, rhs: u16) -> Self {
        Self::from_raw(saturating_difference(self@, rhs as nat))
    }
}

impl core::ops::Sub<u16> for FractionalU16 {
    type Output = Self;

    /// The difference with a raw integer, held at 0.0.
    fn sub(self, rhs: u16) -> (r: Self)
        ensures
            r@ == saturating_difference(self@, rhs as nat),
    {
        Self(self.0.saturating_sub(rhs))
    }
}

impl core::ops::SubAssign for FractionalU16 {
    /// Subtracts in place, holding the difference at 0.0.
    fn sub_assign(&mut self, rhs: Self)
        ensures
            final(self)@ == saturating_difference(old(self)@, rhs@),
    {
        self.0 = self.0.saturating_sub(rhs.0);
    }
}

impl core::ops::SubAssign<u16> for FractionalU16 {
    /// Subtracts a raw integer in place, holding the difference at 0.0.
    fn sub_assign(&mut self, rhs: u16)
        ensures
            final(self)@ == saturating_difference(old(self)@, rhs as nat),
    {
        self.0 = self.0.saturating_sub(rhs);
    }
}

} // verus!
