//! Conversions between the two widths that do not pass through floating
//! point.

use vstd::prelude::*;
use crate::fractional_u16::FractionalU16;
use crate::fractional_u8::FractionalU8;
use crate::raw::{narrow, widen};

verus! {

impl FractionalU8 {
    /// The same fraction at 16 bits. Nothing is lost: 0.0 and 1.0 map to
    /// 0.0 and 1.0, and the steps in between are spread evenly.
    pub fn u16(self) -> (r: FractionalU16)
        ensures
            r@ == widen(self@),
    {
        let wide: u16 = self.u8() as u16;
        FractionalU16::new(wide * 257)
    }

    /// Widening and narrowing again gives the fraction back.
    pub proof fn lemma_u16_u8_round_trip(self)
        ensures
            widen(self@) <= FractionalU16::max_raw(),
            narrow(widen(self@)) == self@,
    {
        self.lemma_view_bounded();
    }
}

impl FractionalU16 {
    /// The 8-bit fraction at or just below this one. Up to 257 neighbouring
    /// 16-bit fractions share one result.
    pub fn u8(self) -> (r: FractionalU8)
        ensures
            r@ == narrow(self@),
    {
        let step: u16 = self.u16() / 257;
        FractionalU8::new(step as u8)
    }

    /// Narrowing never leaves the 8-bit range, and widening the result
    /// lands on the nearest 16-bit fraction at or below the start that an
    /// 8-bit fraction can reach.
    pub proof fn lemma_u8_u16_below(self)
        ensures
            narrow(self@) <= FractionalU8::max_raw(),
            widen(narrow(self@)) <= self@ < widen(narrow(self@)) + 257,
    {
        self.lemma_view_bounded();
    }
}

} // verus!
