//! Fixed-point fractions: an unsigned integer of 8 or 16 bits read as a
//! fraction of its largest value, so that zero stands for 0.0 and the
//! all-ones pattern stands for 1.0.

pub mod binary32;
pub mod binary64;
pub mod floating;
pub mod fractional_u16;
pub mod fractional_u8;
pub mod ieee;
pub mod raw;
pub mod rounding;
pub mod widths;

pub use binary32::Binary32;
pub use binary64::Binary64;
pub use fractional_u16::FractionalU16;
pub use fractional_u8::FractionalU8;
