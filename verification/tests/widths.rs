use fractional_int::{FractionalU16, FractionalU8};
use std::ops::Not;

#[test]
fn u8_to_u16() {
    let zero = FractionalU8::new(0);
    let one = FractionalU8::new(u8::MAX);

    assert_eq!(0, zero.u16().u16());
    assert_eq!(u16::MAX, one.u16().u16());
}

#[test]
fn u16_to_u8() {
    let zero = FractionalU16::new(0);
    let one = FractionalU16::new(u16::MAX);

    assert_eq!(0, zero.u8().u8());
    assert_eq!(u8::MAX, one.u8().u8());
}

#[test]
fn not() {
    assert_eq!(0, FractionalU8::new(255).not().u8());
    assert_eq!(255, FractionalU8::new(0).not().u8());
    assert_eq!(55, FractionalU8::new(200).not().u8());
}
