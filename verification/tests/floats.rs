use fractional_int::{Binary32, Binary64, FractionalU16, FractionalU8};

fn single(x: f32) -> Binary32 {
    Binary32::from_bits(x.to_bits())
}

fn double(x: f64) -> Binary64 {
    Binary64::from_bits(x.to_bits())
}

fn native32(x: Binary32) -> f32 {
    f32::from_bits(x.to_bits())
}

fn native64(x: Binary64) -> f64 {
    f64::from_bits(x.to_bits())
}

#[test]
fn f32_lt_zero_returns_zero() {
    assert_eq!(FractionalU8::default(), FractionalU8::new_f32(single(-0.1)));
}

#[test]
fn f64_lt_zero_returns_zero() {
    assert_eq!(FractionalU8::default(), FractionalU8::new_f64(double(-0.1)));
}

#[test]
fn f32_gt_one_returns_one() {
    assert_eq!(FractionalU8::max_value(), FractionalU8::new_f32(single(1.1)));
}

#[test]
fn f64_gt_one_returns_one() {
    assert_eq!(FractionalU8::max_value(), FractionalU8::new_f64(double(1.1)));
}

#[test]
fn zero_is_zero_f32() {
    assert_eq!(0.0, native32(FractionalU8::new(0).to_f32()));
    assert_eq!(0.0, native32(FractionalU16::new(0).to_f32()));
}

#[test]
fn zero_is_zero_f64() {
    assert_eq!(0.0, native64(FractionalU8::new(0).to_f64()));
    assert_eq!(0.0, native64(FractionalU16::new(0).to_f64()));
}

#[test]
fn max_is_one_f32() {
    assert_eq!(1.0, native32(FractionalU8::max_value().to_f32()));
    assert_eq!(1.0, native32(FractionalU16::max_value().to_f32()));
}

#[test]
fn max_is_one_f64() {
    assert_eq!(1.0, native64(FractionalU8::max_value().to_f64()));
    assert_eq!(1.0, native64(FractionalU16::max_value().to_f64()));
}

#[test]
fn new_f64_zero() {
    assert_eq!(0, FractionalU8::new_f64(double(0.0)).u8());
    assert_eq!(0, FractionalU16::new_f64(double(0.0)).u16());
}

#[test]
fn new_f64_one() {
    assert_eq!(u8::MAX, FractionalU8::new_f64(double(1.0)).u8());
    assert_eq!(u16::MAX, FractionalU16::new_f64(double(1.0)).u16());
}

#[test]
fn new_f64_half() {
    assert_eq!(u8::MAX / 2, FractionalU8::new_f64(double(0.5)).u8());
    assert_eq!(u16::MAX / 2, FractionalU16::new_f64(double(0.5)).u16());
}

#[test]
fn u8_mul_to_u16() {
    assert_eq!(
        FractionalU16::new(0),
        FractionalU8::new(0) * FractionalU8::new(0)
    );

    assert_eq!(
        FractionalU16::new_f32(single(0.0)),
        FractionalU8::new_f32(single(0.0)) * FractionalU8::new_f32(single(1.0))
    );

    assert_eq!(
        FractionalU16::new_f32(single(0.0)),
        FractionalU8::new_f32(single(1.0)) * FractionalU8::new_f32(single(0.0))
    );

    assert_eq!(
        FractionalU16::new_f32(single(1.0)),
        FractionalU8::new_f32(single(1.0)) * FractionalU8::new_f32(single(1.0))
    );

    assert_eq!(
        FractionalU16::new_f32(single(0.24805)), // rounding error
        FractionalU8::new_f32(single(0.5)) * FractionalU8::new_f32(single(0.5))
    );
}

#[test]
fn new_f32_zero_one_half() {
    assert_eq!(0, FractionalU8::new_f32(single(0.0)).u8());
    assert_eq!(255, FractionalU8::new_f32(single(1.0)).u8());
    assert_eq!(127, FractionalU8::new_f32(single(0.5)).u8());
    assert_eq!(0, FractionalU16::new_f32(single(0.0)).u16());
    assert_eq!(65535, FractionalU16::new_f32(single(1.0)).u16());
    assert_eq!(32767, FractionalU16::new_f32(single(0.5)).u16());
}

#[test]
fn half_times_half_is_short_of_a_quarter() {
    let product = FractionalU8::new_f32(single(0.5)) * FractionalU8::new_f32(single(0.5));
    assert_eq!(16255, product.u16());
    assert_ne!(FractionalU16::new_f64(double(0.25)), product);
    assert_eq!(16383, FractionalU16::new_f64(double(0.25)).u16());
}

#[test]
fn not_a_number_gives_zero() {
    assert_eq!(0, FractionalU8::new_f32(single(f32::NAN)).u8());
    assert_eq!(0, FractionalU8::new_f64(double(f64::NAN)).u8());
    assert_eq!(0, FractionalU16::new_f32(single(f32::NAN)).u16());
    assert_eq!(0, FractionalU16::new_f64(double(f64::NAN)).u16());
}

#[test]
fn infinities_clamp() {
    assert_eq!(255, FractionalU8::new_f32(single(f32::INFINITY)).u8());
    assert_eq!(0, FractionalU8::new_f32(single(f32::NEG_INFINITY)).u8());
    assert_eq!(65535, FractionalU16::new_f64(double(f64::INFINITY)).u16());
    assert_eq!(0, FractionalU16::new_f64(double(f64::NEG_INFINITY)).u16());
    assert_eq!(255, FractionalU8::new_f64(double(f64::MAX)).u8());
    assert_eq!(0, FractionalU8::new_f64(double(f64::MIN)).u8());
    assert_eq!(65535, FractionalU16::new_f32(single(f32::MAX)).u16());
}

#[test]
fn tiny_and_negative_zero_give_zero() {
    assert_eq!(0, FractionalU8::new_f64(double(-0.0)).u8());
    assert_eq!(0, FractionalU8::new_f64(double(f64::MIN_POSITIVE)).u8());
    assert_eq!(0, FractionalU8::new_f64(double(f64::from_bits(1))).u8());
    assert_eq!(0, FractionalU16::new_f32(single(f32::from_bits(1))).u16());
    assert_eq!(0, FractionalU16::new_f32(single(-0.0)).u16());
}

#[test]
fn just_below_one_stays_below_max() {
    let below32 = f32::from_bits(1.0f32.to_bits() - 1);
    let below64 = f64::from_bits(1.0f64.to_bits() - 1);
    assert_eq!(254, FractionalU8::new_f32(single(below32)).u8());
    assert_eq!(254, FractionalU8::new_f64(double(below64)).u8());
    assert_eq!(65534, FractionalU16::new_f32(single(below32)).u16());
    assert_eq!(65534, FractionalU16::new_f64(double(below64)).u16());
}

#[test]
fn every_u8_fraction_to_float_as_the_machine_does() {
    let r32: f32 = 1.0 / 255.0;
    let r64: f64 = 1.0 / 255.0;
    for raw in 0..=u8::MAX {
        let x = FractionalU8::new(raw);
        assert_eq!((raw as f32 * r32).to_bits(), x.to_f32().to_bits());
        assert_eq!((raw as f64 * r64).to_bits(), x.to_f64().to_bits());
    }
}

#[test]
fn every_u16_fraction_to_float_as_the_machine_does() {
    let r32: f32 = 1.0 / 65535.0;
    let r64: f64 = 1.0 / 65535.0;
    for raw in 0..=u16::MAX {
        let x = FractionalU16::new(raw);
        assert_eq!((raw as f32 * r32).to_bits(), x.to_f32().to_bits());
        assert_eq!((raw as f64 * r64).to_bits(), x.to_f64().to_bits());
    }
}

#[test]
fn every_u8_fraction_survives_the_float_round_trip_or_drops_one_step() {
    for raw in 0..=u8::MAX {
        let x = FractionalU8::new(raw);
        let expected32 = ((raw as f32 * (1.0f32 / 255.0)) * 255.0) as u8;
        let expected64 = ((raw as f64 * (1.0f64 / 255.0)) * 255.0) as u8;
        assert_eq!(expected32, FractionalU8::new_f32(x.to_f32()).u8());
        assert_eq!(expected64, FractionalU8::new_f64(x.to_f64()).u8());
    }
}

#[test]
fn every_product_of_u8_fractions_as_the_machine_computes_it() {
    let r: f64 = 1.0 / 255.0;
    for a in 0..=u8::MAX {
        for b in 0..=u8::MAX {
            let expected = (((a as f64 * r) * (b as f64 * r)) * 65535.0) as u16;
            let got = FractionalU8::new(a) * FractionalU8::new(b);
            assert_eq!(expected, got.u16());
        }
    }
}

#[test]
fn product_with_zero_is_zero() {
    for a in 0..=u8::MAX {
        assert_eq!(0, (FractionalU8::new(a) * FractionalU8::new(0)).u16());
        assert_eq!(0, (FractionalU8::new(0) * FractionalU8::new(a)).u16());
    }
    assert_eq!(
        0.0,
        native64((FractionalU8::new(77) * FractionalU8::default()).to_f64())
    );
}

#[test]
fn product_of_ones_is_one() {
    let one = FractionalU8::new_f32(single(1.0)) * FractionalU8::new_f32(single(1.0));
    assert_eq!(FractionalU16::max_value(), one);
    assert_eq!(1.0, native32(one.to_f32()));
    assert_eq!(1.0, native64(one.to_f64()));
}
