use fractional_int::ieee::Format;
use fractional_int::rounding::{from_unsigned, multiply, round, truncate, Unpacked};
use fractional_int::{Binary32, Binary64, FractionalU16, FractionalU8};

fn next(state: &mut u64) -> u64 {
    *state = state
        .wrapping_mul(6364136223846793005)
        .wrapping_add(1442695040888963407);
    let mut x = *state;
    x ^= x >> 33;
    x = x.wrapping_mul(0xff51afd7ed558ccd);
    x ^= x >> 33;
    x
}

fn same32(expected: f32, got: Binary32) -> bool {
    if expected.is_nan() {
        f32::from_bits(got.to_bits()).is_nan()
    } else {
        expected.to_bits() == got.to_bits()
    }
}

fn same64(expected: f64, got: Binary64) -> bool {
    if expected.is_nan() {
        f64::from_bits(got.to_bits()).is_nan()
    } else {
        expected.to_bits() == got.to_bits()
    }
}

const EDGES32: [u32; 20] = [
    0x0000_0000, 0x8000_0000, 0x0000_0001, 0x8000_0001, 0x007f_ffff, 0x0080_0000, 0x0080_0001,
    0x3f80_0000, 0xbf80_0000, 0x3f7f_ffff, 0x3f80_0001, 0x7f7f_ffff, 0xff7f_ffff, 0x7f80_0000,
    0xff80_0000, 0x7fc0_0000, 0x7f80_0001, 0x437f_0000, 0x477f_ff00, 0x3f00_0000,
];

const EDGES64: [u64; 20] = [
    0x0000_0000_0000_0000, 0x8000_0000_0000_0000, 0x0000_0000_0000_0001, 0x8000_0000_0000_0001,
    0x000f_ffff_ffff_ffff, 0x0010_0000_0000_0000, 0x0010_0000_0000_0001, 0x3ff0_0000_0000_0000,
    0xbff0_0000_0000_0000, 0x3fef_ffff_ffff_ffff, 0x3ff0_0000_0000_0001, 0x7fef_ffff_ffff_ffff,
    0xffef_ffff_ffff_ffff, 0x7ff0_0000_0000_0000, 0xfff0_0000_0000_0000, 0x7ff8_0000_0000_0000,
    0x7ff0_0000_0000_0001, 0x406f_e000_0000_0000, 0x40ef_ffe0_0000_0000, 0x3fe0_0000_0000_0000,
];

#[test]
fn binary32_multiply_matches_the_machine_on_edges() {
    for &a in EDGES32.iter() {
        for &b in EDGES32.iter() {
            let expected = f32::from_bits(a) * f32::from_bits(b);
            let got = Binary32::from_bits(a).multiply(Binary32::from_bits(b));
            assert!(same32(expected, got), "{:#x} * {:#x}", a, b);
        }
    }
}

#[test]
fn binary64_multiply_matches_the_machine_on_edges() {
    for &a in EDGES64.iter() {
        for &b in EDGES64.iter() {
            let expected = f64::from_bits(a) * f64::from_bits(b);
            let got = Binary64::from_bits(a).multiply(Binary64::from_bits(b));
            assert!(same64(expected, got), "{:#x} * {:#x}", a, b);
        }
    }
}

#[test]
fn binary32_multiply_matches_the_machine_on_many_patterns() {
    let mut state: u64 = 0x1234_5678_9abc_def0;
    for _ in 0..200_000 {
        let a = next(&mut state) as u32;
        let b = next(&mut state) as u32;
        let expected = f32::from_bits(a) * f32::from_bits(b);
        let got = Binary32::from_bits(a).multiply(Binary32::from_bits(b));
        assert!(same32(expected, got), "{:#x} * {:#x}", a, b);
    }
}

#[test]
fn binary64_multiply_matches_the_machine_on_many_patterns() {
    let mut state: u64 = 0x0fed_cba9_8765_4321;
    for _ in 0..200_000 {
        let a = next(&mut state);
        let b = next(&mut state);
        let expected = f64::from_bits(a) * f64::from_bits(b);
        let got = Binary64::from_bits(a).multiply(Binary64::from_bits(b));
        assert!(same64(expected, got), "{:#x} * {:#x}", a, b);
    }
}

#[test]
fn binary64_multiply_matches_the_machine_near_the_ends_of_the_range() {
    let mut state: u64 = 0x5555_aaaa_3333_cccc;
    for _ in 0..200_000 {
        let ma = next(&mut state) & 0x000f_ffff_ffff_ffff;
        let mb = next(&mut state) & 0x000f_ffff_ffff_ffff;
        let ea = next(&mut state) % 80;
        let eb = 971 + next(&mut state) % 60 - ea;
        let a = (ea << 52) | ma;
        let b = (eb << 52) | mb;
        let expected = f64::from_bits(a) * f64::from_bits(b);
        let got = Binary64::from_bits(a).multiply(Binary64::from_bits(b));
        assert!(same64(expected, got), "{:#x} * {:#x}", a, b);
        let c = ((2046 - ea) << 52) | ma;
        let d = ((1023 + eb % 70) << 52) | mb;
        let expected = f64::from_bits(c) * f64::from_bits(d);
        let got = Binary64::from_bits(c).multiply(Binary64::from_bits(d));
        assert!(same64(expected, got), "{:#x} * {:#x}", c, d);
    }
}

#[test]
fn binary32_multiply_matches_the_machine_near_the_ends_of_the_range() {
    let mut state: u64 = 0x7777_1111_9999_eeee;
    for _ in 0..200_000 {
        let ma = (next(&mut state) & 0x007f_ffff) as u32;
        let mb = (next(&mut state) & 0x007f_ffff) as u32;
        let ea = (next(&mut state) % 40) as u32;
        let eb = 104 + (next(&mut state) % 40) as u32 - ea;
        let a = (ea << 23) | ma;
        let b = (eb << 23) | mb;
        let expected = f32::from_bits(a) * f32::from_bits(b);
        let got = Binary32::from_bits(a).multiply(Binary32::from_bits(b));
        assert!(same32(expected, got), "{:#x} * {:#x}", a, b);
        let c = ((254 - ea) << 23) | ma;
        let d = ((127 + eb % 40) << 23) | mb;
        let expected = f32::from_bits(c) * f32::from_bits(d);
        let got = Binary32::from_bits(c).multiply(Binary32::from_bits(d));
        assert!(same32(expected, got), "{:#x} * {:#x}", c, d);
    }
}

#[test]
fn truncation_matches_the_machine_cast() {
    let mut state: u64 = 0x2468_ace0_1357_9bdf;
    for &a in EDGES32.iter() {
        assert_eq!(f32::from_bits(a) as u8, Binary32::from_bits(a).to_u8());
        assert_eq!(f32::from_bits(a) as u16, Binary32::from_bits(a).to_u16());
    }
    for &a in EDGES64.iter() {
        assert_eq!(f64::from_bits(a) as u8, Binary64::from_bits(a).to_u8());
        assert_eq!(f64::from_bits(a) as u16, Binary64::from_bits(a).to_u16());
    }
    for _ in 0..200_000 {
        let a = next(&mut state);
        assert_eq!(f64::from_bits(a) as u8, Binary64::from_bits(a).to_u8());
        assert_eq!(f64::from_bits(a) as u16, Binary64::from_bits(a).to_u16());
        let b = a as u32;
        assert_eq!(f32::from_bits(b) as u8, Binary32::from_bits(b).to_u8());
        assert_eq!(f32::from_bits(b) as u16, Binary32::from_bits(b).to_u16());
        let near = ((1023 - 2 + a % 22) << 52) | (a >> 12);
        assert_eq!(f64::from_bits(near) as u8, Binary64::from_bits(near).to_u8());
        assert_eq!(f64::from_bits(near) as u16, Binary64::from_bits(near).to_u16());
        let near = ((127 - 2 + b % 22) << 23) | (b >> 9);
        assert_eq!(f32::from_bits(near) as u8, Binary32::from_bits(near).to_u8());
        assert_eq!(f32::from_bits(near) as u16, Binary32::from_bits(near).to_u16());
    }
}

#[test]
fn integers_convert_as_the_machine_does() {
    for x in 0..=u16::MAX {
        assert_eq!((x as f32).to_bits(), Binary32::from_u16(x).to_bits());
        assert_eq!((x as f64).to_bits(), Binary64::from_u16(x).to_bits());
    }
}

#[test]
fn new_f32_matches_the_machine_across_all_exponents() {
    let mut bits: u32 = 0;
    loop {
        let v = f32::from_bits(bits);
        assert_eq!((v * 255.0) as u8, FractionalU8::new_f32(Binary32::from_bits(bits)).u8());
        assert_eq!((v * 65535.0) as u16, FractionalU16::new_f32(Binary32::from_bits(bits)).u16());
        match bits.checked_add(16411) {
            Some(next_bits) => bits = next_bits,
            None => break,
        }
    }
}

#[test]
fn new_f32_matches_the_machine_between_zero_and_one() {
    let mut state: u64 = 0x0bad_cafe_dead_beef;
    for _ in 0..300_000 {
        let v = (next(&mut state) >> 40) as f32 / (1u64 << 24) as f32 * 1.01;
        let bits = v.to_bits();
        assert_eq!((v * 255.0) as u8, FractionalU8::new_f32(Binary32::from_bits(bits)).u8());
        assert_eq!((v * 65535.0) as u16, FractionalU16::new_f32(Binary32::from_bits(bits)).u16());
    }
}

#[test]
fn new_f64_matches_the_machine_between_zero_and_one() {
    let mut state: u64 = 0xfeed_f00d_0123_4567;
    for _ in 0..300_000 {
        let v = (next(&mut state) >> 11) as f64 / (1u64 << 53) as f64 * 1.01;
        let bits = v.to_bits();
        assert_eq!((v * 255.0) as u8, FractionalU8::new_f64(Binary64::from_bits(bits)).u8());
        assert_eq!((v * 65535.0) as u16, FractionalU16::new_f64(Binary64::from_bits(bits)).u16());
    }
}

#[test]
fn new_f64_matches_the_machine_at_every_step_boundary() {
    for raw in 0..=u16::MAX {
        let exact = raw as f64 / 65535.0;
        for offset in [-2i64, -1, 0, 1, 2] {
            let bits = (exact.to_bits() as i64 + offset).max(0) as u64;
            let v = f64::from_bits(bits);
            assert_eq!((v * 65535.0) as u16, FractionalU16::new_f64(Binary64::from_bits(bits)).u16());
            assert_eq!((v * 255.0) as u8, FractionalU8::new_f64(Binary64::from_bits(bits)).u8());
        }
    }
}

#[test]
fn formats_hold_their_three_numbers() {
    let single = Format::binary32();
    assert_eq!((24, -149, 127), (single.precision, single.least_exponent, single.greatest_exponent));
    let double = Format::binary64();
    assert_eq!((53, -1074, 1023), (double.precision, double.least_exponent, double.greatest_exponent));
}

#[test]
fn pack_undoes_unpack() {
    let mut state: u64 = 0x1111_2222_3333_4444;
    for _ in 0..100_000 {
        let a = next(&mut state);
        let x = Binary64::from_bits(a);
        if !f64::from_bits(a).is_nan() {
            assert_eq!(x, Binary64::pack(x.unpack()));
        } else {
            assert_eq!(0x7ff8_0000_0000_0000, Binary64::pack(x.unpack()).to_bits());
        }
        let y = Binary32::from_bits(a as u32);
        if !f32::from_bits(a as u32).is_nan() {
            assert_eq!(y, Binary32::pack(y.unpack()));
        } else {
            assert_eq!(0x7fc0_0000, Binary32::pack(y.unpack()).to_bits());
        }
    }
}

#[test]
fn unpack_names_sign_mantissa_and_exponent() {
    match Binary64::from_bits((-1.5f64).to_bits()).unpack() {
        Unpacked::Finite { negative, mantissa, exponent } => {
            assert!(negative);
            assert_eq!(3 << 51, mantissa);
            assert_eq!(-52, exponent);
        }
        _ => panic!("-1.5 is finite"),
    }
    match Binary32::from_bits(1).unpack() {
        Unpacked::Finite { negative, mantissa, exponent } => {
            assert!(!negative);
            assert_eq!(1, mantissa);
            assert_eq!(-149, exponent);
        }
        _ => panic!("the least number is finite"),
    }
    assert!(matches!(
        Binary32::from_bits(f32::NEG_INFINITY.to_bits()).unpack(),
        Unpacked::Infinite { negative: true }
    ));
    assert!(matches!(Binary64::from_bits(f64::NAN.to_bits()).unpack(), Unpacked::Nan));
}

#[test]
fn round_breaks_ties_towards_even() {
    let fmt = Format::binary32();
    // 2^24 + 1 lies halfway between two numbers of the format: the even one wins.
    match round(fmt, false, (1 << 24) + 1, 0) {
        Unpacked::Finite { mantissa, exponent, .. } => {
            assert_eq!(1 << 23, mantissa);
            assert_eq!(1, exponent);
        }
        _ => panic!("finite"),
    }
    // 2^24 + 3 is halfway too, and here the even one is above.
    match round(fmt, false, (1 << 24) + 3, 0) {
        Unpacked::Finite { mantissa, exponent, .. } => {
            assert_eq!((1 << 23) + 2, mantissa);
            assert_eq!(1, exponent);
        }
        _ => panic!("finite"),
    }
    // All ones round up into the next power of two.
    match round(fmt, true, (1 << 25) - 1, 0) {
        Unpacked::Finite { negative, mantissa, exponent } => {
            assert!(negative);
            assert_eq!(1 << 23, mantissa);
            assert_eq!(2, exponent);
        }
        _ => panic!("finite"),
    }
    // Above the greatest number: an infinity.
    assert!(matches!(
        round(fmt, false, 1, 128),
        Unpacked::Infinite { negative: false }
    ));
    // Half of the least number is a tie between zero and it: zero is even.
    match round(fmt, false, 1, -150) {
        Unpacked::Finite { mantissa, exponent, .. } => {
            assert_eq!(0, mantissa);
            assert_eq!(-149, exponent);
        }
        _ => panic!("finite"),
    }
    // Three halves of the least number go up to twice it.
    match round(fmt, false, 3, -150) {
        Unpacked::Finite { mantissa, exponent, .. } => {
            assert_eq!(2, mantissa);
            assert_eq!(-149, exponent);
        }
        _ => panic!("finite"),
    }
}

#[test]
fn unpacked_arithmetic_agrees_with_the_bit_patterns() {
    let fmt = Format::binary64();
    let a = Binary64::from_bits(0.1f64.to_bits());
    let b = Binary64::from_bits(3.0f64.to_bits());
    let p = Binary64::pack(multiply(fmt, a.unpack(), b.unpack()));
    assert_eq!((0.1f64 * 3.0).to_bits(), p.to_bits());
    assert_eq!(
        (1000.0f64).to_bits(),
        Binary64::pack(from_unsigned(fmt, 1000)).to_bits()
    );
    assert_eq!(300, truncate(Binary64::from_bits(300.9f64.to_bits()).unpack(), 65535));
    assert_eq!(255, truncate(Binary64::from_bits(300.9f64.to_bits()).unpack(), 255));
    assert_eq!(0, truncate(Unpacked::Nan, 255));
}
