use array_buffer::number::{IntegerOrInfinity, Number};
use array_buffer::scaling::{normalize, round_half_even};

fn num(x: f64) -> Number {
    Number::from_bits(x.to_bits())
}

fn samples() -> Vec<f64> {
    let mut out = vec![
        0.0,
        -0.0,
        0.4,
        0.5,
        0.6,
        1.0,
        1.5,
        2.5,
        3.5,
        -1.5,
        -0.5,
        127.0,
        128.0,
        129.9,
        254.5,
        254.50001,
        255.0,
        255.5,
        256.0,
        257.6,
        32767.0,
        32768.0,
        65535.0,
        65536.0,
        65537.25,
        2147483647.0,
        2147483648.0,
        4294967295.0,
        4294967296.0,
        4294967297.5,
        -2147483648.0,
        -2147483649.0,
        -4294967296.0,
        1e10,
        -1e10,
        1e15,
        9007199254740991.0,
        9007199254740992.0,
        9007199254740994.0,
        1e19,
        -1e19,
        1e21,
        1e30,
        1e300,
        -1e300,
        9223372036854775807.0,
        -9223372036854775808.0,
        18446744073709551616.0,
        5e-324,
        1e-310,
        2.2250738585072014e-308,
        1e-45,
        7e-46,
        1.4e-45,
        2.1e-45,
        1.1754943508222875e-38,
        1.1754942106924411e-38,
        1e-38,
        1e-39,
        3.4028234663852886e38,
        3.4028235677973366e38,
        3.4028235677973362e38,
        3.4028235677973370e38,
        3.5e38,
        1e39,
        0.1,
        0.2,
        0.3,
        1.0000000596046448,
        1.0000001788139343,
        1.00000005960464477539,
        16777216.0,
        16777217.0,
        16777218.0,
        16777219.0,
        f64::INFINITY,
        f64::NEG_INFINITY,
        f64::NAN,
        f64::MAX,
        f64::MIN,
        f64::MIN_POSITIVE,
        f64::EPSILON,
    ];
    // A spread of patterns over every exponent.
    let mut state: u64 = 0x9e37_79b9_7f4a_7c15;
    for _ in 0..4000 {
        state ^= state << 13;
        state ^= state >> 7;
        state ^= state << 17;
        out.push(f64::from_bits(state));
    }
    // Values near the edges of single precision, where rounding decides.
    for e in [-150i32, -149, -148, -127, -126, -125, -1, 0, 1, 23, 24, 126, 127, 128] {
        for m in [0u64, 1, 0x0fff_ffff, 0x1000_0000, 0x1000_0001, 0x2fff_ffff, 0x3000_0000,
            0x3000_0001, 0xf_ffff_efff_ffff, 0xf_ffff_f000_0000, 0xf_ffff_ffff_ffff] {
            let field = (e + 1023) as u64;
            out.push(f64::from_bits((field << 52) | m));
            out.push(f64::from_bits((1 << 63) | (field << 52) | m));
        }
    }
    out
}

fn modulo(x: f64, bits: u32) -> u64 {
    if !x.is_finite() {
        return 0;
    }
    let modulus = 2f64.powi(bits as i32);
    let r = x.trunc().rem_euclid(modulus);
    r as u64
}

#[test]
fn to_uint_matches_modular_reduction() {
    for x in samples() {
        assert_eq!(num(x).to_uint8() as u64, modulo(x, 8), "{x}");
        assert_eq!(num(x).to_uint16() as u64, modulo(x, 16), "{x}");
        assert_eq!(num(x).to_uint32() as u64, modulo(x, 32), "{x}");
    }
}

#[test]
fn to_int_reinterprets_as_signed() {
    for x in samples() {
        assert_eq!(num(x).to_int8(), modulo(x, 8) as u8 as i8, "{x}");
        assert_eq!(num(x).to_int16(), modulo(x, 16) as u16 as i16, "{x}");
        assert_eq!(num(x).to_int32(), modulo(x, 32) as u32 as i32, "{x}");
    }
}

#[test]
fn to_int32_examples() {
    assert_eq!(num(16909060.0).to_int32(), 0x01020304);
    assert_eq!(num(-1.0).to_int32(), -1);
    assert_eq!(num(-1.0).to_uint32(), 4294967295);
    assert_eq!(num(4294967296.0 + 5.0).to_int32(), 5);
    assert_eq!(num(2147483648.0).to_int32(), -2147483648);
    assert_eq!(num(-0.9).to_int32(), 0);
    assert_eq!(num(f64::NAN).to_int32(), 0);
    assert_eq!(num(f64::INFINITY).to_int32(), 0);
    assert_eq!(num(300.0).to_uint8(), 44);
    assert_eq!(num(-1.0).to_uint8(), 255);
    assert_eq!(num(200.0).to_int8(), -56);
    assert_eq!(num(65537.0).to_uint16(), 1);
    assert_eq!(num(40000.0).to_int16(), -25536);
}

fn clamp_reference(x: f64) -> u8 {
    if x.is_nan() || x <= 0.0 {
        0
    } else if x >= 255.0 {
        255
    } else {
        let f = x.floor();
        if f + 0.5 < x {
            (f + 1.0) as u8
        } else if x < f + 0.5 {
            f as u8
        } else if (f as u8) % 2 == 0 {
            f as u8
        } else {
            (f + 1.0) as u8
        }
    }
}

#[test]
fn to_uint8_clamp_matches_reference() {
    for x in samples() {
        assert_eq!(num(x).to_uint8_clamp(), clamp_reference(x), "{x}");
    }
}

#[test]
fn to_uint8_clamp_examples() {
    assert_eq!(num(257.6).to_uint8_clamp(), 255);
    assert_eq!(num(-3.0).to_uint8_clamp(), 0);
    assert_eq!(num(f64::NAN).to_uint8_clamp(), 0);
    assert_eq!(num(0.5).to_uint8_clamp(), 0);
    assert_eq!(num(1.5).to_uint8_clamp(), 2);
    assert_eq!(num(2.5).to_uint8_clamp(), 2);
    assert_eq!(num(2.500001).to_uint8_clamp(), 3);
    assert_eq!(num(254.5).to_uint8_clamp(), 254);
    assert_eq!(num(254.6).to_uint8_clamp(), 255);
    assert_eq!(num(f64::INFINITY).to_uint8_clamp(), 255);
    assert_eq!(num(f64::NEG_INFINITY).to_uint8_clamp(), 0);
    assert_eq!(num(100.0).to_uint8_clamp(), 100);
}

#[test]
fn to_binary32_matches_native_rounding() {
    for x in samples() {
        let expected = x as f32;
        let got = num(x).to_binary32();
        if expected.is_nan() {
            assert_eq!(got, 0x7fc0_0000, "{x}");
        } else {
            assert_eq!(got, expected.to_bits(), "{x}");
        }
    }
}

#[test]
fn from_binary32_matches_native_widening() {
    let mut patterns: Vec<u32> = vec![
        0,
        0x8000_0000,
        1,
        2,
        0x007f_ffff,
        0x0080_0000,
        0x0080_0001,
        0x3f80_0000,
        0xbf80_0000,
        0x7f7f_ffff,
        0x7f80_0000,
        0xff80_0000,
        0x7fc0_0000,
        0x7f80_0001,
        0xffff_ffff,
        0x0000_0400,
        0x0040_0000,
    ];
    let mut state: u32 = 0x1234_5678;
    for _ in 0..4000 {
        state ^= state << 13;
        state ^= state >> 17;
        state ^= state << 5;
        patterns.push(state);
        patterns.push(state & 0x807f_ffff);
    }
    for bits in patterns {
        let expected = f32::from_bits(bits) as f64;
        let got = Number::from_binary32(bits);
        if expected.is_nan() {
            assert_eq!(got.to_bits(), 0x7ff8_0000_0000_0000, "{bits:#x}");
        } else {
            assert_eq!(got.to_bits(), expected.to_bits(), "{bits:#x}");
            assert_eq!(got.to_binary32(), bits, "{bits:#x}");
        }
    }
}

#[test]
fn from_integer_matches_native_conversion() {
    let values: Vec<i64> = vec![
        0,
        1,
        -1,
        2,
        3,
        255,
        256,
        -128,
        65535,
        2147483647,
        -2147483648,
        4294967295,
        8589934592,
        9007199254740991,
        -9007199254740991,
        4503599627370496,
        4503599627370495,
    ];
    for v in values {
        assert_eq!(Number::from_integer(v).to_bits(), (v as f64).to_bits(), "{v}");
    }
}

#[test]
fn to_integer_or_infinity_truncates_and_saturates() {
    assert_eq!(num(f64::NAN).to_integer_or_infinity(), IntegerOrInfinity::Integer(0));
    assert_eq!(num(-0.0).to_integer_or_infinity(), IntegerOrInfinity::Integer(0));
    assert_eq!(num(f64::INFINITY).to_integer_or_infinity(), IntegerOrInfinity::PositiveInfinity);
    assert_eq!(
        num(f64::NEG_INFINITY).to_integer_or_infinity(),
        IntegerOrInfinity::NegativeInfinity
    );
    assert_eq!(num(3.9).to_integer_or_infinity(), IntegerOrInfinity::Integer(3));
    assert_eq!(num(-3.9).to_integer_or_infinity(), IntegerOrInfinity::Integer(-3));
    assert_eq!(num(1e30).to_integer_or_infinity(), IntegerOrInfinity::Integer(i64::MAX));
    assert_eq!(num(-1e30).to_integer_or_infinity(), IntegerOrInfinity::Integer(i64::MIN));
    for x in samples() {
        if x.is_finite() {
            assert_eq!(
                num(x).to_integer_or_infinity(),
                IntegerOrInfinity::Integer(x.trunc() as i64),
                "{x}"
            );
        }
    }
}

#[test]
fn round_half_even_examples() {
    assert_eq!(round_half_even(5, 1), 2);
    assert_eq!(round_half_even(7, 1), 4);
    assert_eq!(round_half_even(6, 2), 2);
    assert_eq!(round_half_even(10, 2), 2);
    assert_eq!(round_half_even(11, 2), 3);
    assert_eq!(round_half_even(9, 2), 2);
    assert_eq!(round_half_even(u64::MAX, 63), 2);
}

#[test]
fn normalize_scales_to_fifty_three_digits() {
    assert_eq!(normalize(1), (1 << 52, 52));
    assert_eq!(normalize(3), (3 << 51, 51));
    assert_eq!(normalize((1 << 53) - 1), ((1 << 53) - 1, 0));
    assert_eq!(normalize(1 << 52), (1 << 52, 0));
    assert_eq!(normalize((1 << 52) - 1), ((1 << 53) - 2, 1));
}
