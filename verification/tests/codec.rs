use array_buffer::array_buffer::ArrayBuffer;
use array_buffer::bigint::{clamp_i64, clamp_u64, JsBigInt};
use array_buffer::bytes::{decode_unsigned, encode_unsigned};
use array_buffer::element::ElementType;
use array_buffer::error::JsError;
use array_buffer::number::Number;
use array_buffer::value::JsValue;
use num_bigint::{BigInt, Sign};
use num_traits::ToPrimitive;

fn num(x: f64) -> JsValue {
    JsValue::Number(Number::from_bits(x.to_bits()))
}

fn as_f64(value: &JsValue) -> f64 {
    match value {
        JsValue::Number(n) => f64::from_bits(n.to_bits()),
        other => panic!("not a number: {other:?}"),
    }
}

fn big(value: &BigInt) -> JsValue {
    let (sign, digits) = value.to_u32_digits();
    JsValue::BigInt(JsBigInt::new(sign == Sign::Minus, digits))
}

fn as_big(value: &JsValue) -> BigInt {
    match value {
        JsValue::BigInt(b) => {
            let sign = if b.negative { Sign::Minus } else { Sign::Plus };
            BigInt::from_slice(sign, &b.magnitude)
        }
        other => panic!("not a big integer: {other:?}"),
    }
}

fn encode(t: ElementType, value: &JsValue, little_endian: bool) -> Vec<u8> {
    ArrayBuffer::numeric_to_raw_bytes(t, value, little_endian).unwrap()
}

fn decode(t: ElementType, bytes: &[u8], little_endian: bool) -> JsValue {
    ArrayBuffer::raw_bytes_to_numeric(t, bytes, little_endian)
}

const NUMBER_TYPES: [ElementType; 9] = [
    ElementType::Int8,
    ElementType::Uint8,
    ElementType::Uint8Clamped,
    ElementType::Int16,
    ElementType::Uint16,
    ElementType::Int32,
    ElementType::Uint32,
    ElementType::Float32,
    ElementType::Float64,
];

#[test]
fn unsigned_bytes_in_both_orders() {
    assert_eq!(encode_unsigned(0x0102030405060708, 8, true), vec![8, 7, 6, 5, 4, 3, 2, 1]);
    assert_eq!(encode_unsigned(0x0102030405060708, 8, false), vec![1, 2, 3, 4, 5, 6, 7, 8]);
    assert_eq!(encode_unsigned(0x0102030405060708, 2, true), vec![8, 7]);
    assert_eq!(encode_unsigned(0x0102030405060708, 2, false), vec![7, 8]);
    assert_eq!(encode_unsigned(5, 0, true), Vec::<u8>::new());
    assert_eq!(decode_unsigned(&[8, 7, 6, 5, 4, 3, 2, 1], true), 0x0102030405060708);
    assert_eq!(decode_unsigned(&[8, 7, 6, 5, 4, 3, 2, 1], false), 0x0807060504030201);
    assert_eq!(decode_unsigned(&[0xff, 0x01], true), 0x01ff);
    assert_eq!(decode_unsigned(&[], false), 0);
}

#[test]
fn integers_encode_as_native_bytes() {
    let values = [0.0, 1.0, -1.0, 127.0, 128.0, 255.0, 256.0, 40000.0, -40000.0, 16909060.0,
        4294967295.0, -2147483648.0, 1e12, -1e12, 3.7, -3.7];
    for x in values {
        let v = num(x);
        let t = x.trunc().rem_euclid(4294967296.0) as u64;
        assert_eq!(encode(ElementType::Int8, &v, true), (t as u8 as i8).to_le_bytes());
        assert_eq!(encode(ElementType::Int8, &v, false), (t as u8 as i8).to_be_bytes());
        assert_eq!(encode(ElementType::Uint8, &v, true), (t as u8).to_le_bytes());
        assert_eq!(encode(ElementType::Int16, &v, true), (t as u16 as i16).to_le_bytes());
        assert_eq!(encode(ElementType::Int16, &v, false), (t as u16 as i16).to_be_bytes());
        assert_eq!(encode(ElementType::Uint16, &v, true), (t as u16).to_le_bytes());
        assert_eq!(encode(ElementType::Uint16, &v, false), (t as u16).to_be_bytes());
        assert_eq!(encode(ElementType::Int32, &v, true), (t as u32 as i32).to_le_bytes());
        assert_eq!(encode(ElementType::Int32, &v, false), (t as u32 as i32).to_be_bytes());
        assert_eq!(encode(ElementType::Uint32, &v, true), (t as u32).to_le_bytes());
        assert_eq!(encode(ElementType::Uint32, &v, false), (t as u32).to_be_bytes());
        assert_eq!(encode(ElementType::Float32, &v, true), (x as f32).to_le_bytes());
        assert_eq!(encode(ElementType::Float32, &v, false), (x as f32).to_be_bytes());
        assert_eq!(encode(ElementType::Float64, &v, true), x.to_le_bytes());
        assert_eq!(encode(ElementType::Float64, &v, false), x.to_be_bytes());
    }
}

#[test]
fn bytes_decode_as_native_values() {
    let blocks: [[u8; 8]; 5] = [
        [0, 0, 0, 0, 0, 0, 0, 0],
        [0xff, 0xff, 0xff, 0xff, 0xff, 0xff, 0xff, 0xff],
        [1, 2, 3, 4, 5, 6, 7, 8],
        [0x80, 0, 0, 0, 0, 0, 0, 0x80],
        [0x7f, 0xf0, 0x12, 0x34, 0x56, 0x78, 0x9a, 0xbf],
    ];
    for b in blocks {
        assert_eq!(as_f64(&decode(ElementType::Int8, &b[..1], true)), i8::from_le_bytes([b[0]]) as f64);
        assert_eq!(as_f64(&decode(ElementType::Uint8, &b[..1], false)), b[0] as f64);
        assert_eq!(as_f64(&decode(ElementType::Uint8Clamped, &b[..1], false)), b[0] as f64);
        let two = [b[0], b[1]];
        assert_eq!(as_f64(&decode(ElementType::Int16, &two, true)), i16::from_le_bytes(two) as f64);
        assert_eq!(as_f64(&decode(ElementType::Int16, &two, false)), i16::from_be_bytes(two) as f64);
        assert_eq!(as_f64(&decode(ElementType::Uint16, &two, true)), u16::from_le_bytes(two) as f64);
        assert_eq!(as_f64(&decode(ElementType::Uint16, &two, false)), u16::from_be_bytes(two) as f64);
        let four = [b[0], b[1], b[2], b[3]];
        assert_eq!(as_f64(&decode(ElementType::Int32, &four, true)), i32::from_le_bytes(four) as f64);
        assert_eq!(as_f64(&decode(ElementType::Int32, &four, false)), i32::from_be_bytes(four) as f64);
        assert_eq!(as_f64(&decode(ElementType::Uint32, &four, true)), u32::from_le_bytes(four) as f64);
        assert_eq!(as_f64(&decode(ElementType::Uint32, &four, false)), u32::from_be_bytes(four) as f64);
        for le in [true, false] {
            let single = if le { f32::from_le_bytes(four) } else { f32::from_be_bytes(four) };
            let got = as_f64(&decode(ElementType::Float32, &four, le));
            assert!(got.to_bits() == (single as f64).to_bits() || (got.is_nan() && single.is_nan()));
            let double = if le { f64::from_le_bytes(b) } else { f64::from_be_bytes(b) };
            let got = as_f64(&decode(ElementType::Float64, &b, le));
            assert_eq!(got.to_bits(), double.to_bits());
        }
        assert_eq!(as_big(&decode(ElementType::BigInt64, &b, true)), BigInt::from(i64::from_le_bytes(b)));
        assert_eq!(as_big(&decode(ElementType::BigInt64, &b, false)), BigInt::from(i64::from_be_bytes(b)));
        assert_eq!(as_big(&decode(ElementType::BigUint64, &b, true)), BigInt::from(u64::from_le_bytes(b)));
        assert_eq!(as_big(&decode(ElementType::BigUint64, &b, false)), BigInt::from(u64::from_be_bytes(b)));
    }
}

#[test]
fn decode_inverts_encode_up_to_the_type() {
    let values = [0.0, -0.0, 1.0, -1.0, 0.5, 1.5, 2.5, 100.25, 255.0, 256.0, 257.6, -129.0,
        65535.9, 1e9, -1e9, 4294967296.0, 1e-40, 1e40, f64::INFINITY, f64::NEG_INFINITY];
    for x in values {
        for le in [true, false] {
            let v = num(x);
            let back = |t| as_f64(&decode(t, &encode(t, &v, le), le));
            let t = x.trunc();
            let m = |bits: i32| if x.is_finite() { t.rem_euclid(2f64.powi(bits)) } else { 0.0 };
            assert_eq!(back(ElementType::Uint8), m(8));
            assert_eq!(back(ElementType::Uint16), m(16));
            assert_eq!(back(ElementType::Uint32), m(32));
            assert_eq!(back(ElementType::Int8), (m(8) as u8 as i8) as f64);
            assert_eq!(back(ElementType::Int16), (m(16) as u16 as i16) as f64);
            assert_eq!(back(ElementType::Int32), (m(32) as u32 as i32) as f64);
            assert_eq!(back(ElementType::Float32).to_bits(), ((x as f32) as f64).to_bits());
            assert_eq!(back(ElementType::Float64).to_bits(), x.to_bits());
        }
    }
    let v = num(f64::NAN);
    for t in NUMBER_TYPES {
        let back = as_f64(&decode(t, &encode(t, &v, true), true));
        if t == ElementType::Float32 || t == ElementType::Float64 {
            assert!(back.is_nan());
        } else {
            assert_eq!(back, 0.0);
        }
    }
    assert_eq!(as_f64(&decode(ElementType::Uint8Clamped, &encode(ElementType::Uint8Clamped, &num(257.6), true), true)), 255.0);
    assert_eq!(as_f64(&decode(ElementType::Uint8Clamped, &encode(ElementType::Uint8Clamped, &num(-5.0), false), false)), 0.0);
    assert_eq!(as_f64(&decode(ElementType::Uint8Clamped, &encode(ElementType::Uint8Clamped, &num(2.5), false), false)), 2.0);
}

#[test]
fn big_endian_is_little_endian_reversed() {
    let values = [0.0, 1.0, -2.0, 258.0, 16909060.0, 3.14159, -1e300, 1e-300];
    for x in values {
        for t in NUMBER_TYPES {
            let mut be = encode(t, &num(x), false);
            be.reverse();
            assert_eq!(be, encode(t, &num(x), true));
            assert_eq!(be.len(), t.element_size());
        }
    }
    let v = big(&BigInt::from(0x0102030405060708i64));
    assert_eq!(encode(ElementType::BigInt64, &v, false), vec![1, 2, 3, 4, 5, 6, 7, 8]);
    assert_eq!(encode(ElementType::BigInt64, &v, true), vec![8, 7, 6, 5, 4, 3, 2, 1]);
    assert_eq!(encode(ElementType::BigUint64, &v, true), vec![8, 7, 6, 5, 4, 3, 2, 1]);
}

#[test]
fn booleans_null_and_undefined_convert() {
    assert_eq!(encode(ElementType::Uint8, &JsValue::Boolean(true), true), vec![1]);
    assert_eq!(encode(ElementType::Uint8, &JsValue::Boolean(false), true), vec![0]);
    assert_eq!(encode(ElementType::Uint8, &JsValue::Null, true), vec![0]);
    assert_eq!(encode(ElementType::Uint8, &JsValue::Undefined, true), vec![0]);
    assert_eq!(encode(ElementType::Float64, &JsValue::Boolean(true), false), 1f64.to_be_bytes());
    assert!(f64::from_be_bytes(
        encode(ElementType::Float64, &JsValue::Undefined, false).try_into().unwrap()
    )
    .is_nan());
    assert_eq!(encode(ElementType::BigInt64, &JsValue::Boolean(true), true), 1i64.to_le_bytes());
}

#[test]
fn coercion_failures_are_type_errors() {
    let one = big(&BigInt::from(1));
    for t in NUMBER_TYPES {
        let error = ArrayBuffer::numeric_to_raw_bytes(t, &one, true).unwrap_err();
        assert_eq!(error, JsError::CannotConvertToNumber);
    }
    for t in [ElementType::BigInt64, ElementType::BigUint64] {
        for v in [num(1.0), JsValue::Undefined, JsValue::Null] {
            let error = ArrayBuffer::numeric_to_raw_bytes(t, &v, true).unwrap_err();
            assert_eq!(error, JsError::CannotConvertToBigInt);
        }
    }
}

fn mod_pow64(value: &BigInt) -> BigInt {
    let modulus: BigInt = BigInt::from(1u8) << 64usize;
    ((value % &modulus) + &modulus) % &modulus
}

#[test]
fn big_integers_wrap_to_sixty_four_bits() {
    let two64: BigInt = BigInt::from(1u8) << 64usize;
    let two63: BigInt = BigInt::from(1u8) << 63usize;
    let two200: BigInt = BigInt::from(1u8) << 200usize;
    let two96: BigInt = BigInt::from(1u8) << 96usize;
    let two32: BigInt = BigInt::from(1u8) << 32usize;
    let huge: BigInt = two200 + BigInt::from(5);
    let values = vec![
        BigInt::from(0),
        BigInt::from(1),
        BigInt::from(-1),
        BigInt::from(i64::MAX),
        BigInt::from(i64::MIN),
        BigInt::from(u64::MAX),
        two63.clone(),
        -two63.clone(),
        -two63.clone() - 1,
        two64.clone(),
        two64.clone() + 1,
        -two64.clone(),
        -two64.clone() - 1,
        huge.clone(),
        -huge.clone(),
        BigInt::from(0x1234_5678_9abc_def0u64),
        two32.clone(),
        two96 + two32 * BigInt::from(7),
    ];
    for v in values {
        let unsigned = mod_pow64(&v).to_u64().unwrap();
        let signed = unsigned as i64;
        let value = big(&v);
        assert_eq!(encode(ElementType::BigUint64, &value, true), unsigned.to_le_bytes(), "{v}");
        assert_eq!(encode(ElementType::BigUint64, &value, false), unsigned.to_be_bytes(), "{v}");
        assert_eq!(encode(ElementType::BigInt64, &value, true), signed.to_le_bytes(), "{v}");
        assert_eq!(encode(ElementType::BigInt64, &value, false), signed.to_be_bytes(), "{v}");
        assert_eq!(value.to_big_int64().unwrap(), signed, "{v}");
        assert_eq!(value.to_big_uint64().unwrap(), unsigned, "{v}");
        let back = decode(ElementType::BigInt64, &encode(ElementType::BigInt64, &value, true), true);
        assert_eq!(as_big(&back), BigInt::from(signed));
        let back =
            decode(ElementType::BigUint64, &encode(ElementType::BigUint64, &value, false), false);
        assert_eq!(as_big(&back), BigInt::from(unsigned));
    }
}

#[test]
fn out_of_range_conversions_clamp_by_sign() {
    assert_eq!(clamp_i64(Some(5), true), 5);
    assert_eq!(clamp_i64(Some(-5), false), -5);
    assert_eq!(clamp_i64(None, true), i64::MAX);
    assert_eq!(clamp_i64(None, false), i64::MIN);
    assert_eq!(clamp_u64(Some(5)), 5);
    assert_eq!(clamp_u64(None), u64::MAX);
}

#[test]
fn big_integers_compare_by_value() {
    let a = JsBigInt::new(false, vec![5, 0, 0]);
    let b = JsBigInt::from_u64(5);
    assert!(a.equals(&b));
    assert_eq!(a.magnitude, vec![5]);
    let zero = JsBigInt::new(true, vec![0, 0]);
    assert!(!zero.negative);
    assert!(zero.equals(&JsBigInt::from_i64(0)));
    assert!(!JsBigInt::from_i64(-5).equals(&b));
    assert!(JsBigInt::from_i64(-5).equals(&JsBigInt::new(true, vec![5])));
    assert!(!JsBigInt::from_u64(1 << 32).equals(&JsBigInt::from_u64(1)));
    let loose = JsBigInt { negative: true, magnitude: vec![0] };
    assert!(loose.equals(&JsBigInt::from_u64(0)));
    assert_eq!(JsBigInt::from_i64(i64::MIN).magnitude, vec![0, 0x8000_0000]);
    assert!(JsBigInt::from_i64(i64::MIN).negative);
    assert_eq!(JsBigInt::from_u64(u64::MAX).magnitude, vec![u32::MAX, u32::MAX]);
}

#[test]
fn same_value_tells_zeros_apart_and_joins_nans() {
    let nan1 = JsValue::Number(Number::from_bits(0x7ff8_0000_0000_0000));
    let nan2 = JsValue::Number(Number::from_bits(0xfff0_0000_0000_0001));
    assert!(JsValue::same_value(&nan1, &nan2));
    assert!(!JsValue::same_value(&num(0.0), &num(-0.0)));
    assert!(JsValue::same_value(&num(1.5), &num(1.5)));
    assert!(!JsValue::same_value(&num(1.0), &JsValue::Boolean(true)));
    assert!(JsValue::same_value(&JsValue::Undefined, &JsValue::Undefined));
    assert!(!JsValue::same_value(&JsValue::Undefined, &JsValue::Null));
    assert!(JsValue::same_value(&big(&BigInt::from(7)), &big(&BigInt::from(7))));
    assert!(!JsValue::same_value(&big(&BigInt::from(7)), &big(&BigInt::from(-7))));
    assert!(!JsValue::same_value(&big(&BigInt::from(1)), &num(1.0)));
}

#[test]
fn to_index_accepts_safe_integers_only() {
    assert_eq!(JsValue::Undefined.to_index(), Ok(0));
    assert_eq!(num(0.0).to_index(), Ok(0));
    assert_eq!(num(-0.5).to_index(), Ok(0));
    assert_eq!(num(8.9).to_index(), Ok(8));
    assert_eq!(num(9007199254740991.0).to_index(), Ok(9007199254740991));
    assert_eq!(num(9007199254740992.0).to_index(), Err(JsError::IndexOutOfRange));
    assert_eq!(num(-1.0).to_index(), Err(JsError::IndexOutOfRange));
    assert_eq!(num(f64::NAN).to_index(), Ok(0));
    assert_eq!(num(f64::INFINITY).to_index(), Err(JsError::IndexOutOfRange));
    assert_eq!(num(1e300).to_index(), Err(JsError::IndexOutOfRange));
    assert_eq!(JsValue::Null.to_index(), Ok(0));
    assert_eq!(JsValue::Boolean(true).to_index(), Ok(1));
    assert_eq!(big(&BigInt::from(1)).to_index(), Err(JsError::CannotConvertToNumber));
}

#[test]
fn values_convert_to_each_integer_type() {
    let v = num(-129.7);
    assert_eq!(v.to_int8(), Ok(127));
    assert_eq!(v.to_uint8(), Ok(127));
    assert_eq!(v.to_uint8_clamp(), Ok(0));
    assert_eq!(v.to_int16(), Ok(-129));
    assert_eq!(v.to_uint16(), Ok(65407));
    assert_eq!(v.to_i32(), Ok(-129));
    assert_eq!(v.to_u32(), Ok(4294967167));
    assert_eq!(v.to_big_int64(), Err(JsError::CannotConvertToBigInt));
    assert_eq!(v.to_big_uint64(), Err(JsError::CannotConvertToBigInt));
    let b = big(&BigInt::from(-1));
    assert_eq!(b.to_big_int64(), Ok(-1));
    assert_eq!(b.to_big_uint64(), Ok(u64::MAX));
    assert_eq!(b.to_int8(), Err(JsError::CannotConvertToNumber));
    assert_eq!(b.to_u32(), Err(JsError::CannotConvertToNumber));
    assert_eq!(JsValue::Boolean(true).to_i32(), Ok(1));
    assert_eq!(JsValue::Undefined.to_i32(), Ok(0));
    assert_eq!(JsValue::Null.to_uint8_clamp(), Ok(0));
}

#[test]
fn big_integers_reduce_into_one_hundred_twenty_eight_bits() {
    let two64 = 1i128 << 64;
    assert_eq!(JsBigInt::from_i64(-1).to_big_uint64(), two64 - 1);
    assert_eq!(JsBigInt::from_i64(-1).to_big_int64(), -1);
    assert_eq!(JsBigInt::from_u64(u64::MAX).to_big_int64(), -1);
    assert_eq!(JsBigInt::from_u64(1 << 63).to_big_int64(), i64::MIN as i128);
    assert_eq!(JsBigInt::new(false, vec![7, 0, 1]).to_big_uint64(), 7);
    assert_eq!(JsBigInt::new(true, vec![7, 0, 1]).to_big_uint64(), two64 - 7);
    assert_eq!(JsBigInt::new(true, vec![0, 0, 1]).to_big_uint64(), 0);
    assert_eq!(JsBigInt::new(true, vec![0, 0, 1]).to_i64_wrapping(), 0);
    assert_eq!(JsBigInt::new(false, vec![1, 2, 3]).to_u64_wrapping(), (2 << 32) + 1);
}

#[test]
fn number_fields() {
    let n = Number::from_bits((-1.5f64).to_bits());
    assert!(n.is_sign_negative());
    assert_eq!(n.biased_exponent(), 1023);
    assert_eq!(n.fraction(), 1 << 51);
    assert_eq!(n.significand_bits(), 3 << 51);
    assert!(!n.is_not_a_number());
    let tiny = Number::from_bits(5);
    assert!(!tiny.is_sign_negative());
    assert_eq!(tiny.biased_exponent(), 0);
    assert_eq!(tiny.significand_bits(), 5);
    assert!(Number::nan().is_not_a_number());
    assert_eq!(Number::nan().to_bits(), 0x7ff8_0000_0000_0000);
    assert!(!Number::from_bits(f64::INFINITY.to_bits()).is_not_a_number());
}
