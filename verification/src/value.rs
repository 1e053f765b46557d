//! Language values, as far as buffer operations tell them apart, and the
//! conversions that those operations put their arguments through.
//!
//! Objects are handles into a realm.  They carry internal slots only: an
//! object has no conversion method to call, and converting one to a number
//! or a big integer fails as it does for any object without such methods.

use crate::bigint::{wrapped_i64, wrapped_u64, JsBigInt};
use crate::bytes::twos_complement;
use crate::error::{JsError, JsResult};
use crate::number::{IntegerOrInfinity, Number, NAN_BITS};
use vstd::prelude::*;

verus! {

/// The largest integer that an index can be: `2^53 - 1`.
pub const MAX_SAFE_INTEGER: u64 = 0x1f_ffff_ffff_ffff;

/// The pattern of the Number one.
pub const ONE_BITS: u64 = 0x3ff0_0000_0000_0000;

/// A handle to an object of a realm.  Two handles name the same object
/// where their indices are equal.
#[derive(Clone, Copy, Debug, PartialEq, Eq, Structural)]
pub struct JsObject {
    pub index: usize,
}

/// A language value.
#[derive(Clone, Debug)]
pub enum JsValue {
    Undefined,
    Null,
    Boolean(bool),
    Number(Number),
    BigInt(JsBigInt),
    Object(JsObject),
}

/// What a language value is: a big integer is its value, whatever digits
/// hold it.
pub enum JsValueView {
    Undefined,
    Null,
    Boolean(bool),
    Number(Number),
    BigInt(int),
    Object(JsObject),
}

impl View for JsValue {
    type V = JsValueView;

    open spec fn view(&self) -> JsValueView {
        match self {
            JsValue::Undefined => JsValueView::Undefined,
            JsValue::Null => JsValueView::Null,
            JsValue::Boolean(b) => JsValueView::Boolean(*b),
            JsValue::Number(n) => JsValueView::Number(*n),
            JsValue::BigInt(big) => JsValueView::BigInt(big@),
            JsValue::Object(object) => JsValueView::Object(*object),
        }
    }
}

/// Whether two values are the same value: two NaNs are, whatever their
/// patterns, and the two zeros are not; everything else is the same value as
/// itself alone.
pub open spec fn same_value(x: JsValueView, y: JsValueView) -> bool {
    match (x, y) {
        (JsValueView::Number(a), JsValueView::Number(b)) => (a.is_nan() && b.is_nan()) || a == b,
        _ => x == y,
    }
}

/// The Number that a value converts to: `undefined` gives NaN, `null` zero,
/// a boolean zero or one, a Number itself.  A big integer does not convert,
/// nor does an object.
pub open spec fn number_of(value: JsValueView) -> JsResult<Number> {
    match value {
        JsValueView::Undefined => Ok(Number { bits: NAN_BITS }),
        JsValueView::Null => Ok(Number { bits: 0 }),
        JsValueView::Boolean(b) => Ok(
            Number {
                bits: if b {
                    ONE_BITS
                } else {
                    0
                },
            },
        ),
        JsValueView::Number(n) => Ok(n),
        JsValueView::BigInt(_) => Err(JsError::CannotConvertToNumber),
        JsValueView::Object(_) => Err(JsError::CannotConvertToNumber),
    }
}

/// The big integer that a value converts to: a boolean gives zero or one, a
/// big integer itself.  Nothing else converts.
pub open spec fn bigint_of(value: JsValueView) -> JsResult<int> {
    match value {
        JsValueView::Boolean(b) => Ok(
            if b {
                1int
            } else {
                0int
            },
        ),
        JsValueView::BigInt(i) => Ok(i),
        _ => Err(JsError::CannotConvertToBigInt),
    }
}

/// The integer or infinity that a value converts to.
pub open spec fn integer_or_infinity_of(value: JsValueView) -> JsResult<IntegerOrInfinity> {
    match number_of(value) {
        Ok(n) => Ok(n.integer_or_infinity()),
        Err(e) => Err(e),
    }
}

/// The index that a value converts to: `undefined` gives zero; any other
/// value is converted to a Number and truncated, and is an index where the
/// result lies between zero and `2^53 - 1`.
pub open spec fn index_of(value: JsValueView) -> JsResult<u64> {
    if value is Undefined {
        Ok(0)
    } else {
        match number_of(value) {
            Err(e) => Err(e),
            Ok(n) => if n.is_nan() {
                Ok(0)
            } else if n.is_infinite() {
                Err(JsError::IndexOutOfRange)
            } else if 0 <= n.truncated() <= MAX_SAFE_INTEGER {
                Ok(n.truncated() as u64)
            } else {
                Err(JsError::IndexOutOfRange)
            },
        }
    }
}

impl JsValue {
    /// The value `undefined`.
    pub fn undefined() -> (value: JsValue)
        ensures
            value@ == JsValueView::Undefined,
    {
        JsValue::Undefined
    }

    /// Whether the value is `undefined`.
    pub fn is_undefined(&self) -> (undefined: bool)
        ensures
            undefined == (self@ is Undefined),
    {
        match self {
            JsValue::Undefined => true,
            _ => false,
        }
    }

    /// The object that the value is, if it is one.
    pub fn as_object(&self) -> (object: Option<JsObject>)
        ensures
            object == match self@ {
                JsValueView::Object(o) => Some(o),
                _ => None,
            },
    {
        match self {
            JsValue::Object(object) => Some(*object),
            _ => None,
        }
    }

    /// A copy of the value.
    pub fn duplicate(&self) -> (copy: JsValue)
        ensures
            copy@ == self@,
    {
        match self {
            JsValue::Undefined => JsValue::Undefined,
            JsValue::Null => JsValue::Null,
            JsValue::Boolean(b) => JsValue::Boolean(*b),
            JsValue::Number(n) => JsValue::Number(*n),
            JsValue::BigInt(big) => JsValue::BigInt(big.duplicate()),
            JsValue::Object(object) => JsValue::Object(*object),
        }
    }

    /// Whether two values are the same value.
    pub fn same_value(x: &JsValue, y: &JsValue) -> (same: bool)
        ensures
            same == same_value(x@, y@),
    {
        match (x, y) {
            (JsValue::Undefined, JsValue::Undefined) => true,
            (JsValue::Null, JsValue::Null) => true,
            (JsValue::Boolean(a), JsValue::Boolean(b)) => *a == *b,
            (JsValue::Number(a), JsValue::Number(b)) => {
                (a.is_not_a_number() && b.is_not_a_number()) || a.to_bits() == b.to_bits()
            },
            (JsValue::BigInt(a), JsValue::BigInt(b)) => a.equals(b),
            (JsValue::Object(a), JsValue::Object(b)) => a.index == b.index,
            _ => false,
        }
    }

    /// Converts the value to a Number.
    pub fn to_number(&self) -> (result: JsResult<Number>)
        ensures
            result == number_of(self@),
    {
        match self {
            JsValue::Undefined => Ok(Number::nan()),
            JsValue::Null => Ok(Number::from_bits(0)),
            JsValue::Boolean(b) => Ok(
                Number::from_bits(
                    if *b {
                        ONE_BITS
                    } else {
                        0
                    },
                ),
            ),
            JsValue::Number(n) => Ok(*n),
            JsValue::BigInt(_) => Err(JsError::CannotConvertToNumber),
            JsValue::Object(_) => Err(JsError::CannotConvertToNumber),
        }
    }

    /// Converts the value to a big integer.
    pub fn to_bigint(&self) -> (result: JsResult<JsBigInt>)
        ensures
            match result {
                Ok(big) => bigint_of(self@) == Ok::<int, JsError>(big@),
                Err(e) => bigint_of(self@) == Err::<int, JsError>(e),
            },
    {
        match self {
            JsValue::Boolean(b) => Ok(
                JsBigInt::from_u64(
                    if *b {
                        1
                    } else {
                        0
                    },
                ),
            ),
            JsValue::BigInt(big) => Ok(big.duplicate()),
            _ => Err(JsError::CannotConvertToBigInt),
        }
    }

    /// Converts the value to an integer or an infinity.
    pub fn to_integer_or_infinity(&self) -> (result: JsResult<IntegerOrInfinity>)
        ensures
            result == integer_or_infinity_of(self@),
    {
        match self.to_number() {
            Ok(n) => Ok(n.to_integer_or_infinity()),
            Err(e) => Err(e),
        }
    }

    /// Converts the value to an index.
    pub fn to_index(&self) -> (result: JsResult<u64>)
        ensures
            result == index_of(self@),
    {
        if self.is_undefined() {
            return Ok(0);
        }
        match self.to_integer_or_infinity() {
            Err(e) => Err(e),
            Ok(IntegerOrInfinity::Integer(i)) => {
                if 0 <= i && i <= MAX_SAFE_INTEGER as i64 {
                    Ok(i as u64)
                } else {
                    Err(JsError::IndexOutOfRange)
                }
            },
            Ok(_) => Err(JsError::IndexOutOfRange),
        }
    }

    /// Converts the value to the integer an `Int8` element stores.
    pub fn to_int8(&self) -> (result: JsResult<i8>)
        ensures
            match number_of(self@) {
                Ok(n) => result == Ok::<i8, JsError>(twos_complement(n.modulo_pow2(8), 1) as i8),
                Err(e) => result == Err::<i8, JsError>(e),
            },
    {
        match self.to_number() {
            Ok(n) => Ok(n.to_int8()),
            Err(e) => Err(e),
        }
    }

    /// Converts the value to the integer a `Uint8` element stores.
    pub fn to_uint8(&self) -> (result: JsResult<u8>)
        ensures
            match number_of(self@) {
                Ok(n) => result == Ok::<u8, JsError>(n.modulo_pow2(8) as u8),
                Err(e) => result == Err::<u8, JsError>(e),
            },
    {
        match self.to_number() {
            Ok(n) => Ok(n.to_uint8()),
            Err(e) => Err(e),
        }
    }

    /// Converts the value to the integer a `Uint8Clamped` element stores.
    pub fn to_uint8_clamp(&self) -> (result: JsResult<u8>)
        ensures
            match number_of(self@) {
                Ok(n) => result == Ok::<u8, JsError>(n.uint8_clamped()),
                Err(e) => result == Err::<u8, JsError>(e),
            },
    {
        match self.to_number() {
            Ok(n) => Ok(n.to_uint8_clamp()),
            Err(e) => Err(e),
        }
    }

    /// Converts the value to the integer an `Int16` element stores.
    pub fn to_int16(&self) -> (result: JsResult<i16>)
        ensures
            match number_of(self@) {
                Ok(n) => result == Ok::<i16, JsError>(twos_complement(n.modulo_pow2(16), 2) as i16),
                Err(e) => result == Err::<i16, JsError>(e),
            },
    {
        match self.to_number() {
            Ok(n) => Ok(n.to_int16()),
            Err(e) => Err(e),
        }
    }

    /// Converts the value to the integer a `Uint16` element stores.
    pub fn to_uint16(&self) -> (result: JsResult<u16>)
        ensures
            match number_of(self@) {
                Ok(n) => result == Ok::<u16, JsError>(n.modulo_pow2(16) as u16),
                Err(e) => result == Err::<u16, JsError>(e),
            },
    {
        match self.to_number() {
            Ok(n) => Ok(n.to_uint16()),
            Err(e) => Err(e),
        }
    }

    /// Converts the value to the integer an `Int32` element stores.
    pub fn to_i32(&self) -> (result: JsResult<i32>)
        ensures
            match number_of(self@) {
                Ok(n) => result == Ok::<i32, JsError>(twos_complement(n.modulo_pow2(32), 4) as i32),
                Err(e) => result == Err::<i32, JsError>(e),
            },
    {
        match self.to_number() {
            Ok(n) => Ok(n.to_int32()),
            Err(e) => Err(e),
        }
    }

    /// Converts the value to the integer a `Uint32` element stores.
    pub fn to_u32(&self) -> (result: JsResult<u32>)
        ensures
            match number_of(self@) {
                Ok(n) => result == Ok::<u32, JsError>(n.modulo_pow2(32) as u32),
                Err(e) => result == Err::<u32, JsError>(e),
            },
    {
        match self.to_number() {
            Ok(n) => Ok(n.to_uint32()),
            Err(e) => Err(e),
        }
    }

    /// Converts the value to the integer a `BigInt64` element stores.
    pub fn to_big_int64(&self) -> (result: JsResult<i64>)
        ensures
            match bigint_of(self@) {
                Ok(i) => result == Ok::<i64, JsError>(wrapped_i64(i) as i64),
                Err(e) => result == Err::<i64, JsError>(e),
            },
    {
        match self.to_bigint() {
            Ok(big) => Ok(big.to_i64_wrapping()),
            Err(e) => Err(e),
        }
    }

    /// Converts the value to the integer a `BigUint64` element stores.
    pub fn to_big_uint64(&self) -> (result: JsResult<u64>)
        ensures
            match bigint_of(self@) {
                Ok(i) => result == Ok::<u64, JsError>(wrapped_u64(i) as u64),
                Err(e) => result == Err::<u64, JsError>(e),
            },
    {
        match self.to_bigint() {
            Ok(big) => Ok(big.to_u64_wrapping()),
            Err(e) => Err(e),
        }
    }
}

} // verus!
