//! What the bytes of an element mean, and what bytes a value is stored as,
//! for each element type and either byte order.

use crate::bigint::wrapped_u64;
use crate::bytes::{byte_weight, encoded_bytes, lemma_byte_weights, twos_complement, unsigned_value};
use crate::element::ElementType;
use crate::error::JsResult;
use crate::number::Number;
use crate::value::{bigint_of, number_of, JsValueView};
use vstd::arithmetic::power2::{lemma2_to64, lemma_pow2_pos};
use vstd::prelude::*;

verus! {

/// The value of an element whose bytes spell the unsigned number `raw`:
/// integer types read it as unsigned or in two's complement, the floating
/// types read it as the pattern of a value.
pub open spec fn value_of_bits(t: ElementType, raw: nat) -> JsValueView {
    match t {
        ElementType::Int8 | ElementType::Int16 | ElementType::Int32 => JsValueView::Number(
            Number::of_integer(twos_complement(raw, t.width())),
        ),
        ElementType::Uint8
        | ElementType::Uint8Clamped
        | ElementType::Uint16
        | ElementType::Uint32 => JsValueView::Number(Number::of_integer(raw as int)),
        ElementType::BigInt64 => JsValueView::BigInt(twos_complement(raw, 8)),
        ElementType::BigUint64 => JsValueView::BigInt(raw as int),
        ElementType::Float32 => JsValueView::Number(Number::of_binary32(raw as u32)),
        ElementType::Float64 => JsValueView::Number(Number { bits: raw as u64 }),
    }
}

/// The value that the bytes of one element hold.
pub open spec fn decoded(t: ElementType, bytes: Seq<u8>, little_endian: bool) -> JsValueView {
    value_of_bits(t, unsigned_value(bytes, little_endian))
}

/// The unsigned number whose bytes an element stores for a Number: integer
/// types truncate and reduce modulo their range, the clamped type clamps
/// and rounds, single precision rounds to the nearest pattern, double
/// precision stores the pattern as it is.
pub open spec fn bits_of_number(t: ElementType, n: Number) -> nat {
    match t {
        ElementType::Int8 | ElementType::Uint8 => n.modulo_pow2(8),
        ElementType::Uint8Clamped => n.uint8_clamped() as nat,
        ElementType::Int16 | ElementType::Uint16 => n.modulo_pow2(16),
        ElementType::Int32 | ElementType::Uint32 => n.modulo_pow2(32),
        ElementType::Float32 => n.binary32_bits() as nat,
        _ => n.bits as nat,
    }
}

/// The unsigned number whose bytes an element stores for a value.  A big
/// integer type converts the value to a big integer and reduces it modulo
/// `2^64`; every other type converts it to a Number first.  The error is
/// that of the conversion.
pub open spec fn stored_bits(t: ElementType, value: JsValueView) -> JsResult<nat> {
    if t.is_big_int() {
        match bigint_of(value) {
            Ok(i) => Ok(wrapped_u64(i) as nat),
            Err(e) => Err(e),
        }
    } else {
        match number_of(value) {
            Ok(n) => Ok(bits_of_number(t, n)),
            Err(e) => Err(e),
        }
    }
}

/// The bytes that an element stores for a value.
pub open spec fn encoded(t: ElementType, value: JsValueView, little_endian: bool) -> JsResult<
    Seq<u8>,
> {
    match stored_bits(t, value) {
        Ok(bits) => Ok(encoded_bytes(bits, t.width(), little_endian)),
        Err(e) => Err(e),
    }
}

/// The value that an element holds after `value` was stored in it: the
/// value as the element type truncates, clamps or rounds it.
pub open spec fn canonical(t: ElementType, value: JsValueView) -> JsResult<JsValueView> {
    match stored_bits(t, value) {
        Ok(bits) => Ok(value_of_bits(t, bits)),
        Err(e) => Err(e),
    }
}

/// What an element stores fits its width.
pub proof fn lemma_stored_bits_fit(t: ElementType, value: JsValueView)
    requires
        stored_bits(t, value) is Ok,
    ensures
        stored_bits(t, value)->Ok_0 < byte_weight(t.width()),
{
    lemma_byte_weights();
    lemma2_to64();
    if !t.is_big_int() {
        let n = number_of(value)->Ok_0;
        lemma_pow2_pos(8);
        lemma_pow2_pos(16);
        lemma_pow2_pos(32);
    }
}

} // verus!
