//! What holds of the codec and of the buffer operations taken together.

use crate::array_buffer::ArrayBuffer;
use crate::bytes::{
    byte_weight, encoded_bytes, lemma_be_bytes_reversed, lemma_be_value_bound,
    lemma_byte_weights, lemma_encoded_bytes_of_value, lemma_le_value_bound,
    lemma_twos_complement_round_trip, lemma_value_of_encoded_bytes, twos_complement,
    unsigned_value,
};
use crate::codec::{canonical, decoded, encoded, lemma_stored_bits_fit, stored_bits};
use crate::element::ElementType;
use crate::error::{ErrorKind, JsError};
use crate::number::Number;
use crate::realm::Context;
use crate::value::{JsObject, JsValueView};
use crate::view::{data_view, view_target};
use vstd::arithmetic::div_mod::{
    lemma_fundamental_div_mod, lemma_mod_add_multiples_vanish, lemma_small_mod,
};
use vstd::arithmetic::power2::{lemma2_to64, lemma2_to64_rest, lemma_pow2_pos, pow2};
use vstd::prelude::*;

verus! {

/// Reading an element back gives the value that was stored as the element
/// type truncates, clamps or rounds it, in either byte order.
pub proof fn lemma_decode_inverts_encode(t: ElementType, value: JsValueView, little_endian: bool)
    requires
        encoded(t, value, little_endian) is Ok,
    ensures
        encoded(t, value, little_endian)->Ok_0.len() == t.width(),
        canonical(t, value) is Ok,
        decoded(t, encoded(t, value, little_endian)->Ok_0, little_endian) == canonical(
            t,
            value,
        )->Ok_0,
{
    let bits = stored_bits(t, value)->Ok_0;
    lemma_stored_bits_fit(t, value);
    lemma_value_of_encoded_bytes(bits, t.width(), little_endian);
    lemma_small_mod(bits, byte_weight(t.width()));
}

/// The big-endian bytes of a stored value, reversed, are its little-endian
/// bytes.
pub proof fn lemma_byte_orders_mirror(t: ElementType, value: JsValueView)
    requires
        stored_bits(t, value) is Ok,
    ensures
        encoded(t, value, false)->Ok_0.reverse() == encoded(t, value, true)->Ok_0,
        encoded(t, value, true)->Ok_0.reverse() == encoded(t, value, false)->Ok_0,
{
    lemma_be_bytes_reversed(stored_bits(t, value)->Ok_0, t.width());
}

/// Where an element is a single byte, the byte order makes no difference.
pub proof fn lemma_single_byte_has_no_order(t: ElementType, value: JsValueView)
    requires
        !t.is_endian_sensitive(),
    ensures
        encoded(t, value, true) == encoded(t, value, false),
{
    if stored_bits(t, value) is Ok {
        let bits = stored_bits(t, value)->Ok_0;
        assert(encoded_bytes(bits, 1, true) =~= encoded_bytes(bits, 1, false));
    }
}

/// Storing the value that was read from an element writes the bytes that
/// the element had.  Of single-precision NaNs this holds of one pattern
/// alone, and is not stated.
pub proof fn lemma_encode_inverts_decode(t: ElementType, bytes: Seq<u8>, little_endian: bool)
    requires
        bytes.len() == t.width(),
        t is Float32 ==> !Number::is_nan_32(unsigned_value(bytes, little_endian) as u32),
    ensures
        encoded(t, decoded(t, bytes, little_endian), little_endian) == Ok::<Seq<u8>, JsError>(
            bytes,
        ),
{
    let raw = unsigned_value(bytes, little_endian);
    let modulus = byte_weight(t.width());
    lemma_byte_weights();
    lemma2_to64();
    lemma2_to64_rest();
    lemma_le_value_bound(bytes);
    lemma_be_value_bound(bytes);
    lemma_encoded_bytes_of_value(bytes, little_endian);
    lemma_twos_complement_round_trip(raw, t.width());
    if t.is_unclamped_integer() || t is Uint8Clamped {
        let value = if t.is_signed() {
            twos_complement(raw, t.width())
        } else {
            raw as int
        };
        lemma_integer_bits(t, value);
        if !t.is_signed() {
            lemma_small_mod(raw, modulus);
        }
    } else if t is BigUint64 {
        lemma_small_mod(raw, modulus);
    } else if t is Float32 {
        Number::lemma_narrowing_inverts_widening(raw as u32);
    }
}

/// What an integer type stores for an integer of its range is the integer
/// reduced modulo the size of the range.
pub proof fn lemma_integer_bits(t: ElementType, value: int)
    requires
        t.is_unclamped_integer() || t is Uint8Clamped,
        t.is_signed() ==> -(byte_weight(t.width()) as int) <= 2 * value < byte_weight(t.width()),
        !t.is_signed() ==> 0 <= value < byte_weight(t.width()),
    ensures
        stored_bits(t, JsValueView::Number(Number::of_integer(value))) == Ok::<nat, JsError>(
            (value % (byte_weight(t.width()) as int)) as nat,
        ),
{
    let n = Number::of_integer(value);
    lemma_byte_weights();
    lemma2_to64();
    lemma2_to64_rest();
    Number::lemma_of_integer(value);
    if t is Uint8Clamped {
        lemma_small_mod(value as nat, 256);
        if n.exponent() >= 0 {
            // An integer with a scaled-up significand is at least 2^52.
            lemma_pow2_pos(n.exponent() as nat);
            assert(n.significand() * pow2(n.exponent() as nat) >= n.significand())
                by (nonlinear_arith)
                requires
                    pow2(n.exponent() as nat) >= 1,
            ;
        } else {
            let shift = (-n.exponent()) as nat;
            lemma_pow2_pos(shift);
            lemma_fundamental_div_mod(n.significand() as int, pow2(shift) as int);
        }
    }
}

/// An integer type holds every integer of its range as it is.
pub proof fn lemma_integer_in_range_is_kept(t: ElementType, value: int)
    requires
        t.is_unclamped_integer() || t is Uint8Clamped,
        t.is_signed() ==> -(byte_weight(t.width()) as int) <= 2 * value < byte_weight(t.width()),
        !t.is_signed() ==> 0 <= value < byte_weight(t.width()),
    ensures
        canonical(t, JsValueView::Number(Number::of_integer(value))) == Ok::<
            JsValueView,
            JsError,
        >(JsValueView::Number(Number::of_integer(value))),
{
    let modulus = byte_weight(t.width()) as int;
    lemma_integer_bits(t, value);
    if value < 0 {
        lemma_mod_add_multiples_vanish(value, modulus);
        lemma_small_mod((value + modulus) as nat, modulus as nat);
    } else {
        lemma_small_mod(value as nat, modulus as nat);
    }
}

/// A big integer type holds every integer of its range as it is.
pub proof fn lemma_big_integer_in_range_is_kept(t: ElementType, value: int)
    requires
        t.is_big_int(),
        t is BigInt64 ==> i64::MIN <= value <= i64::MAX,
        t is BigUint64 ==> 0 <= value <= u64::MAX,
    ensures
        canonical(t, JsValueView::BigInt(value)) == Ok::<JsValueView, JsError>(
            JsValueView::BigInt(value),
        ),
{
    let modulus = 0x1_0000_0000_0000_0000int;
    lemma_byte_weights();
    if value < 0 {
        lemma_mod_add_multiples_vanish(value, modulus);
        lemma_small_mod((value + modulus) as nat, modulus as nat);
    } else {
        lemma_small_mod(value as nat, modulus as nat);
    }
}

/// A double-precision element holds every Number as it is, pattern and all.
pub proof fn lemma_double_is_kept(n: Number)
    ensures
        canonical(ElementType::Float64, JsValueView::Number(n)) == Ok::<JsValueView, JsError>(
            JsValueView::Number(n),
        ),
{
}

/// A single-precision element holds every single-precision value as it is.
pub proof fn lemma_single_is_kept(bits: u32)
    requires
        !Number::is_nan_32(bits),
    ensures
        canonical(ElementType::Float32, JsValueView::Number(Number::of_binary32(bits))) == Ok::<
            JsValueView,
            JsError,
        >(JsValueView::Number(Number::of_binary32(bits))),
{
    Number::lemma_narrowing_inverts_widening(bits);
}

/// A write changes bytes and nothing else: every buffer of the realm has
/// the length after it that it had before, is detached if and only if it
/// was, and shows the length that it showed.
pub proof fn lemma_write_keeps_byte_length(
    before: &Context,
    after: &Context,
    target: JsObject,
    bytes: Seq<u8>,
    object: JsObject,
)
    requires
        before.is_array_buffer(target),
        !before.array_buffer(target).is_detached(),
        ArrayBuffer::rewritten(before, after, target, bytes),
        before.is_array_buffer(object),
    ensures
        after.is_array_buffer(object),
        after.array_buffer(object).array_buffer_byte_length == before.array_buffer(
            object,
        ).array_buffer_byte_length,
        after.array_buffer(object).is_detached() == before.array_buffer(object).is_detached(),
        after.array_buffer(object).observed_byte_length() == before.array_buffer(
            object,
        ).observed_byte_length(),
{
    if object.index != target.index {
        assert(after.objects@[object.index as int] == before.objects@[object.index as int]);
    }
}

/// Making a buffer leaves every other buffer of the realm as it was: no
/// length changes, and no detached buffer comes back.
pub proof fn lemma_allocation_keeps_buffers(
    before: &Context,
    after: &Context,
    made: JsObject,
    prototype: JsObject,
    bytes: Seq<u8>,
    object: JsObject,
)
    requires
        ArrayBuffer::allocated(before, after, made, prototype, bytes),
        before.is_array_buffer(object),
    ensures
        object != made,
        after.is_array_buffer(object),
        after.array_buffer(object) == before.array_buffer(object),
{
    assert(after.objects@[object.index as int] == before.objects@[object.index as int]);
}

/// Once a buffer is detached, it shows the length zero, and every access
/// through a data view over it fails with a `TypeError`, whatever the
/// index and the element type.
pub proof fn lemma_detached_buffer_is_out_of_reach(
    context: &Context,
    view: JsValueView,
    request_index: JsValueView,
    t: ElementType,
)
    requires
        data_view(context, view) is Ok,
        context.is_array_buffer(data_view(context, view)->Ok_0.viewed_array_buffer),
        context.array_buffer(data_view(context, view)->Ok_0.viewed_array_buffer).is_detached(),
    ensures
        context.array_buffer(
            data_view(context, view)->Ok_0.viewed_array_buffer,
        ).observed_byte_length() == 0,
        view_target(context, view, request_index, t) == Err::<(JsObject, nat), JsError>(
            JsError::DetachedBuffer,
        ),
        JsError::DetachedBuffer.error_kind() == ErrorKind::TypeError,
{
}

} // verus!
