//! The buffer: a block of bytes of fixed length that can be detached, the
//! reads and writes of elements in it, and the operations that make one
//! buffer from another.

use crate::bigint::JsBigInt;
use crate::bytes::{
    byte_weight, decode_unsigned, encode_unsigned, lemma_be_value_bound, lemma_byte_weights,
    lemma_le_value_bound, lemma_twos_complement_round_trip, twos_complement,
};
use crate::codec::{decoded, encoded, lemma_stored_bits_fit, stored_bits};
use crate::element::{ElementType, SharedMemoryOrder};
use crate::error::{JsError, JsResult};
use crate::number::{IntegerOrInfinity, Number};
use crate::realm::{Context, ObjectData, StandardConstructor};
use crate::value::{
    index_of, number_of, same_value, JsObject, JsValue, JsValueView, MAX_SAFE_INTEGER,
};
use vstd::arithmetic::power2::lemma2_to64;
use vstd::prelude::*;
use vstd::slice::slice_subrange;

verus! {

/// A buffer.  The block is absent once the buffer is detached; the length
/// is the one that the buffer was made with.
#[derive(Clone, Debug)]
pub struct ArrayBuffer {
    pub array_buffer_data: Option<Vec<u8>>,
    pub array_buffer_byte_length: usize,
    pub array_buffer_detach_key: JsValue,
}

/// The longest block that is allocated: `2^33` bytes.
pub const MAX_BYTE_LENGTH: u64 = 0x2_0000_0000;

/// A block of `length` zero bytes.
pub open spec fn zeros(length: nat) -> Seq<u8> {
    Seq::new(length, |i: int| 0u8)
}

/// The argument at position `i`, or `undefined` where there is none.
pub open spec fn argument(args: Seq<JsValue>, i: int) -> JsValueView {
    if 0 <= i < args.len() {
        args[i]@
    } else {
        JsValueView::Undefined
    }
}

/// The argument at position `i`, or `undefined` where there is none.
pub fn get_or_undefined(args: &[JsValue], i: usize) -> (value: JsValue)
    ensures
        value@ == argument(args@, i as int),
{
    if i < args.len() {
        args[i].duplicate()
    } else {
        JsValue::Undefined
    }
}

/// The block `to` after `count` bytes of `from`, starting at `from_index`,
/// were copied over those starting at `to_index`.
pub open spec fn copied_block(
    to: Seq<u8>,
    to_index: int,
    from: Seq<u8>,
    from_index: int,
    count: int,
) -> Seq<u8> {
    Seq::new(
        to.len(),
        |i: int|
            if to_index <= i < to_index + count {
                from[i - to_index + from_index]
            } else {
                to[i]
            },
    )
}

/// Copies `count` bytes from `from_block`, starting at `from_index`, into
/// `to_block`, starting at `to_index`.  The two blocks are distinct: one is
/// borrowed to be written, the other to be read.
pub fn copy_data_block_bytes(
    to_block: &mut Vec<u8>,
    to_index: usize,
    from_block: &[u8],
    from_index: usize,
    count: usize,
)
    requires
        from_index + count <= from_block@.len(),
        to_index + count <= old(to_block)@.len(),
    ensures
        final(to_block)@ == copied_block(
            old(to_block)@,
            to_index as int,
            from_block@,
            from_index as int,
            count as int,
        ),
{
    let from_size = from_block.len();
    let to_size = to_block.len();
    let mut copied: usize = 0;
    assert(to_block@ =~= copied_block(
        old(to_block)@,
        to_index as int,
        from_block@,
        from_index as int,
        0,
    ));
    while copied < count
        invariant
            copied <= count,
            from_size == from_block@.len(),
            to_size == to_block@.len(),
            from_index + count <= from_size,
            to_index + count <= to_size,
            to_block@ == copied_block(
                old(to_block)@,
                to_index as int,
                from_block@,
                from_index as int,
                copied as int,
            ),
        decreases count - copied,
    {
        to_block[to_index + copied] = from_block[from_index + copied];
        copied += 1;
        assert(to_block@ =~= copied_block(
            old(to_block)@,
            to_index as int,
            from_block@,
            from_index as int,
            copied as int,
        ));
    }
}

/// The signed reading of an unsigned number of the given width.
fn to_signed(raw: u64, width: usize) -> (value: i64)
    requires
        width == 1 || width == 2 || width == 4 || width == 8,
        raw < byte_weight(width as nat),
    ensures
        value == twos_complement(raw as nat, width as nat),
{
    proof {
        lemma_byte_weights();
    }
    if width == 1 {
        if raw >= 0x80 {
            raw as i64 - 0x100
        } else {
            raw as i64
        }
    } else if width == 2 {
        if raw >= 0x8000 {
            raw as i64 - 0x1_0000
        } else {
            raw as i64
        }
    } else if width == 4 {
        if raw >= 0x8000_0000 {
            raw as i64 - 0x1_0000_0000
        } else {
            raw as i64
        }
    } else {
        if raw >= 0x8000_0000_0000_0000 {
            (raw as i128 - 0x1_0000_0000_0000_0000) as i64
        } else {
            raw as i64
        }
    }
}

impl ArrayBuffer {
    /// Whether the block, where present, has the length that the buffer
    /// was made with, and that length is an index.
    pub open spec fn wf(&self) -> bool {
        &&& self.array_buffer_byte_length <= MAX_SAFE_INTEGER
        &&& self.array_buffer_data matches Some(block) ==> block@.len()
            == self.array_buffer_byte_length
    }

    /// Whether the buffer is detached.
    pub open spec fn is_detached(&self) -> bool {
        self.array_buffer_data is None
    }

    /// The length that the buffer shows: zero once it is detached, and the
    /// length that it was made with until then.
    pub open spec fn observed_byte_length(&self) -> nat {
        if self.is_detached() {
            0
        } else {
            self.array_buffer_byte_length as nat
        }
    }

    /// The bytes of an attached buffer.
    pub open spec fn bytes(&self) -> Seq<u8>
        recommends
            !self.is_detached(),
    {
        self.array_buffer_data->Some_0@
    }

    /// The length that the buffer was made with.
    pub fn array_buffer_byte_length(&self) -> (length: usize)
        ensures
            length == self.array_buffer_byte_length,
    {
        self.array_buffer_byte_length
    }

    /// Whether the buffer is detached.
    pub fn is_detached_buffer(&self) -> (detached: bool)
        ensures
            detached == self.is_detached(),
    {
        self.array_buffer_data.is_none()
    }

    /// Whether the type holds integers reduced modulo a power of two.
    pub fn is_unclamped_integer_element_type(t: ElementType) -> (unclamped: bool)
        ensures
            unclamped == t.is_unclamped_integer(),
    {
        matches!(
            t,
            ElementType::Int8
                | ElementType::Uint8
                | ElementType::Int16
                | ElementType::Uint16
                | ElementType::Int32
                | ElementType::Uint32
        )
    }

    /// Whether the type holds 64-bit big integers.
    pub fn is_big_int_element_type(t: ElementType) -> (big: bool)
        ensures
            big == t.is_big_int(),
    {
        matches!(t, ElementType::BigUint64 | ElementType::BigInt64)
    }

    /// Whether an access of the type in the order cannot tear: an access to
    /// an unclamped integer never does, and one to a big integer does not
    /// unless the order is `Init` or `Unordered`.
    pub open spec fn no_tear(t: ElementType, order: SharedMemoryOrder) -> bool {
        t.is_unclamped_integer() || (t.is_big_int() && order is SeqCst)
    }

    /// Whether an access of the type in the order cannot tear.
    pub fn is_no_tear_configuration(t: ElementType, order: SharedMemoryOrder) -> (no_tear: bool)
        ensures
            no_tear == Self::no_tear(t, order),
    {
        if Self::is_unclamped_integer_element_type(t) {
            return true;
        }
        if Self::is_big_int_element_type(t) && !matches!(
            order,
            SharedMemoryOrder::Init | SharedMemoryOrder::Unordered
        ) {
            return true;
        }
        false
    }

    /// The value that the bytes of one element hold.
    pub fn raw_bytes_to_numeric(t: ElementType, bytes: &[u8], is_little_endian: bool) -> (value:
        JsValue)
        requires
            bytes@.len() == t.width(),
        ensures
            value@ == decoded(t, bytes@, is_little_endian),
    {
        let raw = decode_unsigned(bytes, is_little_endian);
        proof {
            lemma_byte_weights();
            lemma_le_value_bound(bytes@);
            lemma_be_value_bound(bytes@);
        }
        match t {
            ElementType::Int8 | ElementType::Int16 | ElementType::Int32 => JsValue::Number(
                Number::from_integer(to_signed(raw, t.element_size())),
            ),
            ElementType::Uint8
            | ElementType::Uint8Clamped
            | ElementType::Uint16
            | ElementType::Uint32 => JsValue::Number(Number::from_integer(raw as i64)),
            ElementType::BigInt64 => JsValue::BigInt(JsBigInt::from_i64(to_signed(raw, 8))),
            ElementType::BigUint64 => JsValue::BigInt(JsBigInt::from_u64(raw)),
            ElementType::Float32 => JsValue::Number(Number::from_binary32(raw as u32)),
            ElementType::Float64 => JsValue::Number(Number::from_bits(raw)),
        }
    }

    /// The bytes that an element stores for a value.
    pub fn numeric_to_raw_bytes(t: ElementType, value: &JsValue, is_little_endian: bool) -> (result:
        JsResult<Vec<u8>>)
        ensures
            match result {
                Ok(bytes) => encoded(t, value@, is_little_endian) == Ok::<Seq<u8>, JsError>(
                    bytes@,
                ),
                Err(e) => encoded(t, value@, is_little_endian) == Err::<Seq<u8>, JsError>(e),
            },
    {
        proof {
            lemma_byte_weights();
        }
        let bits: u64 = match t {
            ElementType::Int8 => from_signed(value.to_int8()? as i64, 1),
            ElementType::Uint8 => value.to_uint8()? as u64,
            ElementType::Uint8Clamped => value.to_uint8_clamp()? as u64,
            ElementType::Int16 => from_signed(value.to_int16()? as i64, 2),
            ElementType::Uint16 => value.to_uint16()? as u64,
            ElementType::Int32 => from_signed(value.to_i32()? as i64, 4),
            ElementType::Uint32 => value.to_u32()? as u64,
            ElementType::BigInt64 => from_signed(value.to_big_int64()?, 8),
            ElementType::BigUint64 => value.to_big_uint64()?,
            ElementType::Float32 => value.to_number()?.to_binary32() as u64,
            ElementType::Float64 => value.to_number()?.to_bits(),
        };
        proof {
            lemma2_to64();
            let expected = stored_bits(t, value@)->Ok_0;
            lemma_stored_bits_fit(t, value@);
            if t.is_signed() {
                lemma_twos_complement_round_trip(bits as nat, t.width());
                lemma_twos_complement_round_trip(expected, t.width());
            }
            assert(bits == expected);
        }
        Ok(encode_unsigned(bits, t.element_size(), is_little_endian))
    }

    /// Detaches the buffer.  The key must be the key of the buffer.
    pub fn detach_array_buffer(&mut self, key: &JsValue) -> (result: JsResult<()>)
        ensures
            final(self).array_buffer_byte_length == old(self).array_buffer_byte_length,
            final(self).array_buffer_detach_key == old(self).array_buffer_detach_key,
            same_value(old(self).array_buffer_detach_key@, key@) ==> {
                &&& result is Ok
                &&& final(self).is_detached()
                &&& final(self).observed_byte_length() == 0
            },
            !same_value(old(self).array_buffer_detach_key@, key@) ==> {
                &&& result == Err::<(), JsError>(JsError::DetachKeyMismatch)
                &&& *final(self) == *old(self)
            },
    {
        if !JsValue::same_value(&self.array_buffer_detach_key, key) {
            return Err(JsError::DetachKeyMismatch);
        }
        self.array_buffer_data = None;
        Ok(())
    }

    /// Reads the element of type `t` that begins at `byte_index`.  Without
    /// a byte order the element is read least significant byte first.
    pub fn get_value_from_buffer(
        &self,
        byte_index: usize,
        t: ElementType,
        _is_typed_array: bool,
        _order: SharedMemoryOrder,
        is_little_endian: Option<bool>,
    ) -> (value: JsValue)
        requires
            self.wf(),
            !self.is_detached(),
            byte_index + t.width() <= self.array_buffer_byte_length,
        ensures
            value@ == decoded(
                t,
                self.bytes().subrange(byte_index as int, byte_index + t.width()),
                is_little_endian.unwrap_or(true),
            ),
    {
        let element_size = t.element_size();
        let is_little_endian = is_little_endian.unwrap_or(true);
        match &self.array_buffer_data {
            Some(block) => {
                let raw_value = slice_subrange(
                    block.as_slice(),
                    byte_index,
                    byte_index + element_size,
                );
                Self::raw_bytes_to_numeric(t, raw_value, is_little_endian)
            },
            None => JsValue::Undefined,
        }
    }

    /// Stores `value` as the element of type `t` that begins at
    /// `byte_index`.  Without a byte order the element is written least
    /// significant byte first.  Where the value does not convert, nothing
    /// is written.
    pub fn set_value_in_buffer(
        &mut self,
        byte_index: usize,
        t: ElementType,
        value: &JsValue,
        _order: SharedMemoryOrder,
        is_little_endian: Option<bool>,
    ) -> (result: JsResult<JsValue>)
        requires
            old(self).wf(),
            !old(self).is_detached(),
            byte_index + t.width() <= old(self).array_buffer_byte_length,
        ensures
            final(self).wf(),
            final(self).array_buffer_byte_length == old(self).array_buffer_byte_length,
            final(self).array_buffer_detach_key == old(self).array_buffer_detach_key,
            !final(self).is_detached(),
            match encoded(t, value@, is_little_endian.unwrap_or(true)) {
                Ok(bytes) => {
                    &&& result is Ok
                    &&& result->Ok_0@ is Undefined
                    &&& final(self).bytes() == copied_block(
                        old(self).bytes(),
                        byte_index as int,
                        bytes,
                        0,
                        t.width() as int,
                    )
                },
                Err(e) => result == Err::<JsValue, JsError>(e) && *final(self) == *old(self),
            },
    {
        let is_little_endian = is_little_endian.unwrap_or(true);
        let raw_bytes = Self::numeric_to_raw_bytes(t, value, is_little_endian)?;
        self.store_raw_bytes(byte_index, &raw_bytes);
        Ok(JsValue::undefined())
    }

    /// Writes `raw_bytes` over the bytes that begin at `byte_index`.
    pub(crate) fn store_raw_bytes(&mut self, byte_index: usize, raw_bytes: &Vec<u8>)
        requires
            old(self).wf(),
            !old(self).is_detached(),
            byte_index + raw_bytes@.len() <= old(self).array_buffer_byte_length,
        ensures
            final(self).wf(),
            final(self).array_buffer_byte_length == old(self).array_buffer_byte_length,
            final(self).array_buffer_detach_key == old(self).array_buffer_detach_key,
            !final(self).is_detached(),
            final(self).bytes() == copied_block(
                old(self).bytes(),
                byte_index as int,
                raw_bytes@,
                0,
                raw_bytes@.len() as int,
            ),
    {
        match &mut self.array_buffer_data {
            Some(block) => {
                copy_data_block_bytes(block, byte_index, raw_bytes.as_slice(), 0, raw_bytes.len());
            },
            None => {},
        }
    }

    /// The buffer that a receiver names: the receiver has to be an object,
    /// and that object a buffer of the realm.
    pub open spec fn receiver(context: &Context, this: JsValueView) -> JsResult<JsObject> {
        match this {
            JsValueView::Object(object) => if context.is_array_buffer(object) {
                Ok(object)
            } else {
                Err(JsError::NotAnArrayBuffer)
            },
            _ => Err(JsError::NotAnObject),
        }
    }

    /// The buffer that a receiver names.
    fn require_buffer(this: &JsValue, context: &Context) -> (result: JsResult<JsObject>)
        ensures
            result == Self::receiver(context, this@),
    {
        match this {
            JsValue::Object(object) => {
                if object.index < context.objects.len() {
                    match &context.objects[object.index].data {
                        ObjectData::ArrayBuffer(_) => Ok(*object),
                        _ => Err(JsError::NotAnArrayBuffer),
                    }
                } else {
                    Err(JsError::NotAnArrayBuffer)
                }
            },
            _ => Err(JsError::NotAnObject),
        }
    }

    /// Whether `after` is `before` with one more object, `object`, and that
    /// object is an attached buffer with the given prototype and bytes,
    /// and with `undefined` for its detach key.
    pub open spec fn allocated(
        before: &Context,
        after: &Context,
        object: JsObject,
        prototype: JsObject,
        bytes: Seq<u8>,
    ) -> bool {
        &&& before.extended_by(after, object)
        &&& after.objects@[object.index as int].prototype == Some(prototype)
        &&& after.is_array_buffer(object)
        &&& !after.array_buffer(object).is_detached()
        &&& after.array_buffer(object).bytes() == bytes
        &&& after.array_buffer(object).array_buffer_byte_length == bytes.len()
        &&& after.array_buffer(object).array_buffer_detach_key@ is Undefined
    }

    /// Makes a buffer of `byte_length` zero bytes for `constructor`.  The
    /// request fails where the length is above `MAX_BYTE_LENGTH`.
    pub fn allocate(constructor: &JsValue, byte_length: usize, context: &mut Context) -> (result:
        JsResult<JsObject>)
        requires
            old(context).wf(),
        ensures
            final(context).wf(),
            match result {
                Ok(object) => {
                    &&& byte_length <= MAX_BYTE_LENGTH
                    &&& Self::allocated(
                        old(context),
                        final(context),
                        object,
                        old(context).prototype_from_constructor(constructor@),
                        zeros(byte_length as nat),
                    )
                },
                Err(e) => {
                    &&& byte_length > MAX_BYTE_LENGTH
                    &&& e == JsError::AllocationFailed
                    &&& *final(context) == *old(context)
                },
            },
    {
        let prototype = context.get_prototype_from_constructor(constructor);
        if byte_length as u64 > MAX_BYTE_LENGTH {
            return Err(JsError::AllocationFailed);
        }
        let block: Vec<u8> = vec![0u8; byte_length];
        assert(block@ =~= zeros(byte_length as nat));
        let object = context.create_object(
            Some(prototype),
            ObjectData::ArrayBuffer(
                ArrayBuffer {
                    array_buffer_data: Some(block),
                    array_buffer_byte_length: byte_length,
                    array_buffer_detach_key: JsValue::Undefined,
                },
            ),
        );
        Ok(object)
    }

    /// The length that the constructor makes a buffer of: there has to be
    /// a new target, the first argument has to convert to an index, and
    /// the index has to be a length that can be allocated.
    pub open spec fn construct_length(new_target: JsValueView, args: Seq<JsValue>) -> JsResult<
        nat,
    > {
        if new_target is Undefined {
            Err(JsError::UndefinedNewTarget)
        } else {
            match index_of(argument(args, 0)) {
                Err(e) => Err(e),
                Ok(length) => if length > MAX_BYTE_LENGTH || length > usize::MAX {
                    Err(JsError::AllocationFailed)
                } else {
                    Ok(length as nat)
                },
            }
        }
    }

    /// The constructor: makes a buffer of as many zero bytes as the first
    /// argument says.
    pub fn constructor(new_target: &JsValue, args: &[JsValue], context: &mut Context) -> (result:
        JsResult<JsValue>)
        requires
            old(context).wf(),
        ensures
            final(context).wf(),
            match Self::construct_length(new_target@, args@) {
                Ok(length) => {
                    &&& result is Ok
                    &&& result->Ok_0@ is Object
                    &&& Self::allocated(
                        old(context),
                        final(context),
                        result->Ok_0@->Object_0,
                        old(context).prototype_from_constructor(new_target@),
                        zeros(length),
                    )
                },
                Err(e) => result == Err::<JsValue, JsError>(e) && *final(context) == *old(context),
            },
    {
        if new_target.is_undefined() {
            return Err(JsError::UndefinedNewTarget);
        }
        let byte_length = get_or_undefined(args, 0).to_index()?;
        if byte_length > usize::MAX as u64 {
            return Err(JsError::AllocationFailed);
        }
        let object = Self::allocate(new_target, byte_length as usize, context)?;
        Ok(JsValue::Object(object))
    }

    /// The species accessor of the constructor: returns its receiver.
    pub fn get_species(this: &JsValue, _args: &[JsValue], context: &mut Context) -> (result:
        JsResult<JsValue>)
        ensures
            *final(context) == *old(context),
            result is Ok,
            result->Ok_0@ == this@,
    {
        Ok(this.duplicate())
    }

    /// Whether the first argument is a typed array or a data view.
    pub fn is_view(_this: &JsValue, args: &[JsValue], context: &mut Context) -> (result: JsResult<
        JsValue,
    >)
        ensures
            *final(context) == *old(context),
            result is Ok,
            result->Ok_0@ == JsValueView::Boolean(
                match argument(args@, 0) {
                    JsValueView::Object(object) => old(context).is_view(object),
                    _ => false,
                },
            ),
    {
        let viewed = match get_or_undefined(args, 0).as_object() {
            Some(object) => {
                if object.index < context.objects.len() {
                    match &context.objects[object.index].data {
                        ObjectData::TypedArray(_, _) => true,
                        ObjectData::DataView(_) => true,
                        _ => false,
                    }
                } else {
                    false
                }
            },
            None => false,
        };
        Ok(JsValue::Boolean(viewed))
    }

    /// The length of the receiver in bytes: zero once it is detached.
    pub fn byte_length(this: &JsValue, _args: &[JsValue], context: &mut Context) -> (result:
        JsResult<JsValue>)
        requires
            old(context).wf(),
        ensures
            *final(context) == *old(context),
            match Self::receiver(old(context), this@) {
                Ok(object) => {
                    &&& result is Ok
                    &&& result->Ok_0@ == JsValueView::Number(
                        Number::of_integer(
                            old(context).array_buffer(object).observed_byte_length() as int,
                        ),
                    )
                },
                Err(e) => result == Err::<JsValue, JsError>(e),
            },
    {
        let object = Self::require_buffer(this, context)?;
        match &context.objects[object.index].data {
            ObjectData::ArrayBuffer(buffer) => {
                let length = if buffer.is_detached_buffer() {
                    0
                } else {
                    buffer.array_buffer_byte_length
                };
                Ok(JsValue::Number(Number::from_integer(length as i64)))
            },
            _ => Err(JsError::NotAnArrayBuffer),
        }
    }

    /// Where a relative index points in a buffer of `len` bytes: NaN
    /// counts as zero, a negative index counts back from the end, and the
    /// result is held between zero and `len`.
    pub open spec fn clamped_index(n: Number, len: nat) -> nat {
        if n.is_nan() {
            0
        } else if n.is_infinite() {
            if n.is_negative() {
                0
            } else {
                len
            }
        } else if n.truncated() < 0 {
            if len + n.truncated() > 0 {
                (len + n.truncated()) as nat
            } else {
                0
            }
        } else if n.truncated() < len {
            n.truncated() as nat
        } else {
            len
        }
    }

    /// Where a value that is taken as a relative index points in a buffer
    /// of `len` bytes.
    pub open spec fn relative_index(value: JsValueView, len: nat) -> JsResult<nat> {
        match number_of(value) {
            Ok(n) => Ok(Self::clamped_index(n, len)),
            Err(e) => Err(e),
        }
    }

    /// Where a value that is taken as a relative index points in a buffer
    /// of `len` bytes.
    fn to_relative_index(value: &JsValue, len: usize) -> (result: JsResult<usize>)
        requires
            len <= MAX_SAFE_INTEGER,
        ensures
            match Self::relative_index(value@, len as nat) {
                Ok(index) => result == Ok::<usize, JsError>(index as usize),
                Err(e) => result == Err::<usize, JsError>(e),
            },
            result is Ok ==> result->Ok_0 <= len,
    {
        let len = len as i64;
        let index = match value.to_integer_or_infinity()? {
            IntegerOrInfinity::NegativeInfinity => 0,
            IntegerOrInfinity::Integer(i) => if i < 0 {
                if len + i > 0 {
                    len + i
                } else {
                    0
                }
            } else if i < len {
                i
            } else {
                len
            },
            IntegerOrInfinity::PositiveInfinity => len,
        };
        Ok(index as usize)
    }

    /// The range that a slice of the receiver covers, as the index of its
    /// first byte and its length: the receiver has to be an attached
    /// buffer, and both arguments have to convert.  The first argument
    /// points at the first byte; the second, where there is one, at the
    /// byte after the last, and the slice ends with the buffer otherwise.
    pub open spec fn slice_bounds(context: &Context, this: JsValueView, args: Seq<JsValue>)
        -> JsResult<(nat, nat)> {
        match Self::receiver(context, this) {
            Err(e) => Err(e),
            Ok(object) => {
                let buffer = context.array_buffer(object);
                let len = buffer.array_buffer_byte_length as nat;
                if buffer.is_detached() {
                    Err(JsError::DetachedBuffer)
                } else {
                    match Self::relative_index(argument(args, 0), len) {
                        Err(e) => Err(e),
                        Ok(first) => {
                            let last = if argument(args, 1) is Undefined {
                                Ok(len)
                            } else {
                                Self::relative_index(argument(args, 1), len)
                            };
                            match last {
                                Err(e) => Err(e),
                                Ok(last) => Ok(
                                    (
                                        first,
                                        if last > first {
                                            (last - first) as nat
                                        } else {
                                            0
                                        },
                                    ),
                                ),
                            }
                        },
                    }
                }
            },
        }
    }

    /// The first half of a slice: checks the receiver and works out the
    /// range.  What constructs the new buffer runs between this and
    /// `slice_into`.
    pub fn slice_range(this: &JsValue, args: &[JsValue], context: &Context) -> (result: JsResult<
        (usize, usize),
    >)
        requires
            context.wf(),
        ensures
            match Self::slice_bounds(context, this@, args@) {
                Ok((first, new_len)) => result == Ok::<(usize, usize), JsError>(
                    (first as usize, new_len as usize),
                ),
                Err(e) => result == Err::<(usize, usize), JsError>(e),
            },
            result is Ok ==> result->Ok_0.0 + result->Ok_0.1 <= context.array_buffer(
                this@->Object_0,
            ).array_buffer_byte_length,
    {
        let object = Self::require_buffer(this, context)?;
        let len = match &context.objects[object.index].data {
            ObjectData::ArrayBuffer(buffer) => {
                if buffer.is_detached_buffer() {
                    return Err(JsError::DetachedBuffer);
                }
                buffer.array_buffer_byte_length
            },
            _ => {
                return Err(JsError::NotAnArrayBuffer);
            },
        };
        let first = Self::to_relative_index(&get_or_undefined(args, 0), len)?;
        let end = get_or_undefined(args, 1);
        let last = if end.is_undefined() {
            len
        } else {
            Self::to_relative_index(&end, len)?
        };
        let new_len = if last > first {
            last - first
        } else {
            0
        };
        Ok((first, new_len))
    }

    /// The buffers that the second half of a slice copies between, source
    /// first: the receiver has to be a buffer still; what was constructed
    /// has to be a buffer, attached, another object than the receiver and
    /// long enough for the slice; and the receiver has to be attached
    /// still.
    pub open spec fn slice_buffers(
        context: &Context,
        this: JsValueView,
        new: JsValueView,
        new_len: nat,
    ) -> JsResult<(JsObject, JsObject)> {
        match Self::receiver(context, this) {
            Err(e) => Err(e),
            Ok(source) => match new {
                JsValueView::Object(target) => if !context.is_array_buffer(target) {
                    Err(JsError::SpeciesNotAnArrayBuffer)
                } else if context.array_buffer(target).is_detached() {
                    Err(JsError::SpeciesDetached)
                } else if target == source {
                    Err(JsError::SpeciesSameBuffer)
                } else if context.array_buffer(target).array_buffer_byte_length < new_len {
                    Err(JsError::SpeciesTooSmall)
                } else if context.array_buffer(source).is_detached() {
                    Err(JsError::DetachedWhileSlicing)
                } else {
                    Ok((source, target))
                },
                _ => Err(JsError::SpeciesNotAnObject),
            },
        }
    }

    /// Whether `after` is `before` but for the bytes of the buffer
    /// `target`, which are now `bytes`.
    pub open spec fn rewritten(
        before: &Context,
        after: &Context,
        target: JsObject,
        bytes: Seq<u8>,
    ) -> bool {
        &&& before.differs_at(after, target)
        &&& after.is_array_buffer(target)
        &&& after.objects@[target.index as int].prototype == before.objects@[target.index
            as int].prototype
        &&& !after.array_buffer(target).is_detached()
        &&& after.array_buffer(target).bytes() == bytes
        &&& after.array_buffer(target).array_buffer_byte_length == before.array_buffer(
            target,
        ).array_buffer_byte_length
        &&& after.array_buffer(target).array_buffer_detach_key == before.array_buffer(
            target,
        ).array_buffer_detach_key
    }

    /// The second half of a slice: checks what was constructed for the
    /// slice, checks the receiver again, and copies the `new_len` bytes
    /// that begin at `first` to the front of the new buffer.
    pub fn slice_into(
        this: &JsValue,
        new: &JsValue,
        first: usize,
        new_len: usize,
        context: &mut Context,
    ) -> (result: JsResult<JsValue>)
        requires
            old(context).wf(),
            Self::slice_buffers(old(context), this@, new@, new_len as nat) matches Ok(
                (source, _),
            ) ==> first + new_len <= old(context).array_buffer(source).array_buffer_byte_length,
        ensures
            final(context).wf(),
            match Self::slice_buffers(old(context), this@, new@, new_len as nat) {
                Ok((source, target)) => {
                    &&& result is Ok
                    &&& result->Ok_0@ == new@
                    &&& Self::rewritten(
                        old(context),
                        final(context),
                        target,
                        copied_block(
                            old(context).array_buffer(target).bytes(),
                            0,
                            old(context).array_buffer(source).bytes(),
                            first as int,
                            new_len as int,
                        ),
                    )
                },
                Err(e) => result == Err::<JsValue, JsError>(e) && *final(context) == *old(context),
            },
    {
        let source = Self::require_buffer(this, context)?;
        let target = match new.as_object() {
            Some(target) => target,
            None => {
                return Err(JsError::SpeciesNotAnObject);
            },
        };
        if target.index >= context.objects.len() {
            return Err(JsError::SpeciesNotAnArrayBuffer);
        }
        match &context.objects[target.index].data {
            ObjectData::ArrayBuffer(buffer) => {
                if buffer.is_detached_buffer() {
                    return Err(JsError::SpeciesDetached);
                }
                if target.index == source.index {
                    return Err(JsError::SpeciesSameBuffer);
                }
                if buffer.array_buffer_byte_length < new_len {
                    return Err(JsError::SpeciesTooSmall);
                }
            },
            _ => {
                return Err(JsError::SpeciesNotAnArrayBuffer);
            },
        }
        match &context.objects[source.index].data {
            ObjectData::ArrayBuffer(buffer) => {
                if buffer.is_detached_buffer() {
                    return Err(JsError::DetachedWhileSlicing);
                }
            },
            _ => {
                return Err(JsError::NotAnArrayBuffer);
            },
        }
        // The two blocks live in one realm: the target block is taken out
        // while the source is read, and put back with the bytes copied.
        let mut to_buf: Option<Vec<u8>> = match &mut context.objects[target.index].data {
            ObjectData::ArrayBuffer(buffer) => buffer.array_buffer_data.take(),
            _ => None,
        };
        match &mut to_buf {
            Some(to_block) => {
                match &context.objects[source.index].data {
                    ObjectData::ArrayBuffer(buffer) => {
                        match &buffer.array_buffer_data {
                            Some(from_block) => {
                                copy_data_block_bytes(
                                    to_block,
                                    0,
                                    from_block.as_slice(),
                                    first,
                                    new_len,
                                );
                            },
                            None => {},
                        }
                    },
                    _ => {},
                }
            },
            None => {},
        }
        match &mut context.objects[target.index].data {
            ObjectData::ArrayBuffer(buffer) => {
                buffer.array_buffer_data = to_buf;
            },
            _ => {},
        }
        Ok(new.duplicate())
    }

    /// Makes a buffer of the bytes of the receiver from the first argument
    /// up to the second, both taken as relative indices.  The new buffer
    /// is made by the buffer constructor of the realm.
    pub fn slice(this: &JsValue, args: &[JsValue], context: &mut Context) -> (result: JsResult<
        JsValue,
    >)
        requires
            old(context).wf(),
        ensures
            final(context).wf(),
            match Self::slice_bounds(old(context), this@, args@) {
                Ok((first, new_len)) => if new_len > MAX_BYTE_LENGTH {
                    &&& result == Err::<JsValue, JsError>(JsError::AllocationFailed)
                    &&& *final(context) == *old(context)
                } else {
                    &&& result is Ok
                    &&& result->Ok_0@ is Object
                    &&& Self::allocated(
                        old(context),
                        final(context),
                        result->Ok_0@->Object_0,
                        old(context).prototype_from_constructor(
                            JsValueView::Object(old(context).array_buffer_object.constructor),
                        ),
                        old(context).array_buffer(this@->Object_0).bytes().subrange(
                            first as int,
                            (first + new_len) as int,
                        ),
                    )
                },
                Err(e) => result == Err::<JsValue, JsError>(e) && *final(context) == *old(context),
            },
    {
        let (first, new_len) = Self::slice_range(this, args, context)?;
        let ctor = JsValue::Object(context.array_buffer_object.constructor);
        let mut arguments: Vec<JsValue> = Vec::new();
        arguments.push(JsValue::Number(Number::from_integer(new_len as i64)));
        proof {
            Number::lemma_of_integer(new_len as int);
        }
        let new = Self::constructor(&ctor, arguments.as_slice(), context)?;
        let ghost made = *context;
        let result = Self::slice_into(this, &new, first, new_len, context);
        proof {
            let source = this@->Object_0;
            let target = new@->Object_0;
            assert(made.objects@[source.index as int] == old(context).objects@[source.index
                as int]);
            assert(context.array_buffer(target).bytes() =~= old(context).array_buffer(
                source,
            ).bytes().subrange(first as int, first + new_len));
        }
        result
    }

    /// Makes a buffer for `clone_constructor` of the `src_length` bytes of
    /// this one that begin at `src_byte_offset`.  The new buffer is made
    /// first: where this buffer turns out to be detached, the new one
    /// stays in the realm, filled with zeros.
    pub fn clone_array_buffer(
        &self,
        src_byte_offset: usize,
        src_length: usize,
        clone_constructor: &JsValue,
        context: &mut Context,
    ) -> (result: JsResult<JsObject>)
        requires
            self.wf(),
            old(context).wf(),
            !self.is_detached() ==> src_byte_offset + src_length
                <= self.array_buffer_byte_length,
        ensures
            final(context).wf(),
            src_length > MAX_BYTE_LENGTH ==> {
                &&& result == Err::<JsObject, JsError>(JsError::AllocationFailed)
                &&& *final(context) == *old(context)
            },
            src_length <= MAX_BYTE_LENGTH && self.is_detached() ==> {
                &&& result == Err::<JsObject, JsError>(JsError::CloneOfDetached)
                &&& Self::allocated(
                    old(context),
                    final(context),
                    JsObject { index: old(context).objects@.len() as usize },
                    old(context).prototype_from_constructor(clone_constructor@),
                    zeros(src_length as nat),
                )
            },
            src_length <= MAX_BYTE_LENGTH && !self.is_detached() ==> {
                &&& result is Ok
                &&& Self::allocated(
                    old(context),
                    final(context),
                    result->Ok_0,
                    old(context).prototype_from_constructor(clone_constructor@),
                    self.bytes().subrange(
                        src_byte_offset as int,
                        src_byte_offset + src_length,
                    ),
                )
            },
    {
        let target_buffer = Self::allocate(clone_constructor, src_length, context)?;
        let src_block = match &self.array_buffer_data {
            Some(block) => block,
            None => {
                return Err(JsError::CloneOfDetached);
            },
        };
        match &mut context.objects[target_buffer.index].data {
            ObjectData::ArrayBuffer(target) => {
                match &mut target.array_buffer_data {
                    Some(target_block) => {
                        copy_data_block_bytes(
                            target_block,
                            0,
                            src_block.as_slice(),
                            src_byte_offset,
                            src_length,
                        );
                    },
                    None => {},
                }
            },
            _ => {},
        }
        proof {
            assert(context.array_buffer(target_buffer).bytes() =~= self.bytes().subrange(
                src_byte_offset as int,
                src_byte_offset + src_length,
            ));
        }
        Ok(target_buffer)
    }

    /// Installs the buffer constructor in a realm: makes the prototype
    /// object and the constructor whose `prototype` property holds it,
    /// registers both with the realm, and returns the constructor.
    pub fn init(context: &mut Context) -> (constructor: JsValue)
        requires
            old(context).wf(),
        ensures
            final(context).wf(),
            constructor@ == JsValueView::Object(final(context).array_buffer_object.constructor),
            final(context).objects@.len() == old(context).objects@.len() + 2,
            forall|i: int|
                0 <= i < old(context).objects@.len() ==> #[trigger] final(context).objects@[i]
                    == old(context).objects@[i],
            final(context).array_buffer_object.prototype.index == old(context).objects@.len(),
            final(context).array_buffer_object.constructor.index == old(context).objects@.len()
                + 1,
            final(context).objects@[final(context).array_buffer_object.prototype.index as int].data
                is Ordinary,
            final(context).objects@[final(context).array_buffer_object.constructor.index
                as int].data is Constructor,
            final(context).objects@[final(context).array_buffer_object.constructor.index
                as int].data->Constructor_0@ == JsValueView::Object(
                final(context).array_buffer_object.prototype,
            ),
            final(context).prototype_from_constructor(constructor@)
                == final(context).array_buffer_object.prototype,
    {
        let prototype = context.create_object(None, ObjectData::Ordinary);
        let constructor = context.create_object(
            None,
            ObjectData::Constructor(JsValue::Object(prototype)),
        );
        context.array_buffer_object = StandardConstructor { constructor, prototype };
        JsValue::Object(constructor)
    }
}

/// The unsigned number of the given width that two's complement reads as
/// `value`.
fn from_signed(value: i64, width: usize) -> (raw: u64)
    requires
        width == 1 || width == 2 || width == 4 || width == 8,
        -(byte_weight(width as nat) as int) <= 2 * value < byte_weight(width as nat),
    ensures
        raw < byte_weight(width as nat),
        twos_complement(raw as nat, width as nat) == value,
{
    proof {
        lemma_byte_weights();
    }
    if value >= 0 {
        value as u64
    } else if width == 1 {
        (value + 0x100) as u64
    } else if width == 2 {
        (value + 0x1_0000) as u64
    } else if width == 4 {
        (value + 0x1_0000_0000) as u64
    } else {
        (value as i128 + 0x1_0000_0000_0000_0000) as u64
    }
}

} // verus!
