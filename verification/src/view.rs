//! Reads and writes of elements through a data view.  A view holds no
//! bytes: every access looks its buffer up in the realm, and finds out
//! there whether the buffer is still attached.

use crate::array_buffer::{copied_block, ArrayBuffer};
use crate::codec::{decoded, encoded};
use crate::element::{ElementType, SharedMemoryOrder};
use crate::error::{JsError, JsResult};
use crate::realm::{Context, ObjectData, ViewedBuffer};
use crate::value::{index_of, JsObject, JsValue, JsValueView};
use vstd::prelude::*;

verus! {

/// The window of the data view that a value names.
pub open spec fn data_view(context: &Context, view: JsValueView) -> JsResult<ViewedBuffer> {
    match view {
        JsValueView::Object(object) => if context.has(object) {
            match context.objects@[object.index as int].data {
                ObjectData::DataView(window) => Ok(window),
                _ => Err(JsError::NotAView),
            }
        } else {
            Err(JsError::NotAView)
        },
        _ => Err(JsError::NotAView),
    }
}

/// Where an access through a view lands, as the buffer and the index of
/// the first byte in it.  The view has to be a data view over a buffer
/// that is still attached: that is settled before any offset is worked
/// out.  Then the requested index has to convert, the element has to lie
/// inside the window, and the window inside the buffer.
pub open spec fn view_target(
    context: &Context,
    view: JsValueView,
    request_index: JsValueView,
    t: ElementType,
) -> JsResult<(JsObject, nat)> {
    match data_view(context, view) {
        Err(e) => Err(e),
        Ok(window) => {
            let buffer = window.viewed_array_buffer;
            if !context.is_array_buffer(buffer) {
                Err(JsError::NotAnArrayBuffer)
            } else if context.array_buffer(buffer).is_detached() {
                Err(JsError::DetachedBuffer)
            } else {
                match index_of(request_index) {
                    Err(e) => Err(e),
                    Ok(index) => {
                        let length = context.array_buffer(buffer).array_buffer_byte_length;
                        if index + t.width() > window.byte_length || window.byte_offset
                            + window.byte_length > length {
                            Err(JsError::ViewOutOfBounds)
                        } else {
                            Ok((buffer, (window.byte_offset + index) as nat))
                        }
                    },
                }
            }
        },
    }
}

/// Where an access through a view lands.
fn locate(view: &JsValue, request_index: &JsValue, t: ElementType, context: &Context) -> (result:
    JsResult<(JsObject, usize)>)
    requires
        context.wf(),
    ensures
        match view_target(context, view@, request_index@, t) {
            Ok((buffer, index)) => result == Ok::<(JsObject, usize), JsError>(
                (buffer, index as usize),
            ),
            Err(e) => result == Err::<(JsObject, usize), JsError>(e),
        },
        result is Ok ==> result->Ok_0.1 + t.width() <= context.array_buffer(
            result->Ok_0.0,
        ).array_buffer_byte_length,
{
    let window = match view {
        JsValue::Object(object) => {
            if object.index < context.objects.len() {
                match &context.objects[object.index].data {
                    ObjectData::DataView(window) => *window,
                    _ => {
                        return Err(JsError::NotAView);
                    },
                }
            } else {
                return Err(JsError::NotAView);
            }
        },
        _ => {
            return Err(JsError::NotAView);
        },
    };
    let buffer = window.viewed_array_buffer;
    if buffer.index >= context.objects.len() {
        return Err(JsError::NotAnArrayBuffer);
    }
    match &context.objects[buffer.index].data {
        ObjectData::ArrayBuffer(block) => {
            if block.is_detached_buffer() {
                return Err(JsError::DetachedBuffer);
            }
            let index = request_index.to_index()?;
            let length = block.array_buffer_byte_length as u64;
            let size = t.element_size() as u64;
            if index + size > window.byte_length as u64 {
                return Err(JsError::ViewOutOfBounds);
            }
            if window.byte_offset as u64 > length || window.byte_length as u64 > length
                - window.byte_offset as u64 {
                return Err(JsError::ViewOutOfBounds);
            }
            Ok((buffer, (window.byte_offset as u64 + index) as usize))
        },
        _ => Err(JsError::NotAnArrayBuffer),
    }
}

/// Reads the element of type `t` at `request_index` of a data view.
pub fn get_view_value(
    view: &JsValue,
    request_index: &JsValue,
    is_little_endian: bool,
    t: ElementType,
    context: &Context,
) -> (result: JsResult<JsValue>)
    requires
        context.wf(),
    ensures
        match view_target(context, view@, request_index@, t) {
            Ok((buffer, index)) => {
                &&& result is Ok
                &&& result->Ok_0@ == decoded(
                    t,
                    context.array_buffer(buffer).bytes().subrange(
                        index as int,
                        (index + t.width()) as int,
                    ),
                    is_little_endian,
                )
            },
            Err(e) => result == Err::<JsValue, JsError>(e),
        },
{
    let (buffer, index) = locate(view, request_index, t, context)?;
    match &context.objects[buffer.index].data {
        ObjectData::ArrayBuffer(block) => Ok(
            block.get_value_from_buffer(
                index,
                t,
                false,
                SharedMemoryOrder::Unordered,
                Some(is_little_endian),
            ),
        ),
        _ => Err(JsError::NotAnArrayBuffer),
    }
}

/// Stores `value` as the element of type `t` at `request_index` of a data
/// view.  Nothing but the bytes of that element changes, and nothing at
/// all where the access fails.
pub fn set_view_value(
    view: &JsValue,
    request_index: &JsValue,
    is_little_endian: bool,
    t: ElementType,
    value: &JsValue,
    context: &mut Context,
) -> (result: JsResult<JsValue>)
    requires
        old(context).wf(),
    ensures
        final(context).wf(),
        match view_target(old(context), view@, request_index@, t) {
            Ok((buffer, index)) => match encoded(t, value@, is_little_endian) {
                Ok(bytes) => {
                    &&& result is Ok
                    &&& result->Ok_0@ is Undefined
                    &&& ArrayBuffer::rewritten(
                        old(context),
                        final(context),
                        buffer,
                        copied_block(
                            old(context).array_buffer(buffer).bytes(),
                            index as int,
                            bytes,
                            0,
                            t.width() as int,
                        ),
                    )
                },
                Err(e) => result == Err::<JsValue, JsError>(e) && *final(context) == *old(context),
            },
            Err(e) => result == Err::<JsValue, JsError>(e) && *final(context) == *old(context),
        },
{
    let (buffer, index) = locate(view, request_index, t, context)?;
    let raw_bytes = ArrayBuffer::numeric_to_raw_bytes(t, value, is_little_endian)?;
    match &mut context.objects[buffer.index].data {
        ObjectData::ArrayBuffer(block) => {
            block.store_raw_bytes(index, &raw_bytes);
        },
        _ => {},
    }
    Ok(JsValue::undefined())
}

} // verus!
