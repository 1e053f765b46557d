//! The realm: the objects that values can name, each with the internal
//! slots that buffer operations consult.

use crate::array_buffer::ArrayBuffer;
use crate::element::ElementType;
use crate::value::{JsObject, JsValue, JsValueView};
use vstd::prelude::*;

verus! {

/// The window of a view into its buffer.
#[derive(Clone, Copy, Debug, PartialEq, Eq, Structural)]
pub struct ViewedBuffer {
    /// The buffer that the view reads and writes.
    pub viewed_array_buffer: JsObject,
    /// Where in the buffer the window begins.
    pub byte_offset: usize,
    /// How many bytes the window spans.
    pub byte_length: usize,
}

/// The internal slots of an object, by kind.
#[derive(Clone, Debug)]
pub enum ObjectData {
    /// An object without slots of interest here.
    Ordinary,
    /// A buffer.
    ArrayBuffer(ArrayBuffer),
    /// A typed array over a buffer.
    TypedArray(ViewedBuffer, ElementType),
    /// A data view over a buffer.
    DataView(ViewedBuffer),
    /// A constructor, with the value of its `prototype` property.
    Constructor(JsValue),
}

/// An object of the realm.
#[derive(Clone, Debug)]
pub struct Object {
    /// The object that this one inherits from.
    pub prototype: Option<JsObject>,
    /// The internal slots.
    pub data: ObjectData,
}

/// A constructor of the realm with the prototype of what it constructs.
#[derive(Clone, Copy, Debug, PartialEq, Eq, Structural)]
pub struct StandardConstructor {
    pub constructor: JsObject,
    pub prototype: JsObject,
}

/// A realm: its objects, in the order they were created in, and its
/// buffer constructor.
#[derive(Clone, Debug)]
pub struct Context {
    pub objects: Vec<Object>,
    pub array_buffer_object: StandardConstructor,
}

impl Context {
    /// Whether the handle names an object of this realm.
    pub open spec fn has(&self, object: JsObject) -> bool {
        object.index < self.objects@.len()
    }

    /// Whether the handle names a buffer of this realm.
    pub open spec fn is_array_buffer(&self, object: JsObject) -> bool {
        self.has(object) && self.objects@[object.index as int].data is ArrayBuffer
    }

    /// The buffer that the handle names.
    pub open spec fn array_buffer(&self, object: JsObject) -> ArrayBuffer
        recommends
            self.is_array_buffer(object),
    {
        self.objects@[object.index as int].data->ArrayBuffer_0
    }

    /// Whether the handle names a typed array or a data view of this realm.
    pub open spec fn is_view(&self, object: JsObject) -> bool {
        self.has(object) && (self.objects@[object.index as int].data is TypedArray
            || self.objects@[object.index as int].data is DataView)
    }

    /// Whether every buffer of the realm is well formed.
    pub open spec fn wf(&self) -> bool {
        forall|i: int|
            0 <= i < self.objects@.len() && (#[trigger] self.objects@[i]).data is ArrayBuffer
                ==> self.objects@[i].data->ArrayBuffer_0.wf()
    }

    /// The prototype that an object made by `constructor` gets: the value
    /// of the constructor's `prototype` property where that is an object,
    /// and the prototype of the realm's own buffer constructor otherwise.
    pub open spec fn prototype_from_constructor(&self, constructor: JsValueView) -> JsObject {
        match constructor {
            JsValueView::Object(c) => if self.has(c) {
                match self.objects@[c.index as int].data {
                    ObjectData::Constructor(prototype) => match prototype@ {
                        JsValueView::Object(p) => p,
                        _ => self.array_buffer_object.prototype,
                    },
                    _ => self.array_buffer_object.prototype,
                }
            } else {
                self.array_buffer_object.prototype
            },
            _ => self.array_buffer_object.prototype,
        }
    }

    /// Whether `after` is `self` with one more object, and that object is
    /// `added`.
    pub open spec fn extended_by(&self, after: &Context, added: JsObject) -> bool {
        &&& added.index == self.objects@.len()
        &&& after.objects@.len() == self.objects@.len() + 1
        &&& after.array_buffer_object == self.array_buffer_object
        &&& forall|i: int|
            0 <= i < self.objects@.len() ==> #[trigger] after.objects@[i] == self.objects@[i]
    }

    /// Whether `after` is `self` but for the object `changed`.
    pub open spec fn differs_at(&self, after: &Context, changed: JsObject) -> bool {
        &&& after.objects@.len() == self.objects@.len()
        &&& after.array_buffer_object == self.array_buffer_object
        &&& forall|i: int|
            0 <= i < self.objects@.len() && i != changed.index ==> #[trigger] after.objects@[i]
                == self.objects@[i]
    }

    /// A realm with its buffer constructor and that constructor's
    /// prototype, and nothing else.
    pub fn new() -> (context: Context)
        ensures
            context.wf(),
            context.objects@.len() == 2,
            context.array_buffer_object.prototype.index == 0,
            context.array_buffer_object.constructor.index == 1,
            context.objects@[0].data is Ordinary,
            context.objects@[1].data is Constructor,
            context.objects@[1].data->Constructor_0@ == JsValueView::Object(
                context.array_buffer_object.prototype,
            ),
    {
        let nothing = JsObject { index: 0 };
        let mut context = Context {
            objects: Vec::new(),
            array_buffer_object: StandardConstructor { constructor: nothing, prototype: nothing },
        };
        ArrayBuffer::init(&mut context);
        context
    }

    /// Adds an object to the realm and returns its handle.
    pub fn create_object(&mut self, prototype: Option<JsObject>, data: ObjectData) -> (object:
        JsObject)
        requires
            old(self).wf(),
            data is ArrayBuffer ==> data->ArrayBuffer_0.wf(),
        ensures
            final(self).wf(),
            old(self).extended_by(final(self), object),
            final(self).objects@[object.index as int].prototype == prototype,
            final(self).objects@[object.index as int].data == data,
    {
        let index = self.objects.len();
        self.objects.push(Object { prototype, data });
        JsObject { index }
    }

    /// The prototype that an object made by `constructor` gets.
    pub fn get_prototype_from_constructor(&self, constructor: &JsValue) -> (prototype: JsObject)
        ensures
            prototype == self.prototype_from_constructor(constructor@),
    {
        match constructor {
            JsValue::Object(c) => {
                if c.index < self.objects.len() {
                    match &self.objects[c.index].data {
                        ObjectData::Constructor(JsValue::Object(p)) => *p,
                        _ => self.array_buffer_object.prototype,
                    }
                } else {
                    self.array_buffer_object.prototype
                }
            },
            _ => self.array_buffer_object.prototype,
        }
    }
}

} // verus!
