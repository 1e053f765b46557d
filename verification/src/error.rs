//! The errors that buffer operations raise.

use vstd::prelude::*;

verus! {

/// The error constructor that a failure is raised with.
#[derive(Clone, Copy, Debug, PartialEq, Eq, Structural)]
pub enum ErrorKind {
    TypeError,
    RangeError,
}

/// Why an operation failed.  Each failure has its own message.
#[derive(Clone, Copy, Debug, PartialEq, Eq, Structural)]
pub enum JsError {
    /// The constructor was called without a new target.
    UndefinedNewTarget,
    /// A length or an index is negative or above `2^53 - 1`.
    IndexOutOfRange,
    /// The requested block is larger than this implementation allocates.
    AllocationFailed,
    /// The receiver is not an object.
    NotAnObject,
    /// The receiver is an object without buffer data.
    NotAnArrayBuffer,
    /// The receiver is a detached buffer.
    DetachedBuffer,
    /// The species constructor returned a value that is not an object.
    SpeciesNotAnObject,
    /// The species constructor returned an object without buffer data.
    SpeciesNotAnArrayBuffer,
    /// The species constructor returned a detached buffer.
    SpeciesDetached,
    /// The species constructor returned the receiver itself.
    SpeciesSameBuffer,
    /// The species constructor returned a buffer shorter than the slice.
    SpeciesTooSmall,
    /// The receiver was detached while the slice was under construction.
    DetachedWhileSlicing,
    /// The key handed to detach is not the key of the buffer.
    DetachKeyMismatch,
    /// The value cannot be converted to a Number.
    CannotConvertToNumber,
    /// The value cannot be converted to a big integer.
    CannotConvertToBigInt,
    /// The source of a clone is detached.
    CloneOfDetached,
    /// A view reaches beyond the end of its buffer.
    ViewOutOfBounds,
    /// The receiver is not a view.
    NotAView,
}

/// What an operation that can fail returns.
pub type JsResult<T> = Result<T, JsError>;

impl JsError {
    /// The constructor that the failure is raised with: a length, an index
    /// or an allocation out of range raises a `RangeError`, everything else
    /// a `TypeError`.
    pub open spec fn error_kind(self) -> ErrorKind {
        match self {
            JsError::IndexOutOfRange | JsError::AllocationFailed | JsError::ViewOutOfBounds => {
                ErrorKind::RangeError
            },
            _ => ErrorKind::TypeError,
        }
    }

    /// The constructor that the failure is raised with.
    pub fn kind(&self) -> (kind: ErrorKind)
        ensures
            kind == self.error_kind(),
    {
        match self {
            JsError::IndexOutOfRange | JsError::AllocationFailed | JsError::ViewOutOfBounds => {
                ErrorKind::RangeError
            },
            _ => ErrorKind::TypeError,
        }
    }
}

} // verus!
