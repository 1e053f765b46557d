//! The numeric element kinds a view can read from or write to a byte block.

use vstd::prelude::*;

verus! {

/// One fixed-width numeric encoding.
#[derive(Clone, Copy, Debug, PartialEq, Eq, Structural)]
pub enum ElementType {
    Int8,
    Uint8,
    Uint8Clamped,
    Int16,
    Uint16,
    Int32,
    Uint32,
    BigInt64,
    BigUint64,
    Float32,
    Float64,
}

/// The order a shared-memory access would be performed in.  Blocks are never
/// shared between agents, so the order is carried through and not consulted.
#[derive(Clone, Copy, Debug, PartialEq, Eq, Structural)]
pub enum SharedMemoryOrder {
    Init,
    SeqCst,
    Unordered,
}

impl ElementType {
    /// The number of bytes one element occupies.
    pub open spec fn width(self) -> nat {
        match self {
            ElementType::Int8 | ElementType::Uint8 | ElementType::Uint8Clamped => 1,
            ElementType::Int16 | ElementType::Uint16 => 2,
            ElementType::Int32 | ElementType::Uint32 | ElementType::Float32 => 4,
            ElementType::BigInt64 | ElementType::BigUint64 | ElementType::Float64 => 8,
        }
    }

    /// Whether elements are integers reduced modulo a power of two.
    pub open spec fn is_unclamped_integer(self) -> bool {
        self is Int8 || self is Uint8 || self is Int16 || self is Uint16 || self is Int32
            || self is Uint32
    }

    /// Whether elements are 64-bit big integers.
    pub open spec fn is_big_int(self) -> bool {
        self is BigInt64 || self is BigUint64
    }

    /// Whether an integer element is read as two's complement.
    pub open spec fn is_signed(self) -> bool {
        self is Int8 || self is Int16 || self is Int32 || self is BigInt64
    }

    /// Whether the byte order of an element can be observed.
    pub open spec fn is_endian_sensitive(self) -> bool {
        self.width() > 1
    }

    /// The number of bytes one element occupies.
    pub fn element_size(self) -> (size: usize)
        ensures
            size == self.width(),
            size == 1 || size == 2 || size == 4 || size == 8,
    {
        match self {
            ElementType::Int8 | ElementType::Uint8 | ElementType::Uint8Clamped => 1,
            ElementType::Int16 | ElementType::Uint16 => 2,
            ElementType::Int32 | ElementType::Uint32 | ElementType::Float32 => 4,
            ElementType::BigInt64 | ElementType::BigUint64 | ElementType::Float64 => 8,
        }
    }
}

} // verus!
