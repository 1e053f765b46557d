//! Byte-level storage for typed-array views: a fixed-length block of bytes
//! with a detach lifecycle, and the bit-exact codec between numeric values
//! and their byte encodings.

pub mod array_buffer;
pub mod bigint;
pub mod binary32;
pub mod bytes;
pub mod codec;
pub mod element;
pub mod error;
pub mod laws;
pub mod number;
pub mod realm;
pub mod scaling;
pub mod value;
pub mod view;
