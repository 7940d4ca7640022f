//! The error kinds of the pipeline, one per stage.

use vstd::prelude::*;

verus! {

/// Why the textual parameters of a claim were rejected.
#[derive(Clone, Copy, Debug, PartialEq, Eq, Structural)]
pub enum ParseError {
    /// A hash is not written as exactly 64 hexadecimal digits.
    InvalidHash,
    /// A number is not written in decimal, or does not fit in 64 bits.
    InvalidNumber,
}

/// Why no store could be loaded for a block.
#[derive(Clone, Copy, Debug, PartialEq, Eq, Structural)]
pub enum LoadError {
    /// There is no backing data for the block.
    NotFound,
    /// The backing data does not have the shape of a store: a key is not 32
    /// bytes long, or a key occurs twice.
    CorruptStore,
}

/// Why a manifest and a store could not be encoded, or a buffer not decoded.
#[derive(Clone, Copy, Debug, PartialEq, Eq, Structural)]
pub enum SerializationError {
    /// The store, or its archive, is larger than the scratch capacity, or the
    /// archiver ran out of scratch space.
    CapacityExceeded,
    /// The archiver failed in another way, or what it wrote does not read
    /// back as the store.
    EncodingFailed,
    /// The buffer is not the encoding of a manifest and a store.
    MalformedBuffer,
}

} // verus!
