//! The ways decoding a chunk can fail.
use vstd::prelude::*;

verus! {

/// The primitive kinds whose width a chunk header declares.
#[derive(Debug, Clone, Copy, PartialEq, Eq)]
pub enum WidthKind {
    Int,
    SizeT,
    Instruction,
    Number,
}

/// Why a chunk could not be decoded. Every error is fatal to the decode.
#[derive(Debug, Clone, Copy, PartialEq, Eq)]
pub enum ReadError {
    /// A read of `size` bytes at `position` would pass the end of the
    /// `bytes_size` bytes of the buffer.
    OutOfBounds { position: u64, size: u64, bytes_size: u64 },
    /// The chunk does not start with the signature byte and "Lua".
    BadSignature,
    /// The version byte is not 0x51.
    UnsupportedVersion(u8),
    /// A constant's type tag is not 0, 1, 3 or 4.
    InvalidConstantType(u8),
    /// A non-empty string does not end with a NUL byte.
    MissingTerminator,
    /// A `SetList` with inline count 0 is the last instruction word.
    MissingAux,
    /// The header declares a width this decoder does not handle.
    UnhandledWidth(WidthKind, u8),
}

} // verus!
