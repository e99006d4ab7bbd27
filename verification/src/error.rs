//! The failures that decoding and encoding can report.

use vstd::prelude::*;

verus! {

/// The ways in which bytes can break the wire format.
#[derive(Copy, Clone, Debug, PartialEq, Eq, Structural)]
pub enum ProtocolViolation {
    /// A type descriptor starts with a byte that names no column type.
    InvalidColumnType(u8),
    /// The length prefix of a value differs from the length that the
    /// column's type declares.
    LengthMismatch { declared: usize, found: u8 },
    /// A string whose encoded length does not fit the 16-bit length field.
    StringTooLong,
}

/// Why an operation failed. Running out of input or of room in the send
/// buffer is no failure and is not reported through this type.
#[derive(Copy, Clone, Debug, PartialEq, Eq, Structural)]
pub enum TdsError {
    /// The bytes on the wire are malformed or not recognised.
    Protocol(ProtocolViolation),
    /// A column value was asked for as a native type that it does not hold.
    Conversion,
    /// The type or value is part of the format, but not handled yet.
    Unimplemented,
}

pub type TdsResult<T> = Result<T, TdsError>;

} // verus!
