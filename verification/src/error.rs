use vstd::prelude::*;

verus! {

/// Why a decimal number could not be parsed (named as `usize::from_str` names them).
#[derive(Debug, Clone, Copy, PartialEq, Eq, Structural)]
pub enum IntErrorKind {
    /// A byte that is not a decimal digit was met.
    InvalidDigit,
    /// The value does not fit in a `usize`.
    PosOverflow,
}

/// Why a hexadecimal text could not be decoded.
#[derive(Debug, Clone, Copy, PartialEq, Eq, Structural)]
pub enum HexErrorKind {
    /// The text has an odd number of bytes.
    OddLength,
    /// The text does not have the length that a fixed-size value needs.
    InvalidLength,
    /// A byte that is not a hexadecimal digit was met.
    InvalidChar,
}

/// Errors of the library.
#[derive(Debug)]
pub enum WolletError {
    /// A free-form error, used for failures met while doing I/O.
    Generic(String),
    /// A persisted file name is not a valid number.
    ParseInt(IntErrorKind),
    /// A hexadecimal text could not be decoded.
    Hex(HexErrorKind),
    /// Bytes could not be decoded as a consensus-encoded value.
    Decode,
}

} // verus!
