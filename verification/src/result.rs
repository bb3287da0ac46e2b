use vstd::prelude::*;

verus! {

/// Errors produced by the library.
#[derive(Debug)]
pub enum BLFLibError {
    /// A bit count outside the range the operation supports.
    BitCountOutOfRange,
    /// A value that does not fit in the bit width it is written with.
    ValueOutOfRange,
    /// A read that needs more bits or bytes than the input holds.
    EndOfStream,
    /// Bytes that should hold UTF-8 text but do not.
    InvalidUtf8,
    /// Any other failure, described in words.
    Message(String),
}

/// The result type used throughout the library.
pub type BLFLibResult<T = ()> = Result<T, BLFLibError>;

} // verus!
