use vstd::prelude::*;

verus! {

/// Errors reported by the dictionary readers and writers.
#[derive(Debug, Clone, Copy, PartialEq, Eq)]
pub enum SudachiError {
    /// The input ended before a complete value could be read.
    UnexpectedEndOfInput,
    /// A UTF-16 string in the binary data is not valid UTF-16.
    InvalidUtf16,
    /// A length field in the binary data is negative.
    NegativeLength,
    /// A string pointer does not fit its encoding.
    InvalidStringPointer,
    /// A variable-length integer is cut short or does not fit 32 bits.
    InvalidVarint,
}

/// The result type of the library.
pub type SudachiResult<T> = Result<T, SudachiError>;

} // verus!
