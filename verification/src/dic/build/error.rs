//! Errors of the dictionary builder.
use vstd::prelude::*;

verus! {

/// Why building a dictionary failed.
#[derive(Debug, Clone, PartialEq, Eq)]
pub enum BuildFailure {
    /// A value is too large for the field it is stored in.
    InvalidFieldSize { actual: usize, expected: usize, field: &'static str },
    /// Written data has another size than expected.
    InvalidSize { actual: usize, expected: usize },
    /// A reference names a headword that no entry has.
    InvalidSplitWordReference(String),
    /// A reference or a table row is not acceptable.
    InvalidSplit(String),
    /// There are more parts of speech than ids; the row that found none left.
    PosLimitExceeded(String),
    /// A field that must be a number of type `i16` is not one.
    InvalidI16Literal(String),
    /// A field that must be a number of type `u32` is not one.
    InvalidU32Literal(String),
    /// A word id literal names no word id.
    InvalidWordId(String),
    /// A reference written with commas lacks one of its fields.
    SplitFormatError { field: &'static str, original: String },
    /// An entry has an empty index form.
    EmptySurface,
    /// A unicode escape names no char.
    InvalidCharLiteral(String),
    /// A field or column is missing, or a header names a column wrongly.
    NoRawField(&'static str),
    /// The CSV text could not be read.
    CsvError,
}

/// A failure of reading a source, with the line of the source where it came.
#[derive(Debug, Clone, PartialEq, Eq)]
pub struct DicBuildError {
    pub cause: BuildFailure,
    pub line: usize,
}

} // verus!
