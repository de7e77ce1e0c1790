use vstd::prelude::*;

verus! {

/// What went wrong, in terms of the file format and of the selections.
#[derive(Debug, Clone)]
pub enum BedError {
    /// The header's magic bytes are wrong, or the file's length disagrees with its dimensions.
    IllFormed(String),
    /// The orientation byte is neither 0 nor 1.
    BadMode(String),
    /// A value to write is none of 0, 1, 2 and the missing value.
    BadValue(String),
    /// A worker of the parallel stage panicked.
    PanickedThread(),
    /// A row position is out of range.
    IidIndexTooBig(isize),
    /// A column position is out of range.
    SidIndexTooBig(isize),
    /// The selections do not match the output's dimensions.
    IndexMismatch(usize, usize, usize, usize),
    /// The dimensions overflow the file-size arithmetic.
    IndexesTooBigForFiles(usize, usize),
    /// The selections of a subset do not match the output's dimensions.
    SubsetMismatch(usize, usize, usize, usize),
    /// A field that was marked as skipped was asked for.
    CannotUseSkippedMetadata(String),
    /// A range starts after it ends.
    StartGreaterThanEnd(usize, usize),
    /// A strided slice has a step of zero.
    StepZero,
    /// A slice starts beyond the count.
    StartGreaterThanCount(usize, usize),
    /// A slice or range ends beyond the count.
    EndGreaterThanCount(usize, usize),
    /// A slice adds an axis.
    NewAxis,
    /// A slice is not one-dimensional.
    NdSliceInfoNot1D,
    /// A sidecar line does not hold the expected number of fields.
    MetadataFieldCount(usize, usize, String),
    /// Two sources give different counts.
    InconsistentCount(String, usize, usize),
    /// A boolean mask's length differs from the count.
    BoolArrayVectorWrongLength(usize, usize),
    /// An output matrix has the wrong shape.
    InvalidShape(usize, usize, usize, usize),
}

/// A library error, or an integer that failed to parse.
#[derive(Debug)]
pub enum BedErrorPlus {
    BedError(BedError),
    ParseIntError(std::num::ParseIntError),
}

#[verifier::external_type_specification]
#[verifier::external_body]
pub struct ExParseIntError(std::num::ParseIntError);

} // verus!
