use vstd::prelude::*;

verus! {

/// Result codes shared by every operation of the decoder.
///
/// Success travels through `Result::Ok`; these are the failure codes.
#[derive(Clone, Copy, PartialEq, Eq, Structural, Debug)]
pub enum ParserError {
    /// The buffer ran out in the middle of a field.
    UnexpectedEnd,
    /// A declared length is inconsistent with the structure.
    InvalidLength,
    /// An unknown or unsupported tag value.
    InvalidType,
    /// The caller did not provide a slot for the required-size report.
    NoMemoryForState,
    /// The input buffer is empty or absent.
    InitContextEmpty,
    /// An operation was invoked on an absent or undecoded state.
    ContextMismatch,
    /// A display index at or past the item count.
    DisplayIdxOutOfRange,
    /// A page index at or past the page count.
    InvalidPage,
    /// The queried field is legitimately absent for this transaction kind.
    NoData,
}

} // verus!
