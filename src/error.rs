use vstd::prelude::*;

verus! {

/// What can go wrong while a schedule is read or a column is built.
#[derive(Clone, Copy, Debug, PartialEq, Eq, Structural)]
pub enum PDFJsonError {
    /// The document could not be read or is not a schedule document.
    PDFReadError,
    /// A column was given fewer cells than it has slots.
    TooFewCells,
    /// A column was given more cells than it has slots.
    TooManyCells,
    /// The written form of a column names one slot more than once.
    DuplicateBlock,
}

} // verus!
