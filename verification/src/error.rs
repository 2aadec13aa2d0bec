//! What can go wrong.

use vstd::prelude::*;

verus! {

/// Why an operation on a document failed.
#[derive(Debug, Clone, Copy, PartialEq, Eq, Structural)]
pub enum ModelError {
    /// The markup of a part is malformed, or its text does not decode.
    Xml,
    /// The document store refused a read or a write.
    Store,
    /// There is no paragraph at that index.
    NoBlock,
    /// A paragraph mark cannot be a format change.
    BadMark,
    /// The first paragraph has no predecessor to join.
    FirstBlock,
    /// Paragraphs of different cells cannot be joined.
    CellBoundary,
    /// A range cannot be moved into itself.
    MoveIntoItself,
}

} // verus!
