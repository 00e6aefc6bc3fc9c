//! The failures that the builders report to a producer.

use vstd::prelude::*;

verus! {

/// Why an operation on a column tree was refused.
///
/// No failure is retried or repaired: each one is handed to the producer,
/// and the tree is left as it was.
#[derive(Clone, Copy, Debug, PartialEq, Eq, Structural)]
pub enum TableError {
    /// The index is out of range, or the column at that index is not of the
    /// requested kind.
    SchemaMismatch,
    /// Autocomplete was asked for while every column has the same length.
    NoIncompleteRow,
    /// The columns diverge by more than one row.
    MultipleIncompleteRows { complete: usize, incomplete: usize },
    /// A column that must be filled with a null does not admit nulls.
    NonNullableColumnIncomplete,
    /// A flush was asked for while a row is incomplete.
    FlushWithPendingRow,
    /// Arrow refused the columns of a batch: their lengths differ, or a
    /// column that does not admit nulls holds one.
    InvalidBatch,
}

} // verus!
