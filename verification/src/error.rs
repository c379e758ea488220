//! Error taxonomy of the embedding store and of the embedding generator.

use vstd::prelude::*;

verus! {

/// Failures of the store: dimension and key validation, and decode-time
/// schema drift.
#[derive(Clone, Copy, Debug, PartialEq, Eq, Structural)]
pub enum StoreError {
    /// An embedding's length differs from the fixed dimension.
    DimensionMismatch { expected: usize, got: usize },
    /// Update was called with a key that disagrees with the record's path.
    PathMismatch,
    /// Similarity-by-file was asked for a path that holds no record.
    NotFound,
    /// A column's runtime type does not match the type its position demands.
    ColumnTypeMismatch { column: usize },
    /// A row index at or beyond the batch's row count.
    RowOutOfBounds { row: usize },
}

/// Failures of the embedding generator.
#[derive(Clone, Copy, Debug, PartialEq, Eq, Structural)]
pub enum EmbedError {
    /// The tokenizer rejected the input.
    Tokenization,
    /// The encoder model invocation failed.
    Inference,
    /// Tensor construction failed: the data's length disagrees with the
    /// intended shape.
    Shape,
}

} // verus!
