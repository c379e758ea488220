//! The unit of storage: one embedded source artifact with its metadata.

use vstd::prelude::*;

verus! {

/// Every stored or queried vector must have exactly this many components.
pub const EMBEDDING_DIM: usize = 768;

/// Mathematical model of an [`EmbeddingRecord`].
///
/// Strings are sequences of characters; the embedding is the sequence of
/// the IEEE-754 bit patterns of its 32-bit float components.
pub ghost struct RecordModel {
    pub path: Seq<char>,
    pub hash: Seq<char>,
    pub embedding: Seq<u32>,
    pub language: Seq<char>,
    pub last_modified: i64,
    pub last_accessed: i64,
    pub line_count: i16,
    pub imported_by: Seq<Seq<char>>,
    pub content_preview: Option<Seq<char>>,
}

/// One embedded artifact. `path` is the logical primary key; the
/// embedding holds the bit patterns of its float components, so that the
/// store's invariants are stated over plain integers.
///
/// `content_preview` of `None` is a distinct, stored state, not an empty
/// string.
#[derive(Clone, Debug, PartialEq)]
pub struct EmbeddingRecord {
    pub path: String,
    pub hash: String,
    pub embedding: Vec<u32>,
    pub language: String,
    pub last_modified: i64,
    pub last_accessed: i64,
    pub line_count: i16,
    pub imported_by: Vec<String>,
    pub content_preview: Option<String>,
}

impl View for EmbeddingRecord {
    type V = RecordModel;

    open spec fn view(&self) -> RecordModel {
        RecordModel {
            path: self.path@,
            hash: self.hash@,
            embedding: self.embedding@,
            language: self.language@,
            last_modified: self.last_modified,
            last_accessed: self.last_accessed,
            line_count: self.line_count,
            imported_by: self.imported_by.deep_view(),
            content_preview: self.content_preview.deep_view(),
        }
    }
}

impl RecordModel {
    /// The dimension invariant: the record's embedding has exactly
    /// [`EMBEDDING_DIM`] components.
    pub open spec fn valid_dim(self) -> bool {
        self.embedding.len() == EMBEDDING_DIM
    }
}

} // verus!
