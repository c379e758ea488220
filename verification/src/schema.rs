//! The shared schema descriptor: the fixed, ordered list of typed
//! columns that both the encode and the decode path consume, so that
//! column order is fixed in one place.

use vstd::prelude::*;

use crate::record::EMBEDDING_DIM;

verus! {

/// The column types the store's table uses.
#[derive(Clone, Copy, Debug, PartialEq, Eq, Structural)]
pub enum ColumnType {
    /// Variable-length string.
    Utf8,
    /// Fixed-size list of 32-bit floats, with the given width.
    FixedSizeListFloat32(usize),
    /// Timestamp in microseconds since the epoch.
    TimestampMicrosecond,
    /// 16-bit signed integer.
    Int16,
    /// Variable-length list of strings.
    ListUtf8,
}

/// One column of the table: its name, type, and nullability.
pub struct ColumnSpec {
    pub name: &'static str,
    pub column_type: ColumnType,
    pub nullable: bool,
}

/// Whether `s` is the embeddings table's schema: nine columns, in this
/// order, with only `content_preview` nullable.
pub open spec fn is_embeddings_schema(s: Seq<ColumnSpec>) -> bool {
    &&& s.len() == 9
    &&& s[0].name@ == "path"@ && s[0].column_type == ColumnType::Utf8 && !s[0].nullable
    &&& s[1].name@ == "hash"@ && s[1].column_type == ColumnType::Utf8 && !s[1].nullable
    &&& s[2].name@ == "embedding"@
        && s[2].column_type == ColumnType::FixedSizeListFloat32(EMBEDDING_DIM) && !s[2].nullable
    &&& s[3].name@ == "language"@ && s[3].column_type == ColumnType::Utf8 && !s[3].nullable
    &&& s[4].name@ == "last_modified"@ && s[4].column_type == ColumnType::TimestampMicrosecond
        && !s[4].nullable
    &&& s[5].name@ == "last_accessed"@ && s[5].column_type == ColumnType::TimestampMicrosecond
        && !s[5].nullable
    &&& s[6].name@ == "line_count"@ && s[6].column_type == ColumnType::Int16 && !s[6].nullable
    &&& s[7].name@ == "imported_by"@ && s[7].column_type == ColumnType::ListUtf8 && !s[7].nullable
    &&& s[8].name@ == "content_preview"@ && s[8].column_type == ColumnType::Utf8
        && s[8].nullable
}

/// The embeddings table's schema, one column per entry, in storage
/// order.
pub fn embeddings_schema() -> (r: Vec<ColumnSpec>)
    ensures
        is_embeddings_schema(r@),
{
    let mut v: Vec<ColumnSpec> = Vec::new();
    v.push(ColumnSpec { name: "path", column_type: ColumnType::Utf8, nullable: false });
    v.push(ColumnSpec { name: "hash", column_type: ColumnType::Utf8, nullable: false });
    v.push(
        ColumnSpec {
            name: "embedding",
            column_type: ColumnType::FixedSizeListFloat32(EMBEDDING_DIM),
            nullable: false,
        },
    );
    v.push(ColumnSpec { name: "language", column_type: ColumnType::Utf8, nullable: false });
    v.push(
        ColumnSpec {
            name: "last_modified",
            column_type: ColumnType::TimestampMicrosecond,
            nullable: false,
        },
    );
    v.push(
        ColumnSpec {
            name: "last_accessed",
            column_type: ColumnType::TimestampMicrosecond,
            nullable: false,
        },
    );
    v.push(ColumnSpec { name: "line_count", column_type: ColumnType::Int16, nullable: false });
    v.push(ColumnSpec { name: "imported_by", column_type: ColumnType::ListUtf8, nullable: false });
    v.push(
        ColumnSpec { name: "content_preview", column_type: ColumnType::Utf8, nullable: true },
    );
    v
}

} // verus!
