//! Trusted surface over the columnar batch library (`arrow_array`).
//!
//! The storage engine consumes and produces Arrow record batches. Verus
//! cannot look inside those, so this module declares the column and
//! batch types, gives each column's contents a name, and wraps the few
//! constructor and accessor calls the mapper makes. Every contract here
//! states only what the columnar library's own source shows; everything
//! built on top of it is verified in [`crate::mapper`].
//!
//! A column's contents are modelled logically: a string column is its
//! per-row values (a null row reads as the empty string) plus its null
//! flags; a fixed-size list column of floats is the concatenation of its
//! rows' values, as IEEE-754 bit patterns, plus the row width; a list
//! column of strings is the concatenation of its rows' values plus the
//! cumulative row boundaries, starting at zero.

use std::sync::Arc;

use arrow_array::Array;
use arrow_array::FixedSizeListArray;
use arrow_array::Float32Array;
use arrow_array::Int16Array;
use arrow_array::ListArray;
use arrow_array::RecordBatch;
use arrow_array::StringArray;
use arrow_array::TimestampMicrosecondArray;
use arrow_buffer::{Buffer, OffsetBuffer, ScalarBuffer};
use arrow_schema::{DataType, Field};

use vstd::prelude::*;

use crate::schema::{is_embeddings_schema, ColumnSpec};

verus! {

// The columnar library's array types carry generic bounds on its own
// traits, which Verus refuses to take in a type declaration, and the
// batch type brings in impls it refuses; each is therefore held
// opaquely in a single-field struct of its own.

/// A string column.
#[verifier::external_body]
pub struct StrColumn {
    inner: StringArray,
}

/// A 16-bit integer column.
#[verifier::external_body]
pub struct I16Column {
    inner: Int16Array,
}

/// A microsecond-timestamp column.
#[verifier::external_body]
pub struct TsColumn {
    inner: TimestampMicrosecondArray,
}

/// A fixed-size list column of 32-bit floats.
#[verifier::external_body]
pub struct EmbeddingColumn {
    inner: FixedSizeListArray,
}

/// A variable-length list column of strings.
#[verifier::external_body]
pub struct StrListColumn {
    inner: ListArray,
}

/// The engine's columnar batch; unverified code reaches the engine's
/// own type through `inner`.
#[derive(Debug)]
#[verifier::external_body]
pub struct EngineBatch {
    pub inner: RecordBatch,
}

// ---- Contents of one column, by column kind ----

/// The per-row string values of a string column: what reading each
/// row yields, null or not. The columns built here store the empty
/// string at a null row.
pub uninterp spec fn str_values(a: StrColumn) -> Seq<Seq<char>>;

/// The per-row null flags of a string column.
pub uninterp spec fn str_nulls(a: StrColumn) -> Seq<bool>;

/// The per-row values of a 16-bit integer column.
pub uninterp spec fn i16_values(a: I16Column) -> Seq<i16>;

/// How many rows of a 16-bit integer column are null.
pub uninterp spec fn i16_null_count(a: I16Column) -> int;

/// The per-row values of a microsecond-timestamp column.
pub uninterp spec fn ts_values(a: TsColumn) -> Seq<i64>;

/// How many rows of a microsecond-timestamp column are null.
pub uninterp spec fn ts_null_count(a: TsColumn) -> int;

/// The rows of a fixed-size list column, concatenated: the IEEE-754 bit
/// patterns of the 32-bit float values, row after row.
pub uninterp spec fn fsl_flat_bits(a: EmbeddingColumn) -> Seq<u32>;

/// The fixed per-row width of a fixed-size list column.
pub uninterp spec fn fsl_width(a: EmbeddingColumn) -> int;

/// How many rows of a fixed-size list column are null.
pub uninterp spec fn fsl_null_count(a: EmbeddingColumn) -> int;

/// Whether a fixed-size list column's items are 32-bit floats.
pub uninterp spec fn fsl_is_f32(a: EmbeddingColumn) -> bool;

/// The rows of a list column of strings, concatenated.
pub uninterp spec fn list_values(a: StrListColumn) -> Seq<Seq<char>>;

/// The cumulative row boundaries of a list column: entry `i` is where
/// row `i` starts in [`list_values`], and the last entry is the total.
pub uninterp spec fn list_offsets(a: StrListColumn) -> Seq<int>;

/// How many rows of a list column are null.
pub uninterp spec fn list_null_count(a: StrListColumn) -> int;

/// Whether a list column's items are strings.
pub uninterp spec fn list_is_utf8(a: StrListColumn) -> bool;

// ---- Contents of a record batch, by column position ----

/// How many rows the batch holds; every column has this length.
pub uninterp spec fn batch_row_count(b: EngineBatch) -> int;

/// The string values of column `col`, when that column is a string
/// column; `None` when it is missing or of another type.
pub uninterp spec fn batch_str_values(b: EngineBatch, col: int) -> Option<Seq<Seq<char>>>;

/// The null flags of string column `col`.
pub uninterp spec fn batch_str_nulls(b: EngineBatch, col: int) -> Option<Seq<bool>>;

/// The concatenated rows of fixed-size-list-of-float column `col`, as
/// bit patterns.
pub uninterp spec fn batch_embedding_flat(b: EngineBatch, col: int) -> Option<Seq<u32>>;

/// The per-row width of fixed-size-list-of-float column `col`.
pub uninterp spec fn batch_embedding_width(b: EngineBatch, col: int) -> Option<int>;

/// The values of microsecond-timestamp column `col`.
pub uninterp spec fn batch_ts(b: EngineBatch, col: int) -> Option<Seq<i64>>;

/// The values of 16-bit integer column `col`.
pub uninterp spec fn batch_i16(b: EngineBatch, col: int) -> Option<Seq<i16>>;

/// The concatenated rows of list-of-string column `col`.
pub uninterp spec fn batch_list_values(b: EngineBatch, col: int) -> Option<Seq<Seq<char>>>;

/// The cumulative row boundaries of list-of-string column `col`.
pub uninterp spec fn batch_list_offsets(b: EngineBatch, col: int) -> Option<Seq<int>>;

// ---- Byte budgets of string columns ----

/// The total UTF-8 byte length of the strings of `ss`. The columnar
/// library tracks string positions with 32-bit offsets, so one column
/// must stay within that range.
pub open spec fn total_utf8_bytes(ss: Seq<Seq<char>>) -> int
    decreases ss.len(),
{
    if ss.len() == 0 {
        0
    } else {
        vstd::utf8::encode_utf8(ss[0]).len() + total_utf8_bytes(ss.drop_first())
    }
}

/// As [`total_utf8_bytes`], over optional strings; an absent string
/// takes no bytes.
pub open spec fn total_utf8_bytes_opt(ss: Seq<Option<Seq<char>>>) -> int
    decreases ss.len(),
{
    if ss.len() == 0 {
        0
    } else {
        (match ss[0] {
            Some(s) => vstd::utf8::encode_utf8(s).len() as int,
            None => 0,
        }) + total_utf8_bytes_opt(ss.drop_first())
    }
}

// ---- Column builders ----

/// Relies on `StringArray::from(Vec<String>)`: a string column holding
/// exactly the given values, in order, with no nulls.
#[verifier::external_body]
pub(crate) fn new_str_array(v: Vec<String>) -> (r: StrColumn)
    requires
        total_utf8_bytes(v.deep_view()) <= i32::MAX,
    ensures
        str_values(r) == v.deep_view(),
        str_nulls(r) == Seq::new(v.deep_view().len(), |i: int| false),
{
    StrColumn { inner: StringArray::from(v) }
}

/// Relies on `StringArray::from(Vec<Option<String>>)`: a string column
/// whose rows are null exactly where the input is `None`; a null row
/// reads as the empty string.
#[verifier::external_body]
pub(crate) fn new_str_array_opt(v: Vec<Option<String>>) -> (r: StrColumn)
    requires
        total_utf8_bytes_opt(v.deep_view()) <= i32::MAX,
    ensures
        str_values(r).len() == v.deep_view().len(),
        str_nulls(r).len() == v.deep_view().len(),
        forall|i: int|
            0 <= i < v.deep_view().len() ==> str_values(r)[i] == (match v.deep_view()[i] {
                Some(s) => s,
                None => Seq::<char>::empty(),
            }),
        forall|i: int|
            0 <= i < v.deep_view().len() ==> str_nulls(r)[i] == (v.deep_view()[i] is None),
{
    StrColumn { inner: StringArray::from(v) }
}

/// Relies on `Int16Array::from(Vec<i16>)`: a column holding exactly the
/// given values, with no nulls.
#[verifier::external_body]
pub(crate) fn new_i16_array(v: Vec<i16>) -> (r: I16Column)
    ensures
        i16_values(r) == v@,
        i16_null_count(r) == 0,
{
    I16Column { inner: Int16Array::from(v) }
}

/// Relies on `TimestampMicrosecondArray::from(Vec<i64>)`: a column
/// holding exactly the given values, with no nulls.
#[verifier::external_body]
pub(crate) fn new_ts_array(v: Vec<i64>) -> (r: TsColumn)
    ensures
        ts_values(r) == v@,
        ts_null_count(r) == 0,
{
    TsColumn { inner: TimestampMicrosecondArray::from(v) }
}

/// Relies on `FixedSizeListArray::new` over a 32-bit float array built
/// from the given bit patterns: a fixed-size list column whose
/// concatenated rows are exactly `bits`, `width` values to a row, with
/// no null rows. `FixedSizeListArray::new` panics when the values'
/// length is not a multiple of the width, so that input stays out.
#[verifier::external_body]
pub(crate) fn new_embedding_column(bits: Vec<u32>, width: i32) -> (r: EmbeddingColumn)
    requires
        width > 0,
        (bits@.len() as int) % (width as int) == 0,
    ensures
        fsl_flat_bits(r) == bits@,
        fsl_width(r) == width as int,
        fsl_null_count(r) == 0,
        fsl_is_f32(r),
{
    let len = bits.len();
    let values: ScalarBuffer<<arrow_array::types::Float32Type as arrow_array::types::ArrowPrimitiveType>::Native> =
        ScalarBuffer::new(Buffer::from_vec(bits), 0, len);
    let floats = Float32Array::new(values, None);
    let field = Arc::new(Field::new("item", DataType::Float32, true));
    EmbeddingColumn { inner: FixedSizeListArray::new(field, width, Arc::new(floats), None) }
}

/// Relies on `ListArray::new` over `OffsetBuffer::new` and a string
/// array: a list column of strings whose concatenated rows are exactly
/// `values` and whose row boundaries are exactly `offsets`, with no null
/// rows. The constructors panic on offsets that do not start at zero,
/// decrease, or run past the values, so those inputs stay out.
#[verifier::external_body]
pub(crate) fn new_imported_by_column(offsets: Vec<i32>, values: Vec<String>) -> (r: StrListColumn)
    requires
        total_utf8_bytes(values.deep_view()) <= i32::MAX,
        offsets@.len() >= 1,
        offsets@[0] == 0,
        forall|i: int| 0 <= i < offsets@.len() - 1 ==> #[trigger] offsets@[i] <= offsets@[i + 1],
        offsets@[offsets@.len() - 1] == values.deep_view().len(),
    ensures
        list_values(r) == values.deep_view(),
        list_offsets(r) == offsets@.map_values(|x: i32| x as int),
        list_null_count(r) == 0,
        list_is_utf8(r),
{
    let strings = StringArray::from(values);
    let boundaries = OffsetBuffer::new(ScalarBuffer::from(offsets));
    let field = Arc::new(Field::new("item", DataType::Utf8, false));
    StrListColumn { inner: ListArray::new(field, boundaries, Arc::new(strings), None) }
}

/// Relies on `RecordBatch::try_from_iter_with_nullable`: a batch whose
/// nine columns are the given arrays, in schema order, under the
/// descriptor's names and nullability. The batch library refuses only
/// columns of unequal lengths and nulls in a non-nullable column, and
/// both are left out here, so construction succeeds.
#[verifier::external_body]
pub(crate) fn make_batch(
    specs: &Vec<ColumnSpec>,
    paths: StrColumn,
    hashes: StrColumn,
    embeddings: EmbeddingColumn,
    languages: StrColumn,
    last_modified: TsColumn,
    last_accessed: TsColumn,
    line_counts: I16Column,
    imported_by: StrListColumn,
    previews: StrColumn,
) -> (r: EngineBatch)
    requires
        is_embeddings_schema(specs@),
        str_values(hashes).len() == str_values(paths).len(),
        str_values(languages).len() == str_values(paths).len(),
        str_values(previews).len() == str_values(paths).len(),
        ts_values(last_modified).len() == str_values(paths).len(),
        ts_values(last_accessed).len() == str_values(paths).len(),
        i16_values(line_counts).len() == str_values(paths).len(),
        fsl_is_f32(embeddings),
        fsl_width(embeddings) > 0,
        fsl_flat_bits(embeddings).len() == str_values(paths).len() * fsl_width(embeddings),
        list_is_utf8(imported_by),
        list_offsets(imported_by).len() == str_values(paths).len() + 1,
        forall|i: int| 0 <= i < str_values(paths).len() ==> !str_nulls(paths)[i],
        forall|i: int| 0 <= i < str_values(paths).len() ==> !str_nulls(hashes)[i],
        forall|i: int| 0 <= i < str_values(paths).len() ==> !str_nulls(languages)[i],
        ts_null_count(last_modified) == 0,
        ts_null_count(last_accessed) == 0,
        i16_null_count(line_counts) == 0,
        fsl_null_count(embeddings) == 0,
        list_null_count(imported_by) == 0,
    ensures
        batch_row_count(r) == str_values(paths).len(),
        batch_str_values(r, 0) == Some(str_values(paths)),
        batch_str_nulls(r, 0) == Some(str_nulls(paths)),
        batch_str_values(r, 1) == Some(str_values(hashes)),
        batch_str_nulls(r, 1) == Some(str_nulls(hashes)),
        batch_embedding_flat(r, 2) == Some(fsl_flat_bits(embeddings)),
        batch_embedding_width(r, 2) == Some(fsl_width(embeddings)),
        batch_str_values(r, 3) == Some(str_values(languages)),
        batch_str_nulls(r, 3) == Some(str_nulls(languages)),
        batch_ts(r, 4) == Some(ts_values(last_modified)),
        batch_ts(r, 5) == Some(ts_values(last_accessed)),
        batch_i16(r, 6) == Some(i16_values(line_counts)),
        batch_list_values(r, 7) == Some(list_values(imported_by)),
        batch_list_offsets(r, 7) == Some(list_offsets(imported_by)),
        batch_str_values(r, 8) == Some(str_values(previews)),
        batch_str_nulls(r, 8) == Some(str_nulls(previews)),
{
    let arrays: Vec<arrow_array::ArrayRef> = vec![
        Arc::new(paths.inner), Arc::new(hashes.inner), Arc::new(embeddings.inner),
        Arc::new(languages.inner), Arc::new(last_modified.inner), Arc::new(last_accessed.inner),
        Arc::new(line_counts.inner), Arc::new(imported_by.inner), Arc::new(previews.inner),
    ];
    let cols = specs.iter().zip(arrays).map(|(s, a)| (s.name, a, s.nullable));
    EngineBatch {
        inner: RecordBatch::try_from_iter_with_nullable(cols).expect("columns agree in length"),
    }
}

// ---- Batch readers ----

/// Relies on `RecordBatch::num_rows`.
#[verifier::external_body]
pub(crate) fn batch_rows(b: &EngineBatch) -> (r: usize)
    ensures
        r as int == batch_row_count(*b),
{
    b.inner.num_rows()
}

/// Relies on `RecordBatch::columns` and the string column's `value` and
/// `is_null`: the cell of string column `col` at `row`, as its value
/// and null flag; `None` when that column is missing or not a string
/// column.
#[verifier::external_body]
pub(crate) fn read_str_cell(b: &EngineBatch, col: usize, row: usize) -> (r: Option<
    (String, bool),
>)
    requires
        (row as int) < batch_row_count(*b),
    ensures
        r is Some <==> batch_str_values(*b, col as int) is Some,
        r is Some ==> {
            &&& batch_str_nulls(*b, col as int) is Some
            &&& batch_str_values(*b, col as int)->0.len() == batch_row_count(*b)
            &&& batch_str_nulls(*b, col as int)->0.len() == batch_row_count(*b)
        },
        r matches Some(cell) ==> {
            &&& cell.0@ == batch_str_values(*b, col as int)->0[row as int]
            &&& cell.1 == batch_str_nulls(*b, col as int)->0[row as int]
        },
{
    let a = b.inner.columns().get(col)?.as_any().downcast_ref::<StringArray>()?;
    Some((a.value(row).to_string(), a.is_null(row)))
}

/// Relies on `RecordBatch::columns` and the timestamp column's `value`:
/// the value of microsecond-timestamp column `col` at `row`.
#[verifier::external_body]
pub(crate) fn read_ts_cell(b: &EngineBatch, col: usize, row: usize) -> (r: Option<i64>)
    requires
        (row as int) < batch_row_count(*b),
    ensures
        r is Some <==> batch_ts(*b, col as int) is Some,
        r is Some ==> batch_ts(*b, col as int)->0.len() == batch_row_count(*b),
        r matches Some(v) ==> v == batch_ts(*b, col as int)->0[row as int],
{
    let a = b.inner.columns().get(col)?.as_any().downcast_ref::<TimestampMicrosecondArray>()?;
    Some(a.value(row))
}

/// Relies on `RecordBatch::columns` and the integer column's `value`:
/// the value of 16-bit integer column `col` at `row`.
#[verifier::external_body]
pub(crate) fn read_i16_cell(b: &EngineBatch, col: usize, row: usize) -> (r: Option<i16>)
    requires
        (row as int) < batch_row_count(*b),
    ensures
        r is Some <==> batch_i16(*b, col as int) is Some,
        r is Some ==> batch_i16(*b, col as int)->0.len() == batch_row_count(*b),
        r matches Some(v) ==> v == batch_i16(*b, col as int)->0[row as int],
{
    let a = b.inner.columns().get(col)?.as_any().downcast_ref::<Int16Array>()?;
    Some(a.value(row))
}

/// Relies on `RecordBatch::columns` and `FixedSizeListArray::value`:
/// row `row` of fixed-size-list-of-float column `col`, as bit patterns.
/// Each row is one width-sized slice of the column's concatenated
/// values.
#[verifier::external_body]
pub(crate) fn read_embedding_row(b: &EngineBatch, col: usize, row: usize) -> (r: Option<Vec<u32>>)
    requires
        (row as int) < batch_row_count(*b),
    ensures
        r is Some <==> batch_embedding_flat(*b, col as int) is Some,
        r is Some ==> {
            &&& batch_embedding_width(*b, col as int) is Some
            &&& batch_embedding_width(*b, col as int)->0 >= 0
            &&& batch_embedding_flat(*b, col as int)->0.len() == batch_row_count(*b)
                * batch_embedding_width(*b, col as int)->0
        },
        r matches Some(v) ==> v@ == batch_embedding_flat(*b, col as int)->0.subrange(
            (row as int) * batch_embedding_width(*b, col as int)->0,
            ((row as int) + 1) * batch_embedding_width(*b, col as int)->0,
        ),
{
    let column = b.inner.columns().get(col)?;
    let lists = column.as_any().downcast_ref::<FixedSizeListArray>()?;
    let row_values = lists.value(row);
    let floats = row_values.as_any().downcast_ref::<Float32Array>()?;
    Some(floats.values().iter().map(|x| x.to_bits()).collect())
}

/// Relies on `RecordBatch::columns` and `ListArray::value`: row `row`
/// of list-of-string column `col`. Each row is the slice of the
/// column's concatenated values between its cumulative boundaries.
#[verifier::external_body]
pub(crate) fn read_imported_by_row(b: &EngineBatch, col: usize, row: usize) -> (r: Option<
    Vec<String>,
>)
    requires
        (row as int) < batch_row_count(*b),
    ensures
        r is Some <==> batch_list_values(*b, col as int) is Some,
        r is Some ==> {
            &&& batch_list_offsets(*b, col as int) is Some
            &&& batch_list_offsets(*b, col as int)->0.len() == batch_row_count(*b) + 1
            &&& batch_list_offsets(*b, col as int)->0[0] == 0
            &&& (forall|i: int|
                0 <= i < batch_list_offsets(*b, col as int)->0.len() - 1
                    ==> #[trigger] batch_list_offsets(*b, col as int)->0[i]
                    <= batch_list_offsets(*b, col as int)->0[i + 1])
            &&& batch_list_offsets(*b, col as int)->0[batch_list_offsets(
                *b,
                col as int,
            )->0.len() - 1] == batch_list_values(*b, col as int)->0.len()
        },
        r matches Some(v) ==> v.deep_view() == batch_list_values(*b, col as int)->0.subrange(
            batch_list_offsets(*b, col as int)->0[row as int],
            batch_list_offsets(*b, col as int)->0[(row as int) + 1],
        ),
{
    let column = b.inner.columns().get(col)?;
    let lists = column.as_any().downcast_ref::<ListArray>()?;
    let row_values = lists.value(row);
    let strings = row_values.as_any().downcast_ref::<StringArray>()?;
    Some((0..strings.len()).map(|i| strings.value(i).to_string()).collect())
}

} // verus!
