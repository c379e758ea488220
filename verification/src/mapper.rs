//! The columnar record mapper: lossless, two-way conversion between a
//! sequence of [`EmbeddingRecord`]s and one columnar batch.
//!
//! Encoding validates every record's embedding length before building
//! any column, so an invalid record fails the whole batch and nothing
//! partial exists. Decoding reads each column positionally and checks
//! its runtime type, so schema drift surfaces as a typed error instead
//! of a wrong value.

use vstd::prelude::*;

use crate::columnar::{
    batch_embedding_flat, batch_embedding_width, batch_i16, batch_list_offsets,
    batch_list_values, batch_row_count, batch_rows, batch_str_nulls, batch_str_values, batch_ts,
    make_batch, new_embedding_column, new_i16_array, new_imported_by_column, new_str_array,
    new_str_array_opt, new_ts_array, read_embedding_row, read_i16_cell, read_imported_by_row,
    read_str_cell, read_ts_cell, total_utf8_bytes, total_utf8_bytes_opt, EngineBatch,
};
use crate::error::StoreError;
use crate::record::{EmbeddingRecord, RecordModel, EMBEDDING_DIM};
use crate::schema::{embeddings_schema, is_embeddings_schema, ColumnSpec, ColumnType};

verus! {

// ---- The encoding, as mathematics ----

/// The models of a sequence of records.
pub open spec fn views_of(rs: Seq<EmbeddingRecord>) -> Seq<RecordModel> {
    rs.map_values(|r: EmbeddingRecord| r@)
}

/// The views of a sequence of strings.
pub open spec fn str_views(s: Seq<String>) -> Seq<Seq<char>> {
    s.map_values(|t: String| t@)
}

/// The views of a sequence of optional strings.
pub open spec fn opt_str_views(s: Seq<Option<String>>) -> Seq<Option<Seq<char>>> {
    s.map_values(
        |o: Option<String>|
            match o {
                Some(t) => Some(t@),
                None => None,
            },
    )
}

/// A vector of strings views deeply to its strings' views.
pub(crate) proof fn lemma_string_deep_view(v: Vec<String>)
    ensures
        v.deep_view() == str_views(v@),
{
    assert(v.deep_view() =~= str_views(v@));
}

/// A vector of optional strings views deeply to its entries' views.
proof fn lemma_opt_string_deep_view(v: Vec<Option<String>>)
    ensures
        v.deep_view() == opt_str_views(v@),
{
    assert(v.deep_view() =~= opt_str_views(v@));
}

/// One more string appends its view.
pub(crate) proof fn lemma_str_views_push(s: Seq<String>, x: String)
    ensures
        str_views(s.push(x)) == str_views(s).push(x@),
{
    assert(str_views(s.push(x)) =~= str_views(s).push(x@));
}

/// One more optional string appends its view.
proof fn lemma_opt_views_push(s: Seq<Option<String>>, x: Option<String>)
    ensures
        opt_str_views(s.push(x)) == opt_str_views(s).push(
            match x {
                Some(t) => Some(t@),
                None => None,
            },
        ),
{
    assert(opt_str_views(s.push(x)) =~= opt_str_views(s).push(
        match x {
            Some(t) => Some(t@),
            None => None,
        },
    ));
}

/// The `path` column: one value per record, in order.
pub open spec fn col_paths(vs: Seq<RecordModel>) -> Seq<Seq<char>> {
    vs.map_values(|v: RecordModel| v.path)
}

/// The `hash` column.
pub open spec fn col_hashes(vs: Seq<RecordModel>) -> Seq<Seq<char>> {
    vs.map_values(|v: RecordModel| v.hash)
}

/// The `language` column.
pub open spec fn col_languages(vs: Seq<RecordModel>) -> Seq<Seq<char>> {
    vs.map_values(|v: RecordModel| v.language)
}

/// The `last_modified` column.
pub open spec fn col_last_modified(vs: Seq<RecordModel>) -> Seq<i64> {
    vs.map_values(|v: RecordModel| v.last_modified)
}

/// The `last_accessed` column.
pub open spec fn col_last_accessed(vs: Seq<RecordModel>) -> Seq<i64> {
    vs.map_values(|v: RecordModel| v.last_accessed)
}

/// The `line_count` column.
pub open spec fn col_line_counts(vs: Seq<RecordModel>) -> Seq<i16> {
    vs.map_values(|v: RecordModel| v.line_count)
}

/// The values of the `content_preview` column; an absent preview reads
/// as the empty string under a set null flag.
pub open spec fn col_preview_values(vs: Seq<RecordModel>) -> Seq<Seq<char>> {
    vs.map_values(
        |v: RecordModel|
            match v.content_preview {
                Some(s) => s,
                None => Seq::<char>::empty(),
            },
    )
}

/// The null flags of the `content_preview` column.
pub open spec fn col_preview_nulls(vs: Seq<RecordModel>) -> Seq<bool> {
    vs.map_values(|v: RecordModel| v.content_preview is None)
}

/// The `content_preview` column as the records hold it: one optional
/// string per record.
pub open spec fn col_preview_opts(vs: Seq<RecordModel>) -> Seq<Option<Seq<char>>> {
    vs.map_values(|v: RecordModel| v.content_preview)
}

/// All records' embeddings, concatenated flat, record after record.
pub open spec fn flat_embeddings(vs: Seq<RecordModel>) -> Seq<u32>
    decreases vs.len(),
{
    if vs.len() == 0 {
        Seq::empty()
    } else {
        flat_embeddings(vs.drop_last()) + vs.last().embedding
    }
}

/// All records' `imported_by` values, concatenated, record after
/// record.
pub open spec fn flat_imports(vs: Seq<RecordModel>) -> Seq<Seq<char>>
    decreases vs.len(),
{
    if vs.len() == 0 {
        Seq::empty()
    } else {
        flat_imports(vs.drop_last()) + vs.last().imported_by
    }
}

/// How many `imported_by` values the records hold in all.
pub open spec fn total_imports(vs: Seq<RecordModel>) -> int
    decreases vs.len(),
{
    if vs.len() == 0 {
        0
    } else {
        total_imports(vs.drop_last()) + vs.last().imported_by.len()
    }
}

/// The cumulative row boundaries of the `imported_by` column: entry
/// `i` is how many values the first `i` records hold.
pub open spec fn import_offsets(vs: Seq<RecordModel>) -> Seq<int> {
    Seq::new(vs.len() + 1, |i: int| total_imports(vs.take(i)))
}

/// The null flags of a column with no nulls.
pub open spec fn no_nulls(n: nat) -> Seq<bool> {
    Seq::new(n, |i: int| false)
}

/// What it means for batch `b` to be the encoding of the records `vs`:
/// nine columns in schema order, each holding exactly the records'
/// values, with nulls only where a `content_preview` is absent.
pub open spec fn encoded_batch(vs: Seq<RecordModel>, b: EngineBatch) -> bool {
    &&& batch_row_count(b) == vs.len()
    &&& batch_str_values(b, 0) == Some(col_paths(vs))
    &&& batch_str_nulls(b, 0) == Some(no_nulls(vs.len()))
    &&& batch_str_values(b, 1) == Some(col_hashes(vs))
    &&& batch_str_nulls(b, 1) == Some(no_nulls(vs.len()))
    &&& batch_embedding_flat(b, 2) == Some(flat_embeddings(vs))
    &&& batch_embedding_width(b, 2) == Some(EMBEDDING_DIM as int)
    &&& batch_str_values(b, 3) == Some(col_languages(vs))
    &&& batch_str_nulls(b, 3) == Some(no_nulls(vs.len()))
    &&& batch_ts(b, 4) == Some(col_last_modified(vs))
    &&& batch_ts(b, 5) == Some(col_last_accessed(vs))
    &&& batch_i16(b, 6) == Some(col_line_counts(vs))
    &&& batch_list_values(b, 7) == Some(flat_imports(vs))
    &&& batch_list_offsets(b, 7) == Some(import_offsets(vs))
    &&& batch_str_values(b, 8) == Some(col_preview_values(vs))
    &&& batch_str_nulls(b, 8) == Some(col_preview_nulls(vs))
}

/// One more record appends its `path` to the column.
proof fn lemma_col_paths_push(vs: Seq<RecordModel>, v: RecordModel)
    ensures
        col_paths(vs.push(v)) == col_paths(vs).push(v.path),
{
    assert(col_paths(vs.push(v)) =~= col_paths(vs).push(v.path));
}

/// One more record appends its `hash` to the column.
proof fn lemma_col_hashes_push(vs: Seq<RecordModel>, v: RecordModel)
    ensures
        col_hashes(vs.push(v)) == col_hashes(vs).push(v.hash),
{
    assert(col_hashes(vs.push(v)) =~= col_hashes(vs).push(v.hash));
}

/// One more record appends its `language` to the column.
proof fn lemma_col_languages_push(vs: Seq<RecordModel>, v: RecordModel)
    ensures
        col_languages(vs.push(v)) == col_languages(vs).push(v.language),
{
    assert(col_languages(vs.push(v)) =~= col_languages(vs).push(v.language));
}

/// One more record appends its `content_preview` to the column.
proof fn lemma_col_preview_opts_push(vs: Seq<RecordModel>, v: RecordModel)
    ensures
        col_preview_opts(vs.push(v)) == col_preview_opts(vs).push(v.content_preview),
{
    assert(col_preview_opts(vs.push(v)) =~= col_preview_opts(vs).push(v.content_preview));
}

// ---- Validation ----

/// The least index of a record whose embedding misses the fixed
/// dimension; meaningful when one exists.
pub open spec fn first_invalid(vs: Seq<RecordModel>) -> int
    decreases vs.len(),
{
    if vs.len() == 0 {
        0
    } else if !vs.first().valid_dim() {
        0
    } else {
        1 + first_invalid(vs.drop_first())
    }
}

/// With everything before `i` valid and `i` itself invalid, the
/// least violation sits exactly at `i`.
proof fn lemma_first_invalid_at(vs: Seq<RecordModel>, i: int)
    requires
        0 <= i < vs.len(),
        !vs[i].valid_dim(),
        forall|j: int| 0 <= j < i ==> #[trigger] vs[j].valid_dim(),
    ensures
        first_invalid(vs) == i,
    decreases i,
{
    if i == 0 {
        assert(vs.first() == vs[0]);
    } else {
        assert(vs[0].valid_dim());
        assert(vs.first() == vs[0]);
        assert(vs.drop_first()[i - 1] == vs[i]);
        assert(forall|j: int|
            0 <= j < i - 1 ==> #[trigger] vs.drop_first()[j].valid_dim()) by {
            assert(forall|j: int|
                0 <= j < i - 1 ==> vs.drop_first()[j] == #[trigger] vs[j + 1]);
        }
        lemma_first_invalid_at(vs.drop_first(), i - 1);
    }
}

/// Checks every record's embedding length against the fixed dimension,
/// in order; the first violation fails the whole batch.
pub fn validate_embeddings(records: &Vec<EmbeddingRecord>) -> (r: Result<(), StoreError>)
    ensures
        r is Ok <==> (forall|i: int|
            0 <= i < records@.len() ==> #[trigger] views_of(records@)[i].valid_dim()),
        r matches Err(e) ==> ({
            let vs = views_of(records@);
            let k = first_invalid(vs);
            &&& 0 <= k < vs.len()
            &&& !vs[k].valid_dim()
            &&& e == (StoreError::DimensionMismatch {
                expected: EMBEDDING_DIM,
                got: vs[k].embedding.len() as usize,
            })
        }),
{
    let mut i: usize = 0;
    while i < records.len()
        invariant
            i <= records@.len(),
            forall|j: int| 0 <= j < i ==> #[trigger] views_of(records@)[j].valid_dim(),
        decreases records@.len() - i,
    {
        let rec = &records[i];
        if rec.embedding.len() != EMBEDDING_DIM {
            proof {
                assert(!views_of(records@)[i as int].valid_dim());
                lemma_first_invalid_at(views_of(records@), i as int);
            }
            return Err(
                StoreError::DimensionMismatch {
                    expected: EMBEDDING_DIM,
                    got: rec.embedding.len(),
                },
            );
        }
        assert(views_of(records@)[i as int].valid_dim());
        i = i + 1;
    }
    Ok(())
}

// ---- Field extraction ----

/// Copies every record's `path`, in order.
fn collect_paths(records: &Vec<EmbeddingRecord>) -> (r: Vec<String>)
    ensures
        r.deep_view() == col_paths(views_of(records@)),
{
    let ghost vs = views_of(records@);
    let mut r: Vec<String> = Vec::new();
    let mut i: usize = 0;
    proof {
        assert(str_views(r@) =~= col_paths(vs.take(0)));
    }
    while i < records.len()
        invariant
            i <= records@.len(),
            vs == views_of(records@),
            str_views(r@) == col_paths(vs.take(i as int)),
        decreases records@.len() - i,
    {
        let item = records[i].path.clone();
        let ghost pre = r@;
        r.push(item);
        proof {
            let x = r@.last();
            assert(r@ =~= pre.push(x));
            lemma_str_views_push(pre, x);
            lemma_take_one_more(vs, i as int);
            lemma_col_paths_push(vs.take(i as int), vs[i as int]);
            assert(x@ == vs[i as int].path);
            assert(str_views(r@) == col_paths(vs.take(i as int + 1)));
        }
        i = i + 1;
    }
    proof {
        assert(vs.take(vs.len() as int) =~= vs);
        lemma_string_deep_view(r);
    }
    r
}

/// Copies every record's `hash`, in order.
fn collect_hashes(records: &Vec<EmbeddingRecord>) -> (r: Vec<String>)
    ensures
        r.deep_view() == col_hashes(views_of(records@)),
{
    let ghost vs = views_of(records@);
    let mut r: Vec<String> = Vec::new();
    let mut i: usize = 0;
    proof {
        assert(str_views(r@) =~= col_hashes(vs.take(0)));
    }
    while i < records.len()
        invariant
            i <= records@.len(),
            vs == views_of(records@),
            str_views(r@) == col_hashes(vs.take(i as int)),
        decreases records@.len() - i,
    {
        let item = records[i].hash.clone();
        let ghost pre = r@;
        r.push(item);
        proof {
            let x = r@.last();
            assert(r@ =~= pre.push(x));
            lemma_str_views_push(pre, x);
            lemma_take_one_more(vs, i as int);
            lemma_col_hashes_push(vs.take(i as int), vs[i as int]);
            assert(x@ == vs[i as int].hash);
            assert(str_views(r@) == col_hashes(vs.take(i as int + 1)));
        }
        i = i + 1;
    }
    proof {
        assert(vs.take(vs.len() as int) =~= vs);
        lemma_string_deep_view(r);
    }
    r
}

/// Copies every record's `language`, in order.
fn collect_languages(records: &Vec<EmbeddingRecord>) -> (r: Vec<String>)
    ensures
        r.deep_view() == col_languages(views_of(records@)),
{
    let ghost vs = views_of(records@);
    let mut r: Vec<String> = Vec::new();
    let mut i: usize = 0;
    proof {
        assert(str_views(r@) =~= col_languages(vs.take(0)));
    }
    while i < records.len()
        invariant
            i <= records@.len(),
            vs == views_of(records@),
            str_views(r@) == col_languages(vs.take(i as int)),
        decreases records@.len() - i,
    {
        let item = records[i].language.clone();
        let ghost pre = r@;
        r.push(item);
        proof {
            let x = r@.last();
            assert(r@ =~= pre.push(x));
            lemma_str_views_push(pre, x);
            lemma_take_one_more(vs, i as int);
            lemma_col_languages_push(vs.take(i as int), vs[i as int]);
            assert(x@ == vs[i as int].language);
            assert(str_views(r@) == col_languages(vs.take(i as int + 1)));
        }
        i = i + 1;
    }
    proof {
        assert(vs.take(vs.len() as int) =~= vs);
        lemma_string_deep_view(r);
    }
    r
}

/// Copies every record's `last_modified`, in order.
fn collect_last_modified(records: &Vec<EmbeddingRecord>) -> (r: Vec<i64>)
    ensures
        r@ == col_last_modified(views_of(records@)),
{
    let mut r: Vec<i64> = Vec::new();
    let mut i: usize = 0;
    while i < records.len()
        invariant
            i <= records@.len(),
            r@ == col_last_modified(views_of(records@.take(i as int))),
        decreases records@.len() - i,
    {
        r.push(records[i].last_modified);
        proof {
            lemma_take_one_more(records@, i as int);
            assert(r@ =~= col_last_modified(views_of(records@.take(i as int + 1))));
        }
        i = i + 1;
    }
    proof {
        assert(records@.take(records@.len() as int) =~= records@);
    }
    r
}

/// Copies every record's `last_accessed`, in order.
fn collect_last_accessed(records: &Vec<EmbeddingRecord>) -> (r: Vec<i64>)
    ensures
        r@ == col_last_accessed(views_of(records@)),
{
    let mut r: Vec<i64> = Vec::new();
    let mut i: usize = 0;
    while i < records.len()
        invariant
            i <= records@.len(),
            r@ == col_last_accessed(views_of(records@.take(i as int))),
        decreases records@.len() - i,
    {
        r.push(records[i].last_accessed);
        proof {
            lemma_take_one_more(records@, i as int);
            assert(r@ =~= col_last_accessed(views_of(records@.take(i as int + 1))));
        }
        i = i + 1;
    }
    proof {
        assert(records@.take(records@.len() as int) =~= records@);
    }
    r
}

/// Copies every record's `line_count`, in order.
fn collect_line_counts(records: &Vec<EmbeddingRecord>) -> (r: Vec<i16>)
    ensures
        r@ == col_line_counts(views_of(records@)),
{
    let mut r: Vec<i16> = Vec::new();
    let mut i: usize = 0;
    while i < records.len()
        invariant
            i <= records@.len(),
            r@ == col_line_counts(views_of(records@.take(i as int))),
        decreases records@.len() - i,
    {
        r.push(records[i].line_count);
        proof {
            lemma_take_one_more(records@, i as int);
            assert(r@ =~= col_line_counts(views_of(records@.take(i as int + 1))));
        }
        i = i + 1;
    }
    proof {
        assert(records@.take(records@.len() as int) =~= records@);
    }
    r
}

/// Copies every record's `content_preview`, in order.
fn collect_previews(records: &Vec<EmbeddingRecord>) -> (r: Vec<Option<String>>)
    ensures
        r.deep_view() == col_preview_opts(views_of(records@)),
{
    let ghost vs = views_of(records@);
    let mut r: Vec<Option<String>> = Vec::new();
    let mut i: usize = 0;
    proof {
        assert(opt_str_views(r@) =~= col_preview_opts(vs.take(0)));
    }
    while i < records.len()
        invariant
            i <= records@.len(),
            vs == views_of(records@),
            opt_str_views(r@) == col_preview_opts(vs.take(i as int)),
        decreases records@.len() - i,
    {
        let item: Option<String> = match &records[i].content_preview {
            Some(t) => Some(t.clone()),
            None => None,
        };
        let ghost pre = r@;
        r.push(item);
        proof {
            let x = r@.last();
            assert(r@ =~= pre.push(x));
            lemma_opt_views_push(pre, x);
            lemma_take_one_more(vs, i as int);
            lemma_col_preview_opts_push(vs.take(i as int), vs[i as int]);
            assert((match x {
                Some(t) => Some(t@),
                None => None,
            }) == vs[i as int].content_preview);
            assert(opt_str_views(r@) == col_preview_opts(vs.take(i as int + 1)));
        }
        i = i + 1;
    }
    proof {
        assert(vs.take(vs.len() as int) =~= vs);
        lemma_opt_string_deep_view(r);
    }
    r
}

/// Concatenates every record's embedding into one flat sequence of bit
/// patterns.
pub fn extract_embeddings(records: &Vec<EmbeddingRecord>) -> (r: Vec<u32>)
    ensures
        r@ == flat_embeddings(views_of(records@)),
{
    let mut r: Vec<u32> = Vec::new();
    let mut i: usize = 0;
    while i < records.len()
        invariant
            i <= records@.len(),
            r@ == flat_embeddings(views_of(records@.take(i as int))),
        decreases records@.len() - i,
    {
        let emb = &records[i].embedding;
        let mut k: usize = 0;
        while k < emb.len()
            invariant
                k <= emb@.len(),
                emb@ == records@[i as int].embedding@,
                i < records@.len(),
                r@ == flat_embeddings(views_of(records@.take(i as int))) + emb@.take(k as int),
            decreases emb@.len() - k,
        {
            r.push(emb[k]);
            k = k + 1;
        }
        proof {
            assert(emb@.take(emb@.len() as int) =~= emb@);
            lemma_take_one_more(records@, i as int);
            lemma_flat_embeddings_push(
                views_of(records@.take(i as int)),
                views_of(records@)[i as int],
            );
            assert(views_of(records@.take(i as int)).push(views_of(records@)[i as int])
                =~= views_of(records@.take(i as int + 1)));
            assert(r@ =~= flat_embeddings(views_of(records@.take(i as int + 1))));
        }
        i = i + 1;
    }
    proof {
        assert(records@.take(records@.len() as int) =~= records@);
    }
    r
}

/// Concatenates every record's `imported_by` values and records the
/// cumulative boundary after each record.
pub fn extract_imported_by(records: &Vec<EmbeddingRecord>) -> (r: (Vec<String>, Vec<i32>))
    requires
        total_imports(views_of(records@)) <= i32::MAX,
    ensures
        r.0.deep_view() == flat_imports(views_of(records@)),
        r.1@.map_values(|x: i32| x as int) == import_offsets(views_of(records@)),
{
    let ghost vs = views_of(records@);
    let mut values: Vec<String> = Vec::new();
    let mut offsets: Vec<i32> = Vec::new();
    offsets.push(0i32);
    let mut i: usize = 0;
    proof {
        assert(str_views(values@) =~= flat_imports(vs.take(0)));
        assert(total_imports(vs.take(0)) == 0);
        assert(offsets@.map_values(|x: i32| x as int) =~= import_offsets(vs.take(0)));
    }
    while i < records.len()
        invariant
            i <= records@.len(),
            vs == views_of(records@),
            total_imports(vs) <= i32::MAX,
            str_views(values@) == flat_imports(vs.take(i as int)),
            values@.len() == total_imports(vs.take(i as int)),
            offsets@.map_values(|x: i32| x as int) == import_offsets(vs.take(i as int)),
        decreases records@.len() - i,
    {
        let imports = &records[i].imported_by;
        proof {
            lemma_string_deep_view(records@[i as int].imported_by);
            assert(vs[i as int].imported_by == str_views(imports@));
            lemma_total_imports_take_bound(vs, i as int);
        }
        let mut k: usize = 0;
        while k < imports.len()
            invariant
                k <= imports@.len(),
                imports@ == records@[i as int].imported_by@,
                i < records@.len(),
                vs == views_of(records@),
                str_views(values@) == flat_imports(vs.take(i as int)) + str_views(
                    imports@,
                ).take(k as int),
                values@.len() == total_imports(vs.take(i as int)) + k,
            decreases imports@.len() - k,
        {
            let item = imports[k].clone();
            let ghost pre = values@;
            values.push(item);
            proof {
                let x = values@.last();
                assert(values@ =~= pre.push(x));
                lemma_str_views_push(pre, x);
                lemma_take_one_more(str_views(imports@), k as int);
                assert(x@ == str_views(imports@)[k as int]);
                assert(str_views(values@) =~= flat_imports(vs.take(i as int)) + str_views(
                    imports@,
                ).take(k as int + 1));
            }
            k = k + 1;
        }
        proof {
            assert(str_views(imports@).take(imports@.len() as int) =~= str_views(imports@));
            lemma_take_one_more(vs, i as int);
            lemma_flat_imports_push(vs.take(i as int), vs[i as int]);
            lemma_total_imports_push(vs.take(i as int), vs[i as int]);
            assert(str_views(values@) == flat_imports(vs.take(i as int + 1)));
            assert(values@.len() == total_imports(vs.take(i as int + 1)));
            lemma_total_imports_take_bound(vs, i as int + 1);
            assert(values@.len() <= i32::MAX);
        }
        let boundary: i32 = values.len() as i32;
        offsets.push(boundary);
        proof {
            lemma_import_offsets_push(vs, i as int + 1);
            assert(offsets@.map_values(|x: i32| x as int) =~= import_offsets(
                vs.take(i as int + 1),
            ));
        }
        i = i + 1;
    }
    proof {
        assert(vs.take(vs.len() as int) =~= vs);
        lemma_string_deep_view(values);
    }
    (values, offsets)
}


/// With every record at the fixed dimension, the flat embedding data
/// holds exactly one width of values per record.
proof fn lemma_flat_embeddings_len(vs: Seq<RecordModel>)
    requires
        forall|i: int| 0 <= i < vs.len() ==> #[trigger] vs[i].valid_dim(),
    ensures
        flat_embeddings(vs).len() == vs.len() * (EMBEDDING_DIM as int),
    decreases vs.len(),
{
    if vs.len() > 0 {
        assert(forall|i: int|
            0 <= i < vs.drop_last().len() ==> #[trigger] vs.drop_last()[i].valid_dim());
        lemma_flat_embeddings_len(vs.drop_last());
        assert(vs.last().valid_dim());
        assert(flat_embeddings(vs).len() == (vs.len() - 1) * (EMBEDDING_DIM as int)
            + EMBEDDING_DIM) by (nonlinear_arith)
            requires
                flat_embeddings(vs).len() == flat_embeddings(vs.drop_last()).len()
                    + vs.last().embedding.len(),
                flat_embeddings(vs.drop_last()).len() == vs.drop_last().len() * (
                EMBEDDING_DIM as int),
                vs.drop_last().len() == vs.len() - 1,
                vs.last().embedding.len() == EMBEDDING_DIM,
        ;
        assert((vs.len() - 1) * (EMBEDDING_DIM as int) + EMBEDDING_DIM == vs.len() * (
        EMBEDDING_DIM as int)) by (nonlinear_arith);
    }
}

/// The flat `imported_by` values number exactly the records' total.
proof fn lemma_flat_imports_len(vs: Seq<RecordModel>)
    ensures
        flat_imports(vs).len() == total_imports(vs),
    decreases vs.len(),
{
    if vs.len() > 0 {
        lemma_flat_imports_len(vs.drop_last());
    }
}

/// The cumulative boundaries never decrease.
proof fn lemma_import_offsets_monotone(vs: Seq<RecordModel>)
    ensures
        forall|i: int|
            0 <= i < import_offsets(vs).len() - 1 ==> #[trigger] import_offsets(vs)[i]
                <= import_offsets(vs)[i + 1],
{
    assert forall|i: int|
        0 <= i < import_offsets(vs).len() - 1 implies #[trigger] import_offsets(vs)[i]
        <= import_offsets(vs)[i + 1] by {
        lemma_take_one_more(vs, i);
        lemma_total_imports_push(vs.take(i), vs[i]);
    }
}

// ---- Encoding ----

/// The machine bounds encoding needs: the columnar library addresses
/// one string column's bytes, and one list column's values, with
/// 32-bit offsets.
pub open spec fn encode_fits(vs: Seq<RecordModel>) -> bool {
    &&& total_utf8_bytes(col_paths(vs)) <= i32::MAX
    &&& total_utf8_bytes(col_hashes(vs)) <= i32::MAX
    &&& total_utf8_bytes(col_languages(vs)) <= i32::MAX
    &&& total_utf8_bytes(flat_imports(vs)) <= i32::MAX
    &&& total_utf8_bytes_opt(col_preview_opts(vs)) <= i32::MAX
    &&& total_imports(vs) <= i32::MAX
}

/// Encodes the records as one columnar batch: validates every
/// embedding's length, then builds the nine columns in schema order.
/// A single invalid record fails the whole batch and no column is
/// built. The bounds asked of the caller are the columnar library's
/// own 32-bit offset limits.
pub fn encode_records(records: &Vec<EmbeddingRecord>) -> (r: Result<EngineBatch, StoreError>)
    requires
        encode_fits(views_of(records@)),
    ensures
        r is Ok <==> (forall|i: int|
            0 <= i < records@.len() ==> #[trigger] views_of(records@)[i].valid_dim()),
        r matches Ok(b) ==> encoded_batch(views_of(records@), b),
        r matches Err(e) ==> ({
            let vs = views_of(records@);
            let k = first_invalid(vs);
            &&& 0 <= k < vs.len()
            &&& !vs[k].valid_dim()
            &&& e == (StoreError::DimensionMismatch {
                expected: EMBEDDING_DIM,
                got: vs[k].embedding.len() as usize,
            })
        }),
{
    let ghost vs = views_of(records@);
    match validate_embeddings(records) {
        Ok(()) => {},
        Err(e) => {
            return Err(e);
        },
    }
    let paths = new_str_array(collect_paths(records));
    let hashes = new_str_array(collect_hashes(records));
    let languages = new_str_array(collect_languages(records));
    let previews = new_str_array_opt(collect_previews(records));
    let last_modified = new_ts_array(collect_last_modified(records));
    let last_accessed = new_ts_array(collect_last_accessed(records));
    let line_counts = new_i16_array(collect_line_counts(records));
    let bits = extract_embeddings(records);
    proof {
        lemma_flat_embeddings_len(vs);
        assert((bits@.len() as int) % (EMBEDDING_DIM as int) == 0) by (nonlinear_arith)
            requires
                bits@.len() == vs.len() * (EMBEDDING_DIM as int),
        ;
    }
    let embeddings = new_embedding_column(bits, EMBEDDING_DIM as i32);
    let (import_values, import_bounds) = extract_imported_by(records);
    proof {
        lemma_flat_imports_len(vs);
        lemma_import_offsets_monotone(vs);
        let m = import_bounds@.map_values(|x: i32| x as int);
        assert(m.len() == import_bounds@.len());
        assert(import_bounds@[0] as int == import_offsets(vs)[0]);
        assert(vs.take(0) =~= Seq::<RecordModel>::empty());
        assert forall|i: int|
            0 <= i < import_bounds@.len() - 1 implies #[trigger] import_bounds@[i]
            <= import_bounds@[i + 1] by {
            assert(import_bounds@[i] as int == m[i]);
            assert(import_bounds@[i + 1] as int == m[i + 1]);
            assert(import_offsets(vs)[i] <= import_offsets(vs)[i + 1]);
        }
        assert(import_bounds@[import_bounds@.len() - 1] as int == import_offsets(
            vs,
        )[import_offsets(vs).len() - 1]);
        assert(vs.take(vs.len() as int) =~= vs);
        assert(import_bounds@[import_bounds@.len() - 1] == import_values.deep_view().len());
    }
    let imported_by = new_imported_by_column(import_bounds, import_values);
    let specs = embeddings_schema();
    let ghost n = vs.len();
    let batch = make_batch(
        &specs,
        paths,
        hashes,
        embeddings,
        languages,
        last_modified,
        last_accessed,
        line_counts,
        imported_by,
        previews,
    );
    proof {
        assert(crate::columnar::str_nulls(paths) =~= no_nulls(n));
        assert(crate::columnar::str_nulls(hashes) =~= no_nulls(n));
        assert(crate::columnar::str_nulls(languages) =~= no_nulls(n));
        assert(crate::columnar::str_values(previews) =~= col_preview_values(vs));
        assert(crate::columnar::str_nulls(previews) =~= col_preview_nulls(vs));
        assert(encoded_batch(vs, batch));
    }
    Ok(batch)
}


// ---- Decoding ----

/// Whether every column the decoder reads is present and of the type
/// its position demands.
pub open spec fn batch_well_typed(b: EngineBatch) -> bool {
    &&& batch_str_values(b, 0) is Some
    &&& batch_str_values(b, 1) is Some
    &&& batch_embedding_flat(b, 2) is Some
    &&& batch_str_values(b, 3) is Some
    &&& batch_ts(b, 4) is Some
    &&& batch_ts(b, 5) is Some
    &&& batch_i16(b, 6) is Some
    &&& batch_list_values(b, 7) is Some
    &&& batch_str_values(b, 8) is Some
}

/// The first column position, in decode order, whose runtime type does
/// not match; meaningful when the batch is not well typed.
pub open spec fn mismatch_column(b: EngineBatch) -> int {
    if batch_str_values(b, 0) is None {
        0
    } else if batch_str_values(b, 1) is None {
        1
    } else if batch_embedding_flat(b, 2) is None {
        2
    } else if batch_str_values(b, 3) is None {
        3
    } else if batch_ts(b, 4) is None {
        4
    } else if batch_ts(b, 5) is None {
        5
    } else if batch_i16(b, 6) is None {
        6
    } else if batch_list_values(b, 7) is None {
        7
    } else {
        8
    }
}

/// The record read positionally from row `row` of a well-typed batch.
pub open spec fn decoded_row(b: EngineBatch, row: int) -> RecordModel {
    let w = batch_embedding_width(b, 2)->0;
    let off = batch_list_offsets(b, 7)->0;
    RecordModel {
        path: batch_str_values(b, 0)->0[row],
        hash: batch_str_values(b, 1)->0[row],
        embedding: batch_embedding_flat(b, 2)->0.subrange(row * w, (row + 1) * w),
        language: batch_str_values(b, 3)->0[row],
        last_modified: batch_ts(b, 4)->0[row],
        last_accessed: batch_ts(b, 5)->0[row],
        line_count: batch_i16(b, 6)->0[row],
        imported_by: batch_list_values(b, 7)->0.subrange(off[row], off[row + 1]),
        content_preview: if batch_str_nulls(b, 8)->0[row] {
            None
        } else {
            Some(batch_str_values(b, 8)->0[row])
        },
    }
}

/// Reconstructs one record from row `row` of a batch, reading each
/// column positionally. A row at or past the batch's row count is
/// refused; a column whose runtime type does not match its position
/// fails with that column's index.
pub fn decode_record(b: &EngineBatch, row: usize) -> (r: Result<EmbeddingRecord, StoreError>)
    ensures
        (row as int) >= batch_row_count(*b) ==> r == Err::<EmbeddingRecord, StoreError>(
            StoreError::RowOutOfBounds { row },
        ),
        (row as int) < batch_row_count(*b) ==> {
            &&& (r is Ok <==> batch_well_typed(*b))
            &&& (r matches Ok(rec) ==> rec@ == decoded_row(*b, row as int))
            &&& (r matches Err(e) ==> e == (StoreError::ColumnTypeMismatch {
                column: mismatch_column(*b) as usize,
            }))
        },
{
    let rows = batch_rows(b);
    if row >= rows {
        return Err(StoreError::RowOutOfBounds { row });
    }
    let path_cell = match read_str_cell(b, 0, row) {
        Some(c) => c,
        None => {
            return Err(StoreError::ColumnTypeMismatch { column: 0 });
        },
    };
    let hash_cell = match read_str_cell(b, 1, row) {
        Some(c) => c,
        None => {
            return Err(StoreError::ColumnTypeMismatch { column: 1 });
        },
    };
    let embedding = match read_embedding_row(b, 2, row) {
        Some(v) => v,
        None => {
            return Err(StoreError::ColumnTypeMismatch { column: 2 });
        },
    };
    let language_cell = match read_str_cell(b, 3, row) {
        Some(c) => c,
        None => {
            return Err(StoreError::ColumnTypeMismatch { column: 3 });
        },
    };
    let last_modified = match read_ts_cell(b, 4, row) {
        Some(v) => v,
        None => {
            return Err(StoreError::ColumnTypeMismatch { column: 4 });
        },
    };
    let last_accessed = match read_ts_cell(b, 5, row) {
        Some(v) => v,
        None => {
            return Err(StoreError::ColumnTypeMismatch { column: 5 });
        },
    };
    let line_count = match read_i16_cell(b, 6, row) {
        Some(v) => v,
        None => {
            return Err(StoreError::ColumnTypeMismatch { column: 6 });
        },
    };
    let imported_by = match read_imported_by_row(b, 7, row) {
        Some(v) => v,
        None => {
            return Err(StoreError::ColumnTypeMismatch { column: 7 });
        },
    };
    let preview_cell = match read_str_cell(b, 8, row) {
        Some(c) => c,
        None => {
            return Err(StoreError::ColumnTypeMismatch { column: 8 });
        },
    };
    let content_preview = if preview_cell.1 {
        None
    } else {
        Some(preview_cell.0)
    };
    let rec = EmbeddingRecord {
        path: path_cell.0,
        hash: hash_cell.0,
        embedding,
        language: language_cell.0,
        last_modified,
        last_accessed,
        line_count,
        imported_by,
        content_preview,
    };
    proof {
        lemma_string_deep_view(rec.imported_by);
        assert(rec.imported_by.deep_view() == batch_list_values(*b, 7)->0.subrange(
            batch_list_offsets(*b, 7)->0[row as int],
            batch_list_offsets(*b, 7)->0[(row as int) + 1],
        ));
        assert(rec@ == decoded_row(*b, row as int));
    }
    Ok(rec)
}

/// Whether column `col` of the batch carries the given column type at
/// run time.
pub open spec fn column_matches(b: EngineBatch, col: int, t: ColumnType) -> bool {
    match t {
        ColumnType::Utf8 => batch_str_values(b, col) is Some,
        ColumnType::FixedSizeListFloat32(_) => batch_embedding_flat(b, col) is Some,
        ColumnType::TimestampMicrosecond => batch_ts(b, col) is Some,
        ColumnType::Int16 => batch_i16(b, col) is Some,
        ColumnType::ListUtf8 => batch_list_values(b, col) is Some,
    }
}

/// The decoder asks of a batch exactly what the shared schema
/// descriptor says: a batch is well typed precisely when every column
/// carries the type the descriptor gives its position.
pub proof fn lemma_well_typed_follows_schema(b: EngineBatch, s: Seq<ColumnSpec>)
    requires
        is_embeddings_schema(s),
    ensures
        batch_well_typed(b) <==> (forall|i: int|
            0 <= i < s.len() ==> #[trigger] column_matches(b, i, s[i].column_type)),
{
    if batch_well_typed(b) {
        assert forall|i: int| 0 <= i < s.len() implies #[trigger] column_matches(
            b,
            i,
            s[i].column_type,
        ) by {
            if i == 0 || i == 1 || i == 3 || i == 8 {
                assert(s[i].column_type == ColumnType::Utf8);
            }
        }
    }
    if forall|i: int| 0 <= i < s.len() ==> #[trigger] column_matches(b, i, s[i].column_type) {
        assert(column_matches(b, 0, s[0].column_type));
        assert(column_matches(b, 1, s[1].column_type));
        assert(column_matches(b, 2, s[2].column_type));
        assert(column_matches(b, 3, s[3].column_type));
        assert(column_matches(b, 4, s[4].column_type));
        assert(column_matches(b, 5, s[5].column_type));
        assert(column_matches(b, 6, s[6].column_type));
        assert(column_matches(b, 7, s[7].column_type));
        assert(column_matches(b, 8, s[8].column_type));
    }
}

// ---- The mapper round trip ----

/// Embeddings are non-negative in number.
proof fn lemma_total_imports_nonneg(vs: Seq<RecordModel>)
    ensures
        total_imports(vs) >= 0,
    decreases vs.len(),
{
    if vs.len() > 0 {
        lemma_total_imports_nonneg(vs.drop_last());
    }
}

/// Row `i` of the flat embedding data is record `i`'s embedding.
proof fn lemma_flat_embeddings_slice(vs: Seq<RecordModel>, i: int)
    requires
        forall|j: int| 0 <= j < vs.len() ==> #[trigger] vs[j].valid_dim(),
        0 <= i < vs.len(),
    ensures
        flat_embeddings(vs).subrange(
            i * (EMBEDDING_DIM as int),
            (i + 1) * (EMBEDDING_DIM as int),
        ) == vs[i].embedding,
    decreases vs.len(),
{
    let dim = EMBEDDING_DIM as int;
    lemma_flat_embeddings_len(vs);
    if i == vs.len() - 1 {
        assert(forall|j: int|
            0 <= j < vs.drop_last().len() ==> #[trigger] vs.drop_last()[j].valid_dim());
        lemma_flat_embeddings_len(vs.drop_last());
        assert(vs.last() == vs[i]);
        assert(flat_embeddings(vs).subrange(i * dim, (i + 1) * dim) =~= vs[i].embedding);
    } else {
        assert(forall|j: int|
            0 <= j < vs.drop_last().len() ==> #[trigger] vs.drop_last()[j].valid_dim());
        lemma_flat_embeddings_len(vs.drop_last());
        lemma_flat_embeddings_slice(vs.drop_last(), i);
        assert(vs.drop_last()[i] == vs[i]);
        assert(flat_embeddings(vs).subrange(i * dim, (i + 1) * dim) =~= flat_embeddings(
            vs.drop_last(),
        ).subrange(i * dim, (i + 1) * dim));
    }
}

/// Between its boundaries, the flat `imported_by` data is record `i`'s
/// own list.
proof fn lemma_flat_imports_slice(vs: Seq<RecordModel>, i: int)
    requires
        0 <= i < vs.len(),
    ensures
        flat_imports(vs).subrange(import_offsets(vs)[i], import_offsets(vs)[i + 1])
            == vs[i].imported_by,
    decreases vs.len(),
{
    lemma_flat_imports_len(vs);
    lemma_take_one_more(vs, i);
    lemma_total_imports_push(vs.take(i), vs[i]);
    lemma_total_imports_nonneg(vs.take(i));
    if i == vs.len() - 1 {
        assert(vs.take(i) =~= vs.drop_last());
        lemma_flat_imports_len(vs.drop_last());
        assert(vs.last() == vs[i]);
        assert(vs.take(i + 1) =~= vs);
        assert(flat_imports(vs).subrange(import_offsets(vs)[i], import_offsets(vs)[i + 1])
            =~= vs[i].imported_by);
    } else {
        lemma_flat_imports_slice(vs.drop_last(), i);
        assert(vs.drop_last()[i] == vs[i]);
        assert(vs.drop_last().take(i) =~= vs.take(i));
        assert(vs.drop_last().take(i + 1) =~= vs.take(i + 1));
        lemma_flat_imports_len(vs.drop_last());
        lemma_total_imports_take_bound(vs.drop_last(), i + 1);
        assert(flat_imports(vs).subrange(import_offsets(vs)[i], import_offsets(vs)[i + 1])
            =~= flat_imports(vs.drop_last()).subrange(
            import_offsets(vs.drop_last())[i],
            import_offsets(vs.drop_last())[i + 1],
        ));
    }
}

/// The mapper round trip: decoding any row of the encoding of a valid
/// record sequence yields that record, field for field — including the
/// distinction between an absent and an empty `content_preview`.
pub proof fn lemma_encode_decode_round_trip(vs: Seq<RecordModel>, b: EngineBatch, i: int)
    requires
        forall|j: int| 0 <= j < vs.len() ==> #[trigger] vs[j].valid_dim(),
        encoded_batch(vs, b),
        0 <= i < vs.len(),
    ensures
        batch_well_typed(b),
        batch_row_count(b) == vs.len(),
        decoded_row(b, i) == vs[i],
{
    lemma_flat_embeddings_slice(vs, i);
    lemma_flat_imports_slice(vs, i);
    assert(decoded_row(b, i).embedding == vs[i].embedding);
    assert(decoded_row(b, i).imported_by == vs[i].imported_by);
    assert(decoded_row(b, i).path == vs[i].path);
    assert(decoded_row(b, i).content_preview == vs[i].content_preview);
}


// ---- Checking the machine bounds at run time ----

/// One more string adds its byte length to the total.
proof fn lemma_total_utf8_snoc(s: Seq<Seq<char>>, x: Seq<char>)
    ensures
        total_utf8_bytes(s.push(x)) == total_utf8_bytes(s) + vstd::utf8::encode_utf8(x).len(),
    decreases s.len(),
{
    if s.len() == 0 {
        assert(s.push(x) =~= seq![x]);
        assert(seq![x][0] == x);
        assert(seq![x].drop_first() =~= Seq::<Seq<char>>::empty());
        assert(total_utf8_bytes(Seq::<Seq<char>>::empty()) == 0);
        assert(total_utf8_bytes(s) == 0);
    } else {
        assert(s.push(x)[0] == s[0]);
        assert(s.push(x).drop_first() =~= s.drop_first().push(x));
        lemma_total_utf8_snoc(s.drop_first(), x);
    }
}

/// A prefix never holds more bytes than the whole.
proof fn lemma_total_utf8_prefix(s: Seq<Seq<char>>, i: int)
    requires
        0 <= i <= s.len(),
    ensures
        total_utf8_bytes(s.take(i)) <= total_utf8_bytes(s),
    decreases s.len() - i,
{
    if i < s.len() {
        lemma_take_one_more(s, i);
        lemma_total_utf8_snoc(s.take(i), s[i]);
        lemma_total_utf8_prefix(s, i + 1);
    } else {
        assert(s.take(i) =~= s);
    }
}

/// One more optional string adds its byte length to the total.
proof fn lemma_total_utf8_opt_snoc(s: Seq<Option<Seq<char>>>, x: Option<Seq<char>>)
    ensures
        total_utf8_bytes_opt(s.push(x)) == total_utf8_bytes_opt(s) + (match x {
            Some(t) => vstd::utf8::encode_utf8(t).len() as int,
            None => 0,
        }),
    decreases s.len(),
{
    if s.len() == 0 {
        assert(s.push(x) =~= seq![x]);
        assert(seq![x][0] == x);
        assert(seq![x].drop_first() =~= Seq::<Option<Seq<char>>>::empty());
        assert(total_utf8_bytes_opt(Seq::<Option<Seq<char>>>::empty()) == 0);
        assert(total_utf8_bytes_opt(s) == 0);
    } else {
        assert(s.push(x)[0] == s[0]);
        assert(s.push(x).drop_first() =~= s.drop_first().push(x));
        lemma_total_utf8_opt_snoc(s.drop_first(), x);
    }
}

/// A prefix never holds more bytes than the whole.
proof fn lemma_total_utf8_opt_prefix(s: Seq<Option<Seq<char>>>, i: int)
    requires
        0 <= i <= s.len(),
    ensures
        total_utf8_bytes_opt(s.take(i)) <= total_utf8_bytes_opt(s),
    decreases s.len() - i,
{
    if i < s.len() {
        lemma_take_one_more(s, i);
        lemma_total_utf8_opt_snoc(s.take(i), s[i]);
        lemma_total_utf8_opt_prefix(s, i + 1);
    } else {
        assert(s.take(i) =~= s);
    }
}

/// Sums the strings' byte lengths; `None` once the sum has left the
/// 32-bit offset range for good.
fn utf8_total(v: &Vec<String>) -> (r: Option<u64>)
    ensures
        r matches Some(t) ==> t as int == total_utf8_bytes(v.deep_view()),
        r is None ==> total_utf8_bytes(v.deep_view()) > i32::MAX,
{
    proof {
        lemma_string_deep_view(*v);
    }
    let ghost col = str_views(v@);
    let mut sum: u64 = 0;
    let mut i: usize = 0;
    proof {
        assert(col.take(0) =~= Seq::<Seq<char>>::empty());
    }
    while i < v.len()
        invariant
            i <= v@.len(),
            col == str_views(v@),
            sum as int == total_utf8_bytes(col.take(i as int)),
        decreases v@.len() - i,
    {
        let len = v[i].as_str().as_bytes().len();
        proof {
            lemma_take_one_more(col, i as int);
            lemma_total_utf8_snoc(col.take(i as int), col[i as int]);
            assert(col[i as int] == v@[i as int]@);
            assert(len as int == vstd::utf8::encode_utf8(v@[i as int]@).len());
            assert(total_utf8_bytes(col.take(i as int + 1)) == sum + len);
        }
        match sum.checked_add(len as u64) {
            Some(next) => {
                sum = next;
            },
            None => {
                proof {
                    assert(sum + len > u64::MAX);
                    assert(total_utf8_bytes(col.take(i as int + 1)) > i32::MAX);
                    lemma_total_utf8_prefix(col, i as int + 1);
                    assert(total_utf8_bytes(col) > i32::MAX);
                    assert(v.deep_view() == col);
                }
                return None;
            },
        }
        i = i + 1;
    }
    proof {
        assert(col.take(col.len() as int) =~= col);
    }
    Some(sum)
}

/// Sums the optional strings' byte lengths; an absent string takes no
/// bytes.
fn utf8_total_opt(v: &Vec<Option<String>>) -> (r: Option<u64>)
    ensures
        r matches Some(t) ==> t as int == total_utf8_bytes_opt(v.deep_view()),
        r is None ==> total_utf8_bytes_opt(v.deep_view()) > i32::MAX,
{
    proof {
        lemma_opt_string_deep_view(*v);
    }
    let ghost col = opt_str_views(v@);
    let mut sum: u64 = 0;
    let mut i: usize = 0;
    proof {
        assert(col.take(0) =~= Seq::<Option<Seq<char>>>::empty());
    }
    while i < v.len()
        invariant
            i <= v@.len(),
            col == opt_str_views(v@),
            sum as int == total_utf8_bytes_opt(col.take(i as int)),
        decreases v@.len() - i,
    {
        let len: usize = match &v[i] {
            Some(s) => s.as_str().as_bytes().len(),
            None => 0,
        };
        proof {
            lemma_take_one_more(col, i as int);
            lemma_total_utf8_opt_snoc(col.take(i as int), col[i as int]);
            assert(col[i as int] == (match v@[i as int] {
                Some(t) => Some(t@),
                None => None,
            }));
            assert(len as int == (match col[i as int] {
                Some(t) => vstd::utf8::encode_utf8(t).len() as int,
                None => 0,
            }));
            assert(total_utf8_bytes_opt(col.take(i as int + 1)) == sum + len);
        }
        match sum.checked_add(len as u64) {
            Some(next) => {
                sum = next;
            },
            None => {
                proof {
                    assert(sum + len > u64::MAX);
                    assert(total_utf8_bytes_opt(col.take(i as int + 1)) > i32::MAX);
                    lemma_total_utf8_opt_prefix(col, i as int + 1);
                    assert(total_utf8_bytes_opt(col) > i32::MAX);
                    assert(v.deep_view() == col);
                }
                return None;
            },
        }
        i = i + 1;
    }
    proof {
        assert(col.take(col.len() as int) =~= col);
    }
    Some(sum)
}

/// Counts the records' `imported_by` values.
fn count_imports(records: &Vec<EmbeddingRecord>) -> (r: Option<u64>)
    ensures
        r matches Some(t) ==> t as int == total_imports(views_of(records@)),
        r is None ==> total_imports(views_of(records@)) > i32::MAX,
{
    let ghost vs = views_of(records@);
    let mut sum: u64 = 0;
    let mut i: usize = 0;
    proof {
        assert(vs.take(0) =~= Seq::<RecordModel>::empty());
    }
    while i < records.len()
        invariant
            i <= records@.len(),
            vs == views_of(records@),
            sum as int == total_imports(vs.take(i as int)),
        decreases records@.len() - i,
    {
        let len = records[i].imported_by.len();
        proof {
            lemma_take_one_more(vs, i as int);
            lemma_total_imports_push(vs.take(i as int), vs[i as int]);
            assert(vs[i as int].imported_by.len() == records@[i as int].imported_by@.len());
        }
        match sum.checked_add(len as u64) {
            Some(next) => {
                sum = next;
            },
            None => {
                proof {
                    lemma_total_imports_take_bound(vs, i as int + 1);
                }
                return None;
            },
        }
        i = i + 1;
    }
    proof {
        assert(vs.take(vs.len() as int) =~= vs);
    }
    Some(sum)
}

/// Decides at run time whether the records stay inside the columnar
/// library's 32-bit offset range, exactly the bound encoding asks of
/// its caller.
pub fn codec_bounds_ok(records: &Vec<EmbeddingRecord>) -> (r: bool)
    ensures
        r == encode_fits(views_of(records@)),
{
    let limit: u64 = i32::MAX as u64;
    let imports = match count_imports(records) {
        Some(t) => t,
        None => {
            return false;
        },
    };
    if imports > limit {
        return false;
    }
    let (import_values, _) = extract_imported_by(records);
    let import_bytes = match utf8_total(&import_values) {
        Some(t) => t,
        None => {
            return false;
        },
    };
    let path_bytes = match utf8_total(&collect_paths(records)) {
        Some(t) => t,
        None => {
            return false;
        },
    };
    let hash_bytes = match utf8_total(&collect_hashes(records)) {
        Some(t) => t,
        None => {
            return false;
        },
    };
    let language_bytes = match utf8_total(&collect_languages(records)) {
        Some(t) => t,
        None => {
            return false;
        },
    };
    let preview_bytes = match utf8_total_opt(&collect_previews(records)) {
        Some(t) => t,
        None => {
            return false;
        },
    };
    import_bytes <= limit && path_bytes <= limit && hash_bytes <= limit
        && language_bytes <= limit && preview_bytes <= limit
}

// ---- Lemmas about the encoding ----

/// Taking one more element appends exactly that element.
proof fn lemma_take_one_more<A>(s: Seq<A>, i: int)
    requires
        0 <= i < s.len(),
    ensures
        s.take(i + 1) == s.take(i).push(s[i]),
{
    assert(s.take(i + 1) =~= s.take(i).push(s[i]));
}

/// Appending one record appends its embedding to the flat sequence.
proof fn lemma_flat_embeddings_push(vs: Seq<RecordModel>, v: RecordModel)
    ensures
        flat_embeddings(vs.push(v)) == flat_embeddings(vs) + v.embedding,
{
    assert(vs.push(v).drop_last() =~= vs);
    assert(vs.push(v).last() == v);
}

/// Appending one record appends its `imported_by` values.
proof fn lemma_flat_imports_push(vs: Seq<RecordModel>, v: RecordModel)
    ensures
        flat_imports(vs.push(v)) == flat_imports(vs) + v.imported_by,
{
    assert(vs.push(v).drop_last() =~= vs);
    assert(vs.push(v).last() == v);
}

/// Appending one record adds its `imported_by` count to the total.
proof fn lemma_total_imports_push(vs: Seq<RecordModel>, v: RecordModel)
    ensures
        total_imports(vs.push(v)) == total_imports(vs) + v.imported_by.len(),
{
    assert(vs.push(v).drop_last() =~= vs);
    assert(vs.push(v).last() == v);
}

/// A prefix never holds more `imported_by` values than the whole.
proof fn lemma_total_imports_take_bound(vs: Seq<RecordModel>, i: int)
    requires
        0 <= i <= vs.len(),
    ensures
        total_imports(vs.take(i)) <= total_imports(vs),
    decreases vs.len() - i,
{
    if i < vs.len() {
        lemma_take_one_more(vs, i);
        lemma_total_imports_push(vs.take(i), vs[i]);
        lemma_total_imports_take_bound(vs, i + 1);
    } else {
        assert(vs.take(i) =~= vs);
    }
}

/// The boundaries of one more record extend the boundaries so far by
/// the new total.
proof fn lemma_import_offsets_push(vs: Seq<RecordModel>, i: int)
    requires
        1 <= i <= vs.len(),
    ensures
        import_offsets(vs.take(i)) == import_offsets(vs.take(i - 1)).push(
            total_imports(vs.take(i)),
        ),
{
    let left = import_offsets(vs.take(i));
    let right = import_offsets(vs.take(i - 1)).push(total_imports(vs.take(i)));
    assert forall|j: int| 0 <= j < left.len() implies left[j] == right[j] by {
        if j < i {
            assert(vs.take(i).take(j) =~= vs.take(i - 1).take(j));
        } else {
            assert(vs.take(i).take(j) =~= vs.take(i));
        }
    }
    assert(left =~= right);
}

} // verus!
