//! The store's own rules: the filter expression that matches a path
//! literally, and the decisions of the CRUD and similarity-search
//! operations around the storage engine's calls.

use vstd::prelude::*;
use vstd::string::StringSliceAdditionalSpecFns;

use crate::columnar::{batch_row_count, batch_rows, EngineBatch};
use crate::error::StoreError;
use crate::mapper::{
    batch_well_typed, decode_record, decoded_row, encode_fits, encode_records, encoded_batch,
    first_invalid, lemma_encode_decode_round_trip, lemma_str_views_push, lemma_string_deep_view,
    mismatch_column, str_views, views_of,
};
use crate::record::{EmbeddingRecord, RecordModel, EMBEDDING_DIM};

verus! {

/// The single-quote byte, the one character of the filter syntax that a
/// path value could inject.
pub open spec fn quote_byte() -> u8 {
    39u8
}

/// Doubles every single quote of `s`, so that the bytes read as one
/// string literal of the filter syntax.
pub open spec fn escape_quotes(s: Seq<u8>) -> Seq<u8>
    decreases s.len(),
{
    if s.len() == 0 {
        Seq::empty()
    } else if s[0] == quote_byte() {
        seq![quote_byte(), quote_byte()] + escape_quotes(s.drop_first())
    } else {
        seq![s[0]] + escape_quotes(s.drop_first())
    }
}

/// Collapses every doubled single quote back into one: the reading a
/// filter parser gives the escaped literal.
pub open spec fn unescape_quotes(s: Seq<u8>) -> Seq<u8>
    decreases s.len(),
{
    if s.len() == 0 {
        Seq::empty()
    } else if s[0] == quote_byte() && s.len() >= 2 && s[1] == quote_byte() {
        seq![quote_byte()] + unescape_quotes(s.skip(2))
    } else {
        seq![s[0]] + unescape_quotes(s.drop_first())
    }
}

/// Escaping is lossless: a filter parser that collapses doubled quotes
/// reads back exactly the original path, so a path is always matched
/// literally, never interpreted as filter syntax. In particular two
/// distinct paths never escape to the same literal.
pub proof fn lemma_escape_quotes_reversible(s: Seq<u8>)
    ensures
        unescape_quotes(escape_quotes(s)) == s,
    decreases s.len(),
{
    if s.len() == 0 {
        assert(unescape_quotes(escape_quotes(s)) =~= s);
    } else {
        lemma_escape_quotes_reversible(s.drop_first());
        if s[0] == quote_byte() {
            assert(escape_quotes(s) == seq![quote_byte(), quote_byte()]
                + escape_quotes(s.drop_first()));
            assert(escape_quotes(s).skip(2) =~= escape_quotes(s.drop_first()));
            assert(unescape_quotes(escape_quotes(s)) =~= s);
        } else {
            assert(escape_quotes(s).drop_first() =~= escape_quotes(s.drop_first()));
            assert(unescape_quotes(escape_quotes(s)) =~= s);
        }
    }
}

/// The UTF-8 bytes of the exact-match filter expression for `path`:
/// the path's bytes, quotes doubled, inside a single-quoted equality on
/// the `path` column.
pub open spec fn path_filter_spec(path_bytes: Seq<u8>) -> Seq<u8> {
    vstd::utf8::encode_utf8("path = '"@) + escape_quotes(path_bytes)
        + vstd::utf8::encode_utf8("'"@)
}

/// Builds the filter expression that matches exactly the rows whose
/// `path` column equals `path`, with every single quote escaped so the
/// value is never read as filter syntax. Both the exact-match query and
/// the delete use this one function, so they address the same rows.
pub fn path_filter_bytes(path: &str) -> (r: Vec<u8>)
    ensures
        r@ == path_filter_spec(path.spec_bytes()),
{
    let prefix: &[u8] = "path = '".as_bytes();
    let pb: &[u8] = path.as_bytes();
    let mut out: Vec<u8> = Vec::new();
    let mut i: usize = 0;
    while i < prefix.len()
        invariant
            i <= prefix@.len(),
            out@ == prefix@.take(i as int),
        decreases prefix@.len() - i,
    {
        out.push(prefix[i]);
        i = i + 1;
    }
    proof {
        assert(prefix@.take(prefix@.len() as int) =~= prefix@);
    }
    let mut j: usize = 0;
    while j < pb.len()
        invariant
            j <= pb@.len(),
            out@ == prefix@ + escape_quotes(pb@.take(j as int)),
        decreases pb@.len() - j,
    {
        proof {
            lemma_escape_quotes_snoc(pb@.take(j as int), pb@[j as int]);
            assert(pb@.take(j as int).push(pb@[j as int]) =~= pb@.take(j as int + 1));
        }
        let b = pb[j];
        if b == 39u8 {
            out.push(39u8);
            out.push(39u8);
        } else {
            out.push(b);
        }
        j = j + 1;
    }
    proof {
        assert(pb@.take(pb@.len() as int) =~= pb@);
    }
    let suffix: &[u8] = "'".as_bytes();
    let mut k: usize = 0;
    while k < suffix.len()
        invariant
            k <= suffix@.len(),
            out@ == prefix@ + escape_quotes(pb@) + suffix@.take(k as int),
        decreases suffix@.len() - k,
    {
        out.push(suffix[k]);
        k = k + 1;
    }
    proof {
        assert(suffix@.take(suffix@.len() as int) =~= suffix@);
        assert(out@ =~= path_filter_spec(path.spec_bytes()));
    }
    out
}

/// Escaping one more byte appends that byte's escape.
proof fn lemma_escape_quotes_snoc(s: Seq<u8>, b: u8)
    ensures
        escape_quotes(s.push(b)) == escape_quotes(s) + (if b == quote_byte() {
            seq![quote_byte(), quote_byte()]
        } else {
            seq![b]
        }),
    decreases s.len(),
{
    let tail = if b == quote_byte() {
        seq![quote_byte(), quote_byte()]
    } else {
        seq![b]
    };
    if s.len() == 0 {
        assert(s.push(b) =~= seq![b]);
        assert(s.push(b)[0] == b);
        assert(s.push(b).drop_first() =~= Seq::<u8>::empty());
        assert(escape_quotes(Seq::<u8>::empty()) == Seq::<u8>::empty());
        assert(escape_quotes(s) == Seq::<u8>::empty());
        assert(escape_quotes(s.push(b)) =~= escape_quotes(s) + tail);
    } else {
        assert(s.push(b)[0] == s[0]);
        assert(s.push(b).drop_first() =~= s.drop_first().push(b));
        lemma_escape_quotes_snoc(s.drop_first(), b);
        if s[0] == quote_byte() {
            assert(escape_quotes(s.push(b)) == seq![quote_byte(), quote_byte()]
                + (escape_quotes(s.drop_first()) + tail));
            assert(escape_quotes(s.push(b)) =~= escape_quotes(s) + tail);
        } else {
            assert(escape_quotes(s.push(b)) == seq![s[0]] + (escape_quotes(s.drop_first())
                + tail));
            assert(escape_quotes(s.push(b)) =~= escape_quotes(s) + tail);
        }
    }
}

// ---- The store's decisions around the engine's calls ----

/// Checks a query vector's length against the fixed dimension, before
/// any search is issued.
pub fn check_query_dimension(vector: &Vec<u32>) -> (r: Result<(), StoreError>)
    ensures
        r is Ok <==> vector@.len() == EMBEDDING_DIM,
        r is Err ==> r == Err::<(), StoreError>(
            StoreError::DimensionMismatch { expected: EMBEDDING_DIM, got: vector@.len() as usize },
        ),
{
    if vector.len() != EMBEDDING_DIM {
        return Err(StoreError::DimensionMismatch { expected: EMBEDDING_DIM, got: vector.len() });
    }
    Ok(())
}

/// Decides an insert: an empty input is a no-op and no batch is built;
/// otherwise the records are validated and encoded as one batch for
/// the engine to append. A single invalid record fails the whole
/// insert before anything could be written.
pub fn prepare_insert(records: &Vec<EmbeddingRecord>) -> (r: Result<
    Option<EngineBatch>,
    StoreError,
>)
    requires
        encode_fits(views_of(records@)),
    ensures
        records@.len() == 0 ==> r == Ok::<Option<EngineBatch>, StoreError>(None),
        r is Ok <==> (forall|i: int|
            0 <= i < records@.len() ==> #[trigger] views_of(records@)[i].valid_dim()),
        r matches Ok(Some(b)) ==> encoded_batch(views_of(records@), b),
        records@.len() > 0 && r is Ok ==> r->Ok_0 is Some,
        r matches Err(e) ==> ({
            let vs = views_of(records@);
            let k = first_invalid(vs);
            &&& 0 <= k < vs.len()
            &&& !vs[k].valid_dim()
            &&& e == (StoreError::DimensionMismatch {
                expected: EMBEDDING_DIM,
                got: vs[k].embedding.len() as usize,
            })
        }),
{
    if records.len() == 0 {
        return Ok(None);
    }
    match encode_records(records) {
        Ok(b) => Ok(Some(b)),
        Err(e) => Err(e),
    }
}

/// Decides an update of the record stored at `path`: the replacement
/// must carry that very path, and must be a valid record. On success
/// the engine is to delete by the returned filter, then append the
/// returned one-record batch — a two-step, non-atomic replace.
pub fn prepare_update(path: &str, record: EmbeddingRecord) -> (r: Result<
    (Vec<u8>, EngineBatch),
    StoreError,
>)
    requires
        encode_fits(seq![record@]),
    ensures
        r is Ok <==> record@.path == path@ && record@.valid_dim(),
        r matches Ok(p) ==> p.0@ == path_filter_spec(path.spec_bytes()) && encoded_batch(
            seq![record@],
            p.1,
        ),
        record@.path != path@ ==> r == Err::<(Vec<u8>, EngineBatch), StoreError>(
            StoreError::PathMismatch,
        ),
        record@.path == path@ && !record@.valid_dim() ==> r == Err::<
            (Vec<u8>, EngineBatch),
            StoreError,
        >(
            StoreError::DimensionMismatch {
                expected: EMBEDDING_DIM,
                got: record@.embedding.len() as usize,
            },
        ),
{
    if !(record.path == path.to_owned()) {
        return Err(StoreError::PathMismatch);
    }
    let filter = path_filter_bytes(path);
    let mut one: Vec<EmbeddingRecord> = Vec::new();
    one.push(record);
    proof {
        assert(views_of(one@) =~= seq![one@[0]@]);
    }
    match encode_records(&one) {
        Ok(b) => Ok((filter, b)),
        Err(e) => Err(e),
    }
}

/// An update writes exactly its replacement record: the one-record
/// batch a successful update appends decodes, at its only row, to the
/// replacement itself — new hash, line count and preview, none of the
/// old ones.
pub proof fn lemma_update_writes_replacement(v: RecordModel, b: EngineBatch)
    requires
        v.valid_dim(),
        encoded_batch(seq![v], b),
    ensures
        batch_well_typed(b),
        batch_row_count(b) == 1,
        decoded_row(b, 0) == v,
{
    assert(forall|j: int| 0 <= j < seq![v].len() ==> #[trigger] seq![v][j].valid_dim());
    lemma_encode_decode_round_trip(seq![v], b, 0);
}

/// Decodes the engine's answer to an exact-match query limited to one
/// row: no page, or an empty page, means the key holds no record —
/// that is an empty result, not an error.
pub fn decode_get_result(batch: &Option<EngineBatch>) -> (r: Result<
    Option<EmbeddingRecord>,
    StoreError,
>)
    ensures
        batch is None ==> r == Ok::<Option<EmbeddingRecord>, StoreError>(None),
        batch matches Some(b) ==> {
            &&& (batch_row_count(*b) == 0 ==> r == Ok::<Option<EmbeddingRecord>, StoreError>(
                None,
            ))
            &&& (batch_row_count(*b) > 0 ==> {
                &&& (r is Ok <==> batch_well_typed(*b))
                &&& (r matches Ok(o) ==> o matches Some(rec) && rec@ == decoded_row(*b, 0))
                &&& (r matches Err(e) ==> e == (StoreError::ColumnTypeMismatch {
                    column: mismatch_column(*b) as usize,
                }))
            })
        },
{
    match batch {
        None => Ok(None),
        Some(b) => {
            if batch_rows(b) == 0 {
                Ok(None)
            } else {
                match decode_record(b, 0) {
                    Ok(rec) => Ok(Some(rec)),
                    Err(e) => Err(e),
                }
            }
        },
    }
}

/// The records of one batch, row by row.
pub open spec fn batch_records(b: EngineBatch) -> Seq<RecordModel> {
    Seq::new((batch_row_count(b)) as nat, |i: int| decoded_row(b, i))
}

/// The records of a sequence of result pages, page after page.
pub open spec fn decoded_all(bs: Seq<EngineBatch>) -> Seq<RecordModel>
    decreases bs.len(),
{
    if bs.len() == 0 {
        Seq::empty()
    } else {
        decoded_all(bs.drop_last()) + batch_records(bs.last())
    }
}

/// One more page appends its records.
proof fn lemma_decoded_all_push(bs: Seq<EngineBatch>, b: EngineBatch)
    ensures
        decoded_all(bs.push(b)) == decoded_all(bs) + batch_records(b),
{
    assert(bs.push(b).drop_last() =~= bs);
    assert(bs.push(b).last() == b);
}

/// One more record appends its model.
proof fn lemma_views_of_push(s: Seq<EmbeddingRecord>, x: EmbeddingRecord)
    ensures
        views_of(s.push(x)) == views_of(s).push(x@),
{
    assert(views_of(s.push(x)) =~= views_of(s).push(x@));
}

/// Taking one more element appends exactly that element.
proof fn lemma_take_one_more_elem<A>(s: Seq<A>, i: int)
    requires
        0 <= i < s.len(),
    ensures
        s.take(i + 1) == s.take(i).push(s[i]),
{
    assert(s.take(i + 1) =~= s.take(i).push(s[i]));
}

/// Whether one result page decodes without error: its rows, if it has
/// any, can all be read.
pub open spec fn page_decodes(b: EngineBatch) -> bool {
    batch_row_count(b) == 0 || batch_well_typed(b)
}

/// The least index of a page that does not decode; meaningful when
/// one exists.
pub open spec fn first_bad_page(bs: Seq<EngineBatch>) -> int
    decreases bs.len(),
{
    if bs.len() == 0 {
        0
    } else if !page_decodes(bs.first()) {
        0
    } else {
        1 + first_bad_page(bs.drop_first())
    }
}

/// With every page before `i` decoding and `i` itself failing, the
/// least failure sits exactly at `i`.
proof fn lemma_first_bad_page_at(bs: Seq<EngineBatch>, i: int)
    requires
        0 <= i < bs.len(),
        !page_decodes(bs[i]),
        forall|j: int| 0 <= j < i ==> #[trigger] page_decodes(bs[j]),
    ensures
        first_bad_page(bs) == i,
    decreases i,
{
    if i == 0 {
        assert(bs.first() == bs[0]);
    } else {
        assert(page_decodes(bs[0]));
        assert(bs.first() == bs[0]);
        assert(bs.drop_first()[i - 1] == bs[i]);
        assert(forall|j: int| 0 <= j < i - 1 ==> #[trigger] page_decodes(bs.drop_first()[j])) by {
            assert(forall|j: int| 0 <= j < i - 1 ==> bs.drop_first()[j] == #[trigger] bs[j + 1]);
        }
        lemma_first_bad_page_at(bs.drop_first(), i - 1);
    }
}

/// Decodes every row of every result page the engine streamed back,
/// in order. A search that found nothing — no pages, or empty pages —
/// yields the empty sequence, not an error.
pub fn decode_batches(batches: &Vec<EngineBatch>) -> (r: Result<Vec<EmbeddingRecord>, StoreError>)
    ensures
        r is Ok <==> (forall|i: int|
            0 <= i < batches@.len() ==> #[trigger] page_decodes(batches@[i])),
        r matches Ok(v) ==> views_of(v@) == decoded_all(batches@),
        r matches Err(e) ==> ({
            let k = first_bad_page(batches@);
            &&& 0 <= k < batches@.len()
            &&& !page_decodes(batches@[k])
            &&& e == (StoreError::ColumnTypeMismatch {
                column: mismatch_column(batches@[k]) as usize,
            })
        }),
{
    let mut out: Vec<EmbeddingRecord> = Vec::new();
    let mut bi: usize = 0;
    proof {
        assert(batches@.take(0) =~= Seq::<EngineBatch>::empty());
        assert(views_of(out@) =~= decoded_all(batches@.take(0)));
    }
    while bi < batches.len()
        invariant
            bi <= batches@.len(),
            views_of(out@) == decoded_all(batches@.take(bi as int)),
            forall|i: int| 0 <= i < bi ==> #[trigger] page_decodes(batches@[i]),
        decreases batches@.len() - bi,
    {
        let b = &batches[bi];
        let rows = batch_rows(b);
        let mut row: usize = 0;
        proof {
            assert(batch_records(batches@[bi as int]).take(0) =~= Seq::<RecordModel>::empty());
            assert(views_of(out@) + batch_records(batches@[bi as int]).take(0) =~= views_of(
                out@,
            ));
        }
        while row < rows
            invariant
                row <= rows,
                rows as int == batch_row_count(batches@[bi as int]),
                bi < batches@.len(),
                b == &batches@[bi as int],
                views_of(out@) == decoded_all(batches@.take(bi as int)) + batch_records(
                    batches@[bi as int],
                ).take(row as int),
                row > 0 ==> batch_well_typed(batches@[bi as int]),
                forall|i: int| 0 <= i < bi ==> #[trigger] page_decodes(batches@[i]),
            decreases rows - row,
        {
            match decode_record(b, row) {
                Ok(rec) => {
                    let ghost pre = out@;
                    out.push(rec);
                    proof {
                        let x = out@.last();
                        assert(out@ =~= pre.push(x));
                        lemma_views_of_push(pre, x);
                        lemma_take_one_more_elem(
                            batch_records(batches@[bi as int]),
                            row as int,
                        );
                        assert(batch_records(batches@[bi as int])[row as int] == decoded_row(
                            batches@[bi as int],
                            row as int,
                        ));
                        assert(views_of(out@) =~= decoded_all(batches@.take(bi as int))
                            + batch_records(batches@[bi as int]).take(row as int + 1));
                    }
                },
                Err(e) => {
                    proof {
                        assert(!page_decodes(batches@[bi as int]));
                        lemma_first_bad_page_at(batches@, bi as int);
                    }
                    return Err(e);
                },
            }
            row = row + 1;
        }
        proof {
            assert(batch_records(batches@[bi as int]).take(rows as int) =~= batch_records(
                batches@[bi as int],
            ));
            lemma_take_one_more_elem(batches@, bi as int);
            lemma_decoded_all_push(batches@.take(bi as int), batches@[bi as int]);
            assert(views_of(out@) == decoded_all(batches@.take(bi as int + 1)));
            assert(page_decodes(batches@[bi as int]));
        }
        bi = bi + 1;
    }
    proof {
        assert(batches@.take(batches@.len() as int) =~= batches@);
    }
    Ok(out)
}

// ---- Similarity-by-file: self-exclusion ----

/// The records of `vs` whose path differs from `path`, in order.
pub open spec fn excluded(vs: Seq<RecordModel>, path: Seq<char>) -> Seq<RecordModel>
    decreases vs.len(),
{
    if vs.len() == 0 {
        Seq::empty()
    } else if vs.last().path != path {
        excluded(vs.drop_last(), path) + seq![vs.last()]
    } else {
        excluded(vs.drop_last(), path)
    }
}

/// At most the first `n` records of `vs`.
pub open spec fn clipped(vs: Seq<RecordModel>, n: int) -> Seq<RecordModel> {
    if vs.len() <= n {
        vs
    } else {
        vs.take(n)
    }
}

/// One more record extends the exclusion exactly when its path
/// differs.
proof fn lemma_excluded_push(vs: Seq<RecordModel>, v: RecordModel, path: Seq<char>)
    ensures
        excluded(vs.push(v), path) == (if v.path != path {
            excluded(vs, path) + seq![v]
        } else {
            excluded(vs, path)
        }),
{
    assert(vs.push(v).drop_last() =~= vs);
    assert(vs.push(v).last() == v);
}

/// Nothing the exclusion keeps carries the excluded path.
pub proof fn lemma_excluded_no_self(vs: Seq<RecordModel>, path: Seq<char>)
    ensures
        forall|i: int| 0 <= i < excluded(vs, path).len() ==> #[trigger] excluded(vs, path)[i].path
            != path,
    decreases vs.len(),
{
    if vs.len() > 0 {
        lemma_excluded_no_self(vs.drop_last(), path);
    }
}

/// When every candidate carries the queried path itself — as on a
/// table holding only the queried record, or only records that tie
/// with it — nothing at all is left after self-exclusion.
pub proof fn lemma_excluded_all_self(vs: Seq<RecordModel>, path: Seq<char>)
    requires
        forall|i: int| 0 <= i < vs.len() ==> #[trigger] vs[i].path == path,
    ensures
        excluded(vs, path).len() == 0,
    decreases vs.len(),
{
    if vs.len() > 0 {
        assert(vs.last().path == path);
        assert(forall|i: int|
            0 <= i < vs.drop_last().len() ==> #[trigger] vs.drop_last()[i].path == path);
        lemma_excluded_all_self(vs.drop_last(), path);
    }
}


/// Copies a vector of bit patterns.
fn copy_bits(v: &Vec<u32>) -> (c: Vec<u32>)
    ensures
        c@ == v@,
{
    let mut c: Vec<u32> = Vec::new();
    let mut i: usize = 0;
    while i < v.len()
        invariant
            i <= v@.len(),
            c@ == v@.take(i as int),
        decreases v@.len() - i,
    {
        c.push(v[i]);
        i = i + 1;
    }
    proof {
        assert(v@.take(v@.len() as int) =~= v@);
    }
    c
}

/// Copies a vector of strings, value for value.
fn copy_strings(v: &Vec<String>) -> (c: Vec<String>)
    ensures
        c.deep_view() == v.deep_view(),
{
    let mut c: Vec<String> = Vec::new();
    let mut i: usize = 0;
    proof {
        assert(str_views(c@) =~= str_views(v@).take(0));
    }
    while i < v.len()
        invariant
            i <= v@.len(),
            str_views(c@) == str_views(v@).take(i as int),
        decreases v@.len() - i,
    {
        let item = v[i].clone();
        let ghost pre = c@;
        c.push(item);
        proof {
            let x = c@.last();
            assert(c@ =~= pre.push(x));
            lemma_str_views_push(pre, x);
            lemma_take_one_more_elem(str_views(v@), i as int);
            assert(x@ == str_views(v@)[i as int]);
        }
        i = i + 1;
    }
    proof {
        assert(str_views(v@).take(str_views(v@).len() as int) =~= str_views(v@));
        lemma_string_deep_view(c);
        lemma_string_deep_view(*v);
    }
    c
}

/// Copies one record, field for field; the copy models the same
/// record.
fn copy_record(r: &EmbeddingRecord) -> (c: EmbeddingRecord)
    ensures
        c@ == r@,
{
    EmbeddingRecord {
        path: r.path.clone(),
        hash: r.hash.clone(),
        embedding: copy_bits(&r.embedding),
        language: r.language.clone(),
        last_modified: r.last_modified,
        last_accessed: r.last_accessed,
        line_count: r.line_count,
        imported_by: copy_strings(&r.imported_by),
        content_preview: match &r.content_preview {
            Some(s) => Some(s.clone()),
            None => None,
        },
    }
}

/// Removes every candidate whose path is the queried file's own, then
/// truncates to `limit` — the tail of a similarity-by-file query. The
/// result never includes the queried path, whatever the engine
/// returned and however the limit was chosen.
pub fn exclude_path(records: Vec<EmbeddingRecord>, path: &str, limit: usize) -> (r: Vec<
    EmbeddingRecord,
>)
    ensures
        views_of(r@) == clipped(excluded(views_of(records@), path@), limit as int),
        r@.len() <= limit,
        forall|i: int| 0 <= i < r@.len() ==> #[trigger] views_of(r@)[i].path != path@,
{
    let ghost vs = views_of(records@);
    let key = path.to_owned();
    let mut out: Vec<EmbeddingRecord> = Vec::new();
    let mut i: usize = 0;
    proof {
        assert(records@.take(0) =~= Seq::<EmbeddingRecord>::empty());
        assert(views_of(records@.take(0)) =~= Seq::<RecordModel>::empty());
        assert(views_of(out@) =~= excluded(views_of(records@.take(0)), path@));
    }
    while i < records.len()
        invariant
            i <= records@.len(),
            vs == views_of(records@),
            key@ == path@,
            views_of(out@) == excluded(views_of(records@.take(i as int)), path@),
        decreases records@.len() - i,
    {
        if !(records[i].path == key) {
            let ghost pre = out@;
            let copy = copy_record(&records[i]);
            out.push(copy);
            proof {
                let x = out@.last();
                assert(out@ =~= pre.push(x));
                lemma_views_of_push(pre, x);
                assert(x@.path != path@);
            }
        }
        proof {
            lemma_take_one_more_elem(records@, i as int);
            assert(views_of(records@.take(i as int)).push(records@[i as int]@) =~= views_of(
                records@.take(i as int + 1),
            ));
            lemma_excluded_push(
                views_of(records@.take(i as int)),
                records@[i as int]@,
                path@,
            );
            assert(views_of(out@) =~= excluded(views_of(records@.take(i as int + 1)), path@));
        }
        i = i + 1;
    }
    proof {
        assert(records@.take(records@.len() as int) =~= records@);
    }
    out.truncate(limit);
    proof {
        assert(views_of(out@) =~= clipped(excluded(vs, path@), limit as int));
        lemma_excluded_no_self(vs, path@);
        assert forall|i: int| 0 <= i < out@.len() implies #[trigger] views_of(out@)[i].path
            != path@ by {
            if excluded(vs, path@).len() <= limit as int {
                assert(views_of(out@)[i] == excluded(vs, path@)[i]);
            } else {
                assert(views_of(out@)[i] == excluded(vs, path@).take(limit as int)[i]);
            }
        }
    }
    out
}

/// Resolves a similarity-by-file lookup: a file with no stored record
/// cannot anchor a search, and that is the one absence the store
/// reports as an error.
pub fn require_found(found: Option<EmbeddingRecord>) -> (r: Result<EmbeddingRecord, StoreError>)
    ensures
        r is Ok <==> found is Some,
        r matches Ok(rec) ==> found == Some(rec),
        found is None ==> r == Err::<EmbeddingRecord, StoreError>(StoreError::NotFound),
{
    match found {
        Some(rec) => Ok(rec),
        None => Err(StoreError::NotFound),
    }
}

} // verus!
