use llama_pack::columnar::EngineBatch;
use llama_pack::error::StoreError;
use llama_pack::mapper::{codec_bounds_ok, decode_record, encode_records, validate_embeddings};
use llama_pack::record::{EmbeddingRecord, EMBEDDING_DIM};
use llama_pack::store::{decode_batches, decode_get_result, prepare_insert};

use std::sync::Arc;

fn bits_of(x: f32) -> u32 {
    x.to_bits()
}

fn record(path: &str, fill: f32) -> EmbeddingRecord {
    EmbeddingRecord {
        path: path.to_string(),
        hash: format!("hash_{}", path),
        embedding: vec![bits_of(fill); EMBEDDING_DIM],
        language: "rust".to_string(),
        last_modified: 1_640_995_200_000,
        last_accessed: 1_640_995_200_001,
        line_count: 42,
        imported_by: vec!["src/lib.rs".to_string(), "src/main.rs".to_string()],
        content_preview: Some("fn main() {}".to_string()),
    }
}

#[test]
fn test_insert_single_embedding() {
    let records = vec![record("src/main.rs", 0.25)];
    let batch = encode_records(&records).expect("valid records encode");
    let decoded = decode_record(&batch, 0).expect("decodes");
    assert_eq!(decoded, records[0]);
    assert_eq!(
        decode_record(&batch, 1).unwrap_err(),
        StoreError::RowOutOfBounds { row: 1 },
    );
}

#[test]
fn test_insert_multiple_embeddings() {
    let records = vec![
        record("src/main.rs", 0.1),
        record("src/lib.rs", 0.2),
        record("src/utils/mod.rs", 0.3),
    ];
    let batch = encode_records(&records).expect("valid records encode");
    assert_eq!(
        decode_record(&batch, 3).unwrap_err(),
        StoreError::RowOutOfBounds { row: 3 },
    );
    for (i, rec) in records.iter().enumerate() {
        let decoded = decode_record(&batch, i).expect("decodes");
        assert_eq!(&decoded, rec);
    }
}

#[test]
fn test_insert_empty_records() {
    let out = prepare_insert(&Vec::new()).expect("empty insert is a no-op");
    assert!(out.is_none());
}

#[test]
fn test_invalid_embedding_dimension() {
    let mut bad = record("src/main.rs", 0.5);
    bad.embedding = vec![bits_of(0.5); 512];
    let err = encode_records(&vec![bad.clone()]).unwrap_err();
    assert_eq!(err, StoreError::DimensionMismatch { expected: EMBEDDING_DIM, got: 512 });
    let err2 = validate_embeddings(&vec![record("ok.rs", 0.0), bad]).unwrap_err();
    assert_eq!(err2, StoreError::DimensionMismatch { expected: EMBEDDING_DIM, got: 512 });
}

#[test]
fn test_record_with_no_imports() {
    let mut rec = record("src/standalone.rs", 0.7);
    rec.imported_by = Vec::new();
    let batch = encode_records(&vec![rec.clone()]).expect("encodes");
    let decoded = decode_record(&batch, 0).expect("decodes");
    assert_eq!(decoded.imported_by, Vec::<String>::new());
    assert_eq!(decoded, rec);
}

#[test]
fn test_record_with_no_content_preview() {
    let mut rec = record("src/binary.rs", 0.9);
    rec.content_preview = None;
    let batch = encode_records(&vec![rec.clone()]).expect("encodes");
    let decoded = decode_record(&batch, 0).expect("decodes");
    assert_eq!(decoded.content_preview, None);
    assert_eq!(decoded, rec);
}

#[test]
fn test_none_preview_differs_from_empty_preview() {
    let mut absent = record("a.rs", 0.1);
    absent.content_preview = None;
    let mut empty = record("b.rs", 0.1);
    empty.content_preview = Some(String::new());
    let batch = encode_records(&vec![absent.clone(), empty.clone()]).expect("encodes");
    assert_eq!(decode_record(&batch, 0).unwrap().content_preview, None);
    assert_eq!(decode_record(&batch, 1).unwrap().content_preview, Some(String::new()));
}

#[test]
fn test_various_languages() {
    let mut records = Vec::new();
    for (i, lang) in ["rust", "python", "javascript", "java"].iter().enumerate() {
        let mut rec = record(&format!("src/file_{}.{}", i, lang), 0.1 * i as f32);
        rec.language = lang.to_string();
        records.push(rec);
    }
    let batch = encode_records(&records).expect("encodes");
    for (i, rec) in records.iter().enumerate() {
        assert_eq!(&decode_record(&batch, i).unwrap(), rec);
    }
}

#[test]
fn test_large_batch_insert() {
    let mut records = Vec::new();
    for i in 0..100 {
        records.push(record(&format!("src/file_{}.rs", i), i as f32 * 0.01));
    }
    let batch = encode_records(&records).expect("encodes");
    assert_eq!(
        decode_record(&batch, 100).unwrap_err(),
        StoreError::RowOutOfBounds { row: 100 },
    );
    for (i, rec) in records.iter().enumerate() {
        assert_eq!(&decode_record(&batch, i).unwrap(), rec);
    }
}

#[test]
fn test_get_existing_embedding() {
    let rec = record("src/main.rs", 0.5);
    let batch = encode_records(&vec![rec.clone()]).expect("encodes");
    let found = decode_get_result(&Some(batch)).expect("decodes");
    let got = found.expect("a row matched");
    assert_eq!(got.path, rec.path);
    assert_eq!(got.hash, rec.hash);
    assert_eq!(got.embedding, rec.embedding);
    assert_eq!(got.language, rec.language);
    assert_eq!(got.last_modified, rec.last_modified);
    assert_eq!(got.last_accessed, rec.last_accessed);
    assert_eq!(got.line_count, rec.line_count);
    assert_eq!(got.imported_by, rec.imported_by);
    assert_eq!(got.content_preview, rec.content_preview);
}

#[test]
fn test_get_nonexistent_embedding() {
    let found = decode_get_result(&None).expect("no page is not an error");
    assert!(found.is_none());
    let empty = encode_records(&Vec::new()).expect("empty batch encodes");
    let found_empty = decode_get_result(&Some(empty)).expect("empty page is not an error");
    assert!(found_empty.is_none());
}

#[test]
fn test_get_embedding_with_special_characters_in_path() {
    let rec = record("src/file's_with_apostrophe.rs", 0.3);
    let batch = encode_records(&vec![rec.clone()]).expect("encodes");
    let got = decode_get_result(&Some(batch)).expect("decodes").expect("found");
    assert_eq!(got.path, "src/file's_with_apostrophe.rs");
    assert_eq!(got, rec);
}

#[test]
fn test_row_out_of_bounds() {
    let batch = encode_records(&vec![record("src/main.rs", 0.5)]).expect("encodes");
    let err = decode_record(&batch, 5).unwrap_err();
    assert_eq!(err, StoreError::RowOutOfBounds { row: 5 });
}

#[test]
fn test_column_type_mismatch_first_column() {
    let ints = arrow_array::Int16Array::from(vec![7i16]);
    let wrong = arrow_array::RecordBatch::try_from_iter(vec![(
        "path",
        Arc::new(ints) as arrow_array::ArrayRef,
    )])
    .expect("one-column batch");
    let batch = EngineBatch { inner: wrong };
    let err = decode_record(&batch, 0).unwrap_err();
    assert_eq!(err, StoreError::ColumnTypeMismatch { column: 0 });
}

#[test]
fn test_column_type_mismatch_missing_column() {
    let paths = arrow_array::StringArray::from(vec!["src/main.rs".to_string()]);
    let narrow = arrow_array::RecordBatch::try_from_iter(vec![(
        "path",
        Arc::new(paths) as arrow_array::ArrayRef,
    )])
    .expect("one-column batch");
    let batch = EngineBatch { inner: narrow };
    let err = decode_record(&batch, 0).unwrap_err();
    assert_eq!(err, StoreError::ColumnTypeMismatch { column: 1 });
}

#[test]
fn test_decode_batches_concatenates_pages() {
    let first = encode_records(&vec![record("a.rs", 0.1), record("b.rs", 0.2)]).unwrap();
    let second = encode_records(&vec![record("c.rs", 0.3)]).unwrap();
    let all = decode_batches(&vec![first, second]).expect("decodes");
    let paths: Vec<&str> = all.iter().map(|r| r.path.as_str()).collect();
    assert_eq!(paths, vec!["a.rs", "b.rs", "c.rs"]);
}

#[test]
fn test_validation_reports_first_violation() {
    let mut first_bad = record("a.rs", 0.1);
    first_bad.embedding = vec![0u32; 100];
    let mut second_bad = record("b.rs", 0.2);
    second_bad.embedding = vec![0u32; 200];
    let err = validate_embeddings(&vec![record("ok.rs", 0.0), first_bad, second_bad]).unwrap_err();
    assert_eq!(err, StoreError::DimensionMismatch { expected: EMBEDDING_DIM, got: 100 });
}

#[test]
fn test_decode_batches_reports_first_bad_page() {
    let good = encode_records(&vec![record("a.rs", 0.1)]).unwrap();
    let ints = arrow_array::Int16Array::from(vec![7i16]);
    let bad = EngineBatch {
        inner: arrow_array::RecordBatch::try_from_iter(vec![(
            "path",
            Arc::new(ints) as arrow_array::ArrayRef,
        )])
        .expect("one-column batch"),
    };
    let err = decode_batches(&vec![good, bad]).unwrap_err();
    assert_eq!(err, StoreError::ColumnTypeMismatch { column: 0 });
}

#[test]
fn test_encoded_batch_schema_matches_descriptor() {
    let batch = encode_records(&vec![record("src/main.rs", 0.5)]).unwrap();
    let schema = batch.inner.schema();
    let specs = llama_pack::schema::embeddings_schema();
    assert_eq!(schema.fields().len(), specs.len());
    for (field, spec) in schema.fields().iter().zip(specs.iter()) {
        assert_eq!(field.name(), spec.name);
        assert_eq!(field.is_nullable(), spec.nullable);
    }
    match schema.field(2).data_type() {
        arrow_schema::DataType::FixedSizeList(_, n) => assert_eq!(*n, 768),
        other => panic!("unexpected embedding column type: {:?}", other),
    }
}

#[test]
fn test_codec_bounds_accept_ordinary_batches() {
    let records = vec![record("src/main.rs", 0.1), record("src/lib.rs", 0.2)];
    assert!(codec_bounds_ok(&records));
    assert!(codec_bounds_ok(&Vec::new()));
}

#[test]
fn test_query_similar_empty_database() {
    let none = decode_batches(&Vec::new()).expect("no pages is not an error");
    assert!(none.is_empty());
    let empty_page = encode_records(&Vec::new()).unwrap();
    let still_none = decode_batches(&vec![empty_page]).expect("an empty page is not an error");
    assert!(still_none.is_empty());
}
