use llama_pack::error::StoreError;
use llama_pack::mapper::decode_record;
use llama_pack::record::{EmbeddingRecord, EMBEDDING_DIM};
use llama_pack::store::{
    check_query_dimension, exclude_path, path_filter_bytes, prepare_update, require_found,
};

fn record(path: &str, fill: f32) -> EmbeddingRecord {
    EmbeddingRecord {
        path: path.to_string(),
        hash: format!("hash_{}", path),
        embedding: vec![fill.to_bits(); EMBEDDING_DIM],
        language: "rust".to_string(),
        last_modified: 1_640_995_200_000,
        last_accessed: 1_640_995_200_001,
        line_count: 10,
        imported_by: Vec::new(),
        content_preview: Some("fn old() {}".to_string()),
    }
}

#[test]
fn test_path_filter_escapes_apostrophes() {
    let filter = path_filter_bytes("src/file's.rs");
    assert_eq!(filter, b"path = 'src/file''s.rs'".to_vec());
}

#[test]
fn test_path_filter_plain_path() {
    let filter = path_filter_bytes("src/main.rs");
    assert_eq!(filter, b"path = 'src/main.rs'".to_vec());
}

#[test]
fn test_path_filter_only_quotes() {
    let filter = path_filter_bytes("'''");
    assert_eq!(filter, b"path = ''''''''".to_vec());
}

#[test]
fn test_query_similar_with_invalid_dimension() {
    let short = vec![0u32; 512];
    let err = check_query_dimension(&short).unwrap_err();
    assert_eq!(err, StoreError::DimensionMismatch { expected: EMBEDDING_DIM, got: 512 });
    let exact = vec![0u32; EMBEDDING_DIM];
    assert!(check_query_dimension(&exact).is_ok());
}

#[test]
fn test_update_path_mismatch() {
    let rec = record("src/other.rs", 0.5);
    let err = prepare_update("src/main.rs", rec).unwrap_err();
    assert_eq!(err, StoreError::PathMismatch);
}

#[test]
fn test_update_invalid_dimension() {
    let mut rec = record("src/main.rs", 0.5);
    rec.embedding = vec![0u32; 3];
    let err = prepare_update("src/main.rs", rec).unwrap_err();
    assert_eq!(err, StoreError::DimensionMismatch { expected: EMBEDDING_DIM, got: 3 });
}

#[test]
fn test_get_embedding_after_update() {
    let mut replacement = record("src/main.rs", 0.5);
    replacement.hash = "updated_hash_123".to_string();
    replacement.line_count = 99;
    replacement.content_preview = Some("fn updated() {}".to_string());
    let (filter, batch) = prepare_update("src/main.rs", replacement.clone()).expect("update");
    assert_eq!(filter, b"path = 'src/main.rs'".to_vec());
    let stored = decode_record(&batch, 0).expect("the new row decodes");
    assert_eq!(stored.hash, "updated_hash_123");
    assert_eq!(stored.line_count, 99);
    assert_eq!(stored.content_preview, Some("fn updated() {}".to_string()));
    assert_eq!(stored, replacement);
}

#[test]
fn test_query_similar_to_file_excludes_self() {
    let candidates = vec![
        record("src/identical_0.rs", 0.5),
        record("src/identical_1.rs", 0.5),
        record("src/identical_2.rs", 0.5),
    ];
    let kept = exclude_path(candidates, "src/identical_0.rs", 2);
    assert_eq!(kept.len(), 2);
    for rec in &kept {
        assert_ne!(rec.path, "src/identical_0.rs");
    }
    assert_eq!(kept[0].path, "src/identical_1.rs");
    assert_eq!(kept[1].path, "src/identical_2.rs");
}

#[test]
fn test_query_similar_to_file_excludes_every_copy() {
    let candidates = vec![
        record("src/dup.rs", 0.5),
        record("src/dup.rs", 0.5),
        record("src/other.rs", 0.5),
    ];
    let kept = exclude_path(candidates, "src/dup.rs", 5);
    assert_eq!(kept.len(), 1);
    assert_eq!(kept[0].path, "src/other.rs");
}

#[test]
fn test_query_similar_to_file_respects_limit() {
    let mut candidates = Vec::new();
    for i in 0..10 {
        candidates.push(record(&format!("src/file_{}.rs", i), 0.1));
    }
    let kept = exclude_path(candidates, "src/file_0.rs", 4);
    assert_eq!(kept.len(), 4);
    assert_eq!(kept[0].path, "src/file_1.rs");
    assert_eq!(kept[3].path, "src/file_4.rs");
}

#[test]
fn test_query_similar_to_file_single_record() {
    let only = vec![record("src/only_file.rs", 0.5)];
    let kept = exclude_path(only, "src/only_file.rs", 10);
    assert!(kept.is_empty());
}

#[test]
fn test_query_similar_to_file_zero_limit() {
    let candidates = vec![record("a.rs", 0.1), record("b.rs", 0.2)];
    let kept = exclude_path(candidates, "a.rs", 0);
    assert!(kept.is_empty());
}

#[test]
fn test_query_similar_to_file_nonexistent_file() {
    let err = require_found(None).unwrap_err();
    assert_eq!(err, StoreError::NotFound);
    let rec = record("src/main.rs", 0.5);
    let got = require_found(Some(rec.clone())).expect("found");
    assert_eq!(got, rec);
}
