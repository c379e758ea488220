use llama_pack::encoder::{
    build_model_input, flatten_output, frame_prompt_bytes, MAX_SEQUENCE_LEN,
};
use llama_pack::error::EmbedError;

#[test]
fn test_frame_prompt_prepends_marker() {
    let framed = frame_prompt_bytes("sort a list of integers");
    assert_eq!(framed, b"<encoder-only>sort a list of integers".to_vec());
}

#[test]
fn test_frame_prompt_empty_text() {
    let framed = frame_prompt_bytes("");
    assert_eq!(framed, b"<encoder-only>".to_vec());
}

#[test]
fn test_build_model_input_pairs_ids_and_mask() {
    let ids: Vec<u32> = vec![101, 7, 8, 9, 102];
    let mask: Vec<u32> = vec![1, 1, 1, 1, 1];
    let input = build_model_input(&ids, &mask).expect("shapes agree");
    assert_eq!(input.input_ids, vec![101i64, 7, 8, 9, 102]);
    assert_eq!(input.attention_mask, vec![1i64, 1, 1, 1, 1]);
}

#[test]
fn test_build_model_input_truncates_overlong_ids() {
    let ids: Vec<u32> = (0..MAX_SEQUENCE_LEN as u32 + 200).collect();
    let mask: Vec<u32> = vec![1; MAX_SEQUENCE_LEN + 200];
    let input = build_model_input(&ids, &mask).expect("truncated, not refused");
    assert_eq!(input.input_ids.len(), MAX_SEQUENCE_LEN);
    assert_eq!(input.attention_mask.len(), MAX_SEQUENCE_LEN);
    let expected: Vec<i64> = (0..MAX_SEQUENCE_LEN as i64).collect();
    assert_eq!(input.input_ids, expected);
    assert_eq!(input.attention_mask, vec![1i64; MAX_SEQUENCE_LEN]);
}

#[test]
fn test_build_model_input_accepts_max_length() {
    let ids: Vec<u32> = vec![1; MAX_SEQUENCE_LEN];
    let mask: Vec<u32> = vec![1; MAX_SEQUENCE_LEN];
    let input = build_model_input(&ids, &mask).expect("at the limit");
    assert_eq!(input.input_ids.len(), MAX_SEQUENCE_LEN);
}

#[test]
fn test_build_model_input_rejects_mismatched_mask() {
    let ids: Vec<u32> = vec![1, 2, 3];
    let mask: Vec<u32> = vec![1, 1];
    let err = build_model_input(&ids, &mask).unwrap_err();
    assert_eq!(err, EmbedError::Shape);
}

#[test]
fn test_flatten_output_accepts_matching_shape() {
    let data: Vec<u32> = (0..6).collect();
    let flat = flatten_output(&vec![1, 2, 3], data.clone()).expect("2 x 3 of 6");
    assert_eq!(flat, data);
}

#[test]
fn test_flatten_output_rejects_wrong_size() {
    let data: Vec<u32> = (0..5).collect();
    let err = flatten_output(&vec![1, 2, 3], data).unwrap_err();
    assert_eq!(err, EmbedError::Shape);
}

#[test]
fn test_flatten_output_rejects_overflowing_shape() {
    let err = flatten_output(&vec![usize::MAX, usize::MAX, 0], Vec::new()).unwrap_err();
    assert_eq!(err, EmbedError::Shape);
}

#[test]
fn test_flatten_output_empty_tensor() {
    let flat = flatten_output(&vec![1, 0], Vec::new()).expect("1 x 0 of 0");
    assert!(flat.is_empty());
}
