//! Core of the embedding generator: the prompt-framing convention and the
//! shaping of tokenizer output into the tensors the encoder model takes,
//! and the flattening of the model's output tensor.
//!
//! Tokenization and model invocation themselves are outside work; the
//! functions here compute everything around those calls from plain values.

use vstd::prelude::*;
use vstd::utf8::encode_utf8;

use crate::error::EmbedError;

verus! {

/// Token sequences handed to the encoder are truncated at this length.
pub const MAX_SEQUENCE_LEN: usize = 768;

/// The fixed task marker prepended to every prompt; it selects the
/// encoder-only behaviour of the model.
pub open spec fn task_marker() -> Seq<char> {
    "<encoder-only>"@
}

/// The UTF-8 bytes of a prompt with the task marker prepended.
pub open spec fn framed_prompt(text: Seq<char>) -> Seq<u8> {
    encode_utf8(task_marker()) + encode_utf8(text)
}

/// Prepends the task marker to `text`, as UTF-8 bytes.
pub fn frame_prompt_bytes(text: &str) -> (r: Vec<u8>)
    ensures
        r@ == framed_prompt(text@),
{
    let marker: &str = "<encoder-only>";
    let mb: &[u8] = marker.as_bytes();
    let tb: &[u8] = text.as_bytes();
    let mut out: Vec<u8> = Vec::new();
    let mut i: usize = 0;
    while i < mb.len()
        invariant
            i <= mb@.len(),
            out@ == mb@.take(i as int),
        decreases mb@.len() - i,
    {
        out.push(mb[i]);
        i = i + 1;
    }
    let mut j: usize = 0;
    while j < tb.len()
        invariant
            j <= tb@.len(),
            out@ == mb@ + tb@.take(j as int),
        decreases tb@.len() - j,
    {
        out.push(tb[j]);
        j = j + 1;
    }
    proof {
        assert(mb@.take(mb@.len() as int) =~= mb@);
        assert(tb@.take(tb@.len() as int) =~= tb@);
        assert(out@ =~= framed_prompt(text@));
    }
    out
}

/// The two equal-length integer sequences the encoder model takes,
/// shaped as a batch of size one.
#[derive(Clone, Debug, PartialEq)]
pub struct ModelInput {
    pub input_ids: Vec<i64>,
    pub attention_mask: Vec<i64>,
}

impl ModelInput {
    /// Both tensors of a well-formed input have the same length, at most
    /// [`MAX_SEQUENCE_LEN`].
    pub open spec fn wf(self) -> bool {
        &&& self.input_ids@.len() == self.attention_mask@.len()
        &&& self.input_ids@.len() <= MAX_SEQUENCE_LEN
    }
}

/// The sequence length a token sequence of length `n` is shaped to:
/// `n` itself, truncated at [`MAX_SEQUENCE_LEN`].
pub open spec fn clipped_len(n: nat) -> int {
    if n <= MAX_SEQUENCE_LEN {
        n as int
    } else {
        MAX_SEQUENCE_LEN as int
    }
}

/// Builds the model's input tensors from the token ids and attention
/// mask the tokenizer produced, truncating both at
/// [`MAX_SEQUENCE_LEN`]. Tensor construction fails only when the data
/// disagrees with the intended shape: a mask whose length differs from
/// the ids'.
pub fn build_model_input(ids: &Vec<u32>, mask: &Vec<u32>) -> (r: Result<ModelInput, EmbedError>)
    ensures
        r is Ok <==> mask@.len() == ids@.len(),
        r matches Ok(m) ==> {
            &&& m.wf()
            &&& m.input_ids@ == ids@.take(clipped_len(ids@.len())).map_values(|x: u32| x as i64)
            &&& m.attention_mask@ == mask@.take(clipped_len(mask@.len())).map_values(
                |x: u32| x as i64,
            )
        },
        r is Err ==> r == Err::<ModelInput, EmbedError>(EmbedError::Shape),
{
    if mask.len() != ids.len() {
        return Err(EmbedError::Shape);
    }
    let seq_len: usize = if ids.len() < MAX_SEQUENCE_LEN {
        ids.len()
    } else {
        MAX_SEQUENCE_LEN
    };
    let input_ids = widen_prefix(ids, seq_len);
    let attention_mask = widen_prefix(mask, seq_len);
    Ok(ModelInput { input_ids, attention_mask })
}

/// Copies the first `n` 32-bit token values into the 64-bit form the
/// model takes.
fn widen_prefix(v: &Vec<u32>, n: usize) -> (r: Vec<i64>)
    requires
        n <= v@.len(),
    ensures
        r@ == v@.take(n as int).map_values(|x: u32| x as i64),
{
    let mut r: Vec<i64> = Vec::new();
    let mut i: usize = 0;
    while i < n
        invariant
            i <= n <= v@.len(),
            r@ == v@.take(i as int).map_values(|x: u32| x as i64),
        decreases n - i,
    {
        r.push(v[i] as i64);
        proof {
            assert(v@.take(i as int + 1) =~= v@.take(i as int).push(v@[i as int]));
            assert(r@ =~= v@.take(i as int + 1).map_values(|x: u32| x as i64));
        }
        i = i + 1;
    }
    r
}

/// The product of the first `i` extents of a shape.
pub open spec fn prefix_product(shape: Seq<usize>, i: int) -> int
    decreases i,
{
    if i <= 0 {
        1
    } else {
        prefix_product(shape, i - 1) * shape[i - 1]
    }
}

/// Whether every prefix product of the shape stays within the machine's
/// range, as the left-to-right size computation demands.
pub open spec fn shape_fits(shape: Seq<usize>) -> bool {
    forall|i: int| 1 <= i <= shape.len() ==> prefix_product(shape, i) <= usize::MAX
}

/// The number of elements a tensor of this shape holds.
pub open spec fn shape_size(shape: Seq<usize>) -> int {
    prefix_product(shape, shape.len() as int)
}

/// Flattens a row-major tensor into one flat sequence: the data itself,
/// once the shape is checked against the data's length. The element
/// count is computed left to right; a product beyond the machine's range
/// fails the same way a mismatched length does.
pub fn flatten_output(shape: &Vec<usize>, data: Vec<u32>) -> (r: Result<Vec<u32>, EmbedError>)
    ensures
        r is Ok <==> shape_fits(shape@) && shape_size(shape@) == data@.len(),
        r matches Ok(flat) ==> flat@ == data@,
        r is Err ==> r == Err::<Vec<u32>, EmbedError>(EmbedError::Shape),
{
    let mut prod: usize = 1;
    let mut i: usize = 0;
    while i < shape.len()
        invariant
            i <= shape@.len(),
            prod == prefix_product(shape@, i as int),
            forall|k: int| 1 <= k <= i ==> prefix_product(shape@, k) <= usize::MAX,
        decreases shape@.len() - i,
    {
        let next = prod.checked_mul(shape[i]);
        match next {
            Some(p) => {
                prod = p;
            },
            None => {
                proof {
                    lemma_prefix_product_overflow(shape@, i as int + 1, data@.len() as int);
                }
                return Err(EmbedError::Shape);
            },
        }
        i = i + 1;
    }
    if prod != data.len() {
        return Err(EmbedError::Shape);
    }
    Ok(data)
}

/// Once one prefix product is beyond the machine's range, the shape does
/// not fit, whatever comes after it.
proof fn lemma_prefix_product_overflow(shape: Seq<usize>, i: int, len: int)
    requires
        1 <= i <= shape.len(),
        prefix_product(shape, i) > usize::MAX,
    ensures
        !(shape_fits(shape) && shape_size(shape) == len),
{
    assert(!shape_fits(shape));
}

} // verus!
