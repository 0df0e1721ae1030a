//! The executable encoder.

use vstd::prelude::*;
use crate::alphabet::{symbol_of, PAD_BYTE};
use crate::bits::{lemma_group_digits, lemma_join_bytes, lemma_tail_digits};
use crate::model::{
    encoded, encoded_len, lemma_encoded_is_ascii, lemma_encoded_len, lemma_group_sextets,
    lemma_lengths, pad_len, padding, symbol_count, symbols,
};
use crate::text::{as_text, lemma_ascii_bytes_are_text, string_from_utf8};

verus! {

const LOW_SIX_BITS: u32 = 0x3f;

const LOW_SIX_BITS_U8: u8 = 0x3f;

/// Number of bytes that the padded encoding of `input_len` bytes takes.
pub fn encode_size(input_len: usize) -> (size: usize)
    requires
        encoded_len(input_len as nat) <= usize::MAX,
    ensures
        size == encoded_len(input_len as nat),
        size % 4 == 0,
{
    let rem: usize = input_len % 3;
    let input_chunks_complete: usize = input_len / 3;
    let complete_output_chunks: usize = input_chunks_complete * 4;

    if rem > 0 {
        complete_output_chunks + 4
    } else {
        complete_output_chunks
    }
}

/// Number of bytes that the padded encoding of `input_len` bytes takes, or `None`
/// where that number is beyond `usize`.
pub fn checked_encode_size(input_len: usize) -> (size: Option<usize>)
    ensures
        size is Some <==> encoded_len(input_len as nat) <= usize::MAX,
        size matches Some(n) ==> n == encoded_len(input_len as nat),
{
    proof {
        lemma_lengths(input_len as nat);
    }
    let rem: usize = input_len % 3;
    let chunks: usize = if rem > 0 {
        input_len / 3 + 1
    } else {
        input_len / 3
    };

    chunks.checked_mul(4)
}

/// Reads the first three bytes of `s` as one big-endian number.
fn read_u32(s: &[u8]) -> (value: u32)
    requires
        s@.len() >= 3,
    ensures
        value == s@[0] * 0x1_0000 + s@[1] * 0x100 + s@[2],
{
    let b0: u32 = s[0] as u32;
    let b1: u32 = s[1] as u32;
    let b2: u32 = s[2] as u32;
    proof {
        lemma_join_bytes(b0, b1, b2);
    }
    (b0 << 16) | (b1 << 8) | b2
}

/// Writes the symbols of `input`, without padding, to the front of `output` and
/// returns their number. The rest of `output` is left as it was.
pub fn encode_to_slice(input: &[u8], output: &mut [u8]) -> (written: usize)
    requires
        old(output)@.len() >= symbol_count(input@.len()),
    ensures
        written == symbol_count(input@.len()),
        final(output)@ == symbols(input@) + old(output)@.skip(written as int),
{
    let mut input_index: usize = 0;
    let mut output_index: usize = 0;

    let rem: usize = input.len() % 3;
    let last_index: usize = input.len() - rem;

    proof {
        lemma_lengths(input@.len());
    }

    while input_index < last_index
        invariant
            input_index <= last_index,
            last_index == input@.len() - input@.len() % 3,
            input_index % 3 == 0,
            output_index == 4 * (input_index / 3),
            output@.len() == old(output)@.len(),
            output@.len() >= symbol_count(input@.len()),
            symbol_count(input@.len()) >= 4 * (input@.len() / 3),
            forall|k: int| 0 <= k < output_index ==> output@[k] == #[trigger] symbols(input@)[k],
            forall|k: int| output_index <= k < output@.len() ==> output@[k] == old(output)@[k],
        decreases last_index - input_index,
    {
        // read 3 bytes into one number
        let input_chunk: u32 = read_u32(&input[input_index..(input_index + 3)]);
        proof {
            lemma_group_sextets(input@, input_index as int / 3);
            lemma_group_digits(input_chunk);
        }

        output[output_index] = symbol_of(((input_chunk >> 18) & LOW_SIX_BITS) as usize);
        output[output_index + 1] = symbol_of(((input_chunk >> 12) & LOW_SIX_BITS) as usize);
        output[output_index + 2] = symbol_of(((input_chunk >> 6) & LOW_SIX_BITS) as usize);
        output[output_index + 3] = symbol_of(((input_chunk >> 0) & LOW_SIX_BITS) as usize);

        input_index += 3;
        output_index += 4;
    }

    if rem == 2 {
        proof {
            lemma_tail_digits(input@[last_index as int], input@[last_index + 1]);
        }
        output[output_index] = symbol_of(((input[last_index] >> 2) & LOW_SIX_BITS_U8) as usize);
        output[output_index + 1] = symbol_of((((input[last_index] << 4) | (input[last_index + 1]
            >> 4)) & LOW_SIX_BITS_U8) as usize);
        output[output_index + 2] = symbol_of(((input[last_index + 1] << 2)
            & LOW_SIX_BITS_U8) as usize);

        output_index += 3;
    } else if rem == 1 {
        proof {
            lemma_tail_digits(input@[last_index as int], 0);
        }
        output[output_index] = symbol_of(((input[last_index] >> 2) & LOW_SIX_BITS_U8) as usize);
        output[output_index + 1] = symbol_of(((input[last_index] << 4)
            & LOW_SIX_BITS_U8) as usize);

        output_index += 2;
    }

    output_index
}

/// Writes the pad bytes that the encoding of `input_len` bytes ends with to the
/// front of `output` and returns their number. The rest of `output` is left as it
/// was.
pub fn add_padding(input_len: usize, output: &mut [u8]) -> (count: usize)
    requires
        old(output)@.len() >= pad_len(input_len as nat),
    ensures
        count == pad_len(input_len as nat),
        final(output)@ == padding(input_len as nat) + old(output)@.skip(count as int),
{
    let rem: usize = input_len % 3;
    let len: usize = (3 - rem) % 3;

    for i in 0..len
        invariant
            len <= output@.len(),
            output@.len() == old(output)@.len(),
            forall|k: int| 0 <= k < i ==> output@[k] == PAD_BYTE,
            forall|k: int| i <= k < output@.len() ==> output@[k] == old(output)@[k],
    {
        output[i] = PAD_BYTE;
    }

    len
}

/// Writes the whole encoding of `input` to `output`, which has exactly its length:
/// the symbols, and the padding straight after them.
pub fn encode_with_padding(input: &[u8], output: &mut [u8], encoded_size: usize)
    requires
        encoded_size == encoded_len(input@.len()),
        old(output)@.len() == encoded_size,
    ensures
        final(output)@ == encoded(input@),
{
    proof {
        lemma_lengths(input@.len());
    }
    let b64_bytes: usize = encode_to_slice(input, output);
    let (_, rest) = output.split_at_mut(b64_bytes);
    let padding_bytes: usize = add_padding(input.len(), rest);

    assert(b64_bytes + padding_bytes == encoded_size);
}

/// Writes the encoding of `input` to the front of `output` and returns its length.
/// The rest of `output` is left as it was.
pub fn encode_slice(input: &[u8], output: &mut [u8]) -> (written: usize)
    requires
        old(output)@.len() >= encoded_len(input@.len()),
    ensures
        written == encoded_len(input@.len()),
        final(output)@ == encoded(input@) + old(output)@.skip(written as int),
{
    assert(output@.len() == output.len());
    let size: usize = encode_size(input.len());
    // only the required amount of space in the buffer is used
    let (b64_output, _) = output.split_at_mut(size);

    encode_with_padding(input, b64_output, size);

    size
}

/// Writes the encoding of `input` to the front of `output` and returns its length, as
/// `encode_slice` does, if `output` has room for it. Otherwise returns `None`, and
/// `output` is left as it was.
pub fn checked_encode_slice(input: &[u8], output: &mut [u8]) -> (written: Option<usize>)
    ensures
        written is Some <==> old(output)@.len() >= encoded_len(input@.len()),
        written matches Some(n) ==> n == encoded_len(input@.len()) && final(output)@ == encoded(
            input@,
        ) + old(output)@.skip(n as int),
        written is None ==> final(output)@ == old(output)@,
{
    assert(output@.len() == output.len());
    match checked_encode_size(input.len()) {
        Some(size) => {
            if size <= output.len() {
                Some(encode_slice(input, output))
            } else {
                None
            }
        },
        None => None,
    }
}

/// Encodes `input` as Base64 text.
pub fn encode(input: &[u8]) -> (text: String)
    requires
        encoded_len(input@.len()) <= usize::MAX,
    ensures
        text@ == as_text(encoded(input@)),
        text@.len() == encoded_len(input@.len()),
{
    let len: usize = encode_size(input.len());
    let mut buf: Vec<u8> = vec![0u8; len];

    encode_with_padding(input, buf.as_mut_slice(), len);

    proof {
        lemma_encoded_len(input@);
        lemma_encoded_is_ascii(input@);
        lemma_ascii_bytes_are_text(buf@);
    }
    string_from_utf8(buf).expect("Invalid UTF8")
}

/// A buffer of exactly the encoded length holds, after `encode_slice`, the encoding
/// and nothing else: byte for byte the codes of the text that `encode` returns.
pub proof fn lemma_exact_buffer_holds_text(input: Seq<u8>, buffer: Seq<u8>)
    requires
        buffer.len() == encoded_len(input.len()),
    ensures
        encoded(input) + buffer.skip(encoded_len(input.len()) as int) == encoded(input),
        as_text(encoded(input)).len() == encoded(input).len(),
        forall|i: int|
            0 <= i < encoded(input).len() ==> (#[trigger] as_text(encoded(input))[i]) as u8
                == encoded(input)[i],
{
    lemma_encoded_len(input);
    lemma_encoded_is_ascii(input);
    assert(encoded(input) + buffer.skip(encoded_len(input.len()) as int) =~= encoded(input));
}

} // verus!
