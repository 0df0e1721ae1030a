//! What a decoder of the standard makes of a text, as a mathematical function, and
//! the proof that it gives every input back from its encoding.
//!
//! The library has no executable decoder: this module states what the encoding
//! means.

use vstd::prelude::*;
use crate::alphabet::{
    is_symbol, lemma_symbol_reads_back, symbol, symbol_value, PAD_BYTE,
};
use crate::model::{
    byte_or_zero, encoded, encoded_len, lemma_lengths, pad_len, sextet, symbol_count,
};

verus! {

/// Number of pad bytes at the end of `text`, of which a decoder looks at two at most.
pub open spec fn pad_count(text: Seq<u8>) -> nat {
    if text.len() >= 1 && text[text.len() - 1] == PAD_BYTE {
        if text.len() >= 2 && text[text.len() - 2] == PAD_BYTE {
            2
        } else {
            1
        }
    } else {
        0
    }
}

/// True when `text` is made of whole groups of four bytes, all of them symbols but
/// for the pad bytes at its end.
pub open spec fn well_formed(text: Seq<u8>) -> bool {
    &&& text.len() % 4 == 0
    &&& forall|k: int| 0 <= k < text.len() - pad_count(text) ==> is_symbol(#[trigger] text[k])
}

/// Number of bytes that a well-formed `text` stands for.
pub open spec fn decoded_len(text: Seq<u8>) -> nat {
    (3 * (text.len() / 4) - pad_count(text)) as nat
}

/// The 6-bit value at position `k` of `text`; a pad byte counts as zero.
pub open spec fn value_at(text: Seq<u8>, k: int) -> int {
    symbol_value(text[k])
}

/// Byte `j` of what `text` stands for, put together from two neighbouring 6-bit
/// values of group `j / 3`.
pub open spec fn decoded_byte(text: Seq<u8>, j: int) -> u8 {
    let k = 4 * (j / 3);
    if j % 3 == 0 {
        (value_at(text, k) * 4 + value_at(text, k + 1) / 16) as u8
    } else if j % 3 == 1 {
        ((value_at(text, k + 1) % 16) * 16 + value_at(text, k + 2) / 4) as u8
    } else {
        ((value_at(text, k + 2) % 4) * 64 + value_at(text, k + 3)) as u8
    }
}

/// The bytes that `text` stands for, or `None` if it is not well formed.
pub open spec fn decoded(text: Seq<u8>) -> Option<Seq<u8>> {
    if well_formed(text) {
        Some(Seq::new(decoded_len(text), |j: int| decoded_byte(text, j)))
    } else {
        None
    }
}

/// The encoding of `input` ends with exactly `pad_len` pad bytes, and every byte
/// before them is a symbol that holds the 6-bit value at its position.
pub proof fn lemma_encoded_shape(input: Seq<u8>)
    ensures
        encoded(input).len() == encoded_len(input.len()),
        pad_count(encoded(input)) == pad_len(input.len()),
        pad_len(input.len()) <= 2,
        forall|k: int|
            0 <= k < symbol_count(input.len()) ==> {
                &&& is_symbol(#[trigger] encoded(input)[k])
                &&& encoded(input)[k] != PAD_BYTE
                &&& symbol_value(encoded(input)[k]) == sextet(input, k)
            },
        forall|k: int|
            symbol_count(input.len()) <= k < encoded(input).len() ==> #[trigger] encoded(input)[k]
                == PAD_BYTE,
        well_formed(encoded(input)),
{
    let n = input.len();
    let text = encoded(input);
    lemma_lengths(n);
    assert forall|k: int| 0 <= k < symbol_count(n) implies {
        &&& is_symbol(#[trigger] text[k])
        &&& text[k] != PAD_BYTE
        &&& symbol_value(text[k]) == sextet(input, k)
    } by {
        assert(text[k] == symbol(sextet(input, k)));
        lemma_symbol_reads_back(sextet(input, k));
    }
    if n % 3 == 0 && n > 0 {
        assert(text[text.len() - 1] != PAD_BYTE);
    } else if n % 3 == 1 {
        assert(text[text.len() - 1] == PAD_BYTE);
        assert(text[text.len() - 2] == PAD_BYTE);
    } else if n % 3 == 2 {
        assert(text[text.len() - 1] == PAD_BYTE);
        assert(text[text.len() - 2] != PAD_BYTE);
    }
}

/// The 6-bit values past the last symbol of a partial group hold no input bit.
pub proof fn lemma_sextets_past_input(input: Seq<u8>, k: int)
    requires
        symbol_count(input.len()) <= k < encoded_len(input.len()),
    ensures
        sextet(input, k) == 0,
{
    lemma_lengths(input.len());
}

/// Two neighbouring 6-bit values hold every byte of the input between them.
pub proof fn lemma_byte_from_sextets(input: Seq<u8>, j: int)
    requires
        0 <= j < input.len(),
    ensures
        j % 3 == 0 ==> input[j] == sextet(input, 4 * (j / 3)) * 4 + sextet(input, 4 * (j / 3) + 1)
            / 16,
        j % 3 == 1 ==> input[j] == (sextet(input, 4 * (j / 3) + 1) % 16) * 16 + sextet(
            input,
            4 * (j / 3) + 2,
        ) / 4,
        j % 3 == 2 ==> input[j] == (sextet(input, 4 * (j / 3) + 2) % 4) * 64 + sextet(
            input,
            4 * (j / 3) + 3,
        ),
{
    let g = j / 3;
    let b0 = byte_or_zero(input, 3 * g);
    let b1 = byte_or_zero(input, 3 * g + 1);
    let b2 = byte_or_zero(input, 3 * g + 2);
    assert(sextet(input, 4 * g) == b0 / 4);
    assert(sextet(input, 4 * g + 1) == (b0 % 4) * 16 + b1 / 16);
    assert(sextet(input, 4 * g + 2) == (b1 % 16) * 4 + b2 / 64);
    assert(sextet(input, 4 * g + 3) == b2 % 64);
}

/// At every position of the encoding stands the 6-bit value of that position.
pub proof fn lemma_values_are_sextets(input: Seq<u8>, k: int)
    requires
        0 <= k < encoded_len(input.len()),
    ensures
        value_at(encoded(input), k) == sextet(input, k),
{
    lemma_encoded_shape(input);
    if k < symbol_count(input.len()) {
        assert(symbol_value(encoded(input)[k]) == sextet(input, k));
    } else {
        assert(encoded(input)[k] == PAD_BYTE);
        lemma_sextets_past_input(input, k);
    }
}

/// Decoding the encoding of any `input` gives `input` back.
pub proof fn lemma_decode_encode(input: Seq<u8>)
    ensures
        decoded(encoded(input)) == Some(input),
{
    let n = input.len();
    let text = encoded(input);
    lemma_lengths(n);
    lemma_encoded_shape(input);
    assert(decoded_len(text) == n);
    let bytes = Seq::new(decoded_len(text), |j: int| decoded_byte(text, j));
    assert forall|j: int| 0 <= j < n implies bytes[j] == input[j] by {
        let k = 4 * (j / 3);
        lemma_values_are_sextets(input, k);
        lemma_values_are_sextets(input, k + 1);
        lemma_values_are_sextets(input, k + 2);
        lemma_values_are_sextets(input, k + 3);
        lemma_byte_from_sextets(input, j);
    }
    assert(bytes =~= input);
}

} // verus!
