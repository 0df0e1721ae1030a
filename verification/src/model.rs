//! The mathematical model of Base64 encoding: lengths first, then contents.
//!
//! The input is read as one big-endian bit string. Every three bytes form a 24-bit
//! group, and every group yields four 6-bit values, most significant first. A final
//! group of one or two bytes is filled up with zero bits; its 6-bit values that hold
//! no input bit are not written as symbols but as pad bytes.

use vstd::prelude::*;
use crate::alphabet::{symbol, PAD_BYTE};
use crate::bits::lemma_digits_by_bytes;
use crate::text::is_ascii_bytes;

verus! {

/// Length of the padded encoding of `n` bytes: four bytes for every group of three
/// input bytes, a partial last group counting in full.
pub open spec fn encoded_len(n: nat) -> nat {
    4 * ((n + 2) / 3)
}

/// Number of alphabet symbols in the encoding of `n` bytes: one for every six bits
/// that hold at least one bit of the input.
pub open spec fn symbol_count(n: nat) -> nat {
    (8 * n + 5) / 6
}

/// Number of pad bytes in the encoding of `n` bytes.
pub open spec fn pad_len(n: nat) -> nat {
    ((3 - n % 3) % 3) as nat
}

/// The byte of `input` at position `i`, and zero beyond its end.
pub open spec fn byte_or_zero(input: Seq<u8>, i: int) -> int {
    if 0 <= i < input.len() {
        input[i] as int
    } else {
        0
    }
}

/// The 24-bit value of group `g`: its three bytes in big-endian order.
pub open spec fn group_value(input: Seq<u8>, g: int) -> int {
    byte_or_zero(input, 3 * g) * 0x1_0000 + byte_or_zero(input, 3 * g + 1) * 0x100 + byte_or_zero(
        input,
        3 * g + 2,
    )
}

/// The `k`-th 6-bit value of `input`: bits `6 * k` to `6 * k + 5` of the bit string,
/// which lie in group `k / 4` and are cut from at most two of its bytes.
pub open spec fn sextet(input: Seq<u8>, k: int) -> int {
    let b0 = byte_or_zero(input, 3 * (k / 4));
    let b1 = byte_or_zero(input, 3 * (k / 4) + 1);
    let b2 = byte_or_zero(input, 3 * (k / 4) + 2);
    if k % 4 == 0 {
        b0 / 4
    } else if k % 4 == 1 {
        (b0 % 4) * 16 + b1 / 16
    } else if k % 4 == 2 {
        (b1 % 16) * 4 + b2 / 64
    } else {
        b2 % 64
    }
}

/// The symbols of the encoding of `input`, without padding.
pub open spec fn symbols(input: Seq<u8>) -> Seq<u8> {
    Seq::new(symbol_count(input.len()), |k: int| symbol(sextet(input, k)))
}

/// The pad bytes that follow the symbols of an input of `n` bytes.
pub open spec fn padding(n: nat) -> Seq<u8> {
    Seq::new(pad_len(n), |k: int| PAD_BYTE)
}

/// The Base64 encoding of `input`: its symbols, then its padding.
pub open spec fn encoded(input: Seq<u8>) -> Seq<u8> {
    symbols(input) + padding(input.len())
}

/// How the three lengths depend on the input length modulo three.
pub proof fn lemma_lengths(n: nat)
    ensures
        encoded_len(n) == symbol_count(n) + pad_len(n),
        encoded_len(n) % 4 == 0,
        n % 3 == 0 ==> symbol_count(n) == 4 * (n / 3) && pad_len(n) == 0,
        n % 3 == 1 ==> symbol_count(n) == 4 * (n / 3) + 2 && pad_len(n) == 2,
        n % 3 == 2 ==> symbol_count(n) == 4 * (n / 3) + 3 && pad_len(n) == 1,
        encoded_len(n) == (if n % 3 == 0 {
            4 * (n / 3)
        } else {
            4 * (n / 3) + 4
        }),
{
}

/// The four 6-bit values of group `g` are the digits of its 24-bit value in base 64,
/// most significant first.
pub proof fn lemma_group_sextets(input: Seq<u8>, g: int)
    requires
        0 <= g,
    ensures
        0 <= group_value(input, g) < 0x100_0000,
        sextet(input, 4 * g) == group_value(input, g) / 0x4_0000,
        sextet(input, 4 * g + 1) == (group_value(input, g) / 0x1000) % 64,
        sextet(input, 4 * g + 2) == (group_value(input, g) / 64) % 64,
        sextet(input, 4 * g + 3) == group_value(input, g) % 64,
{
    let b0 = byte_or_zero(input, 3 * g) as u32;
    let b1 = byte_or_zero(input, 3 * g + 1) as u32;
    let b2 = byte_or_zero(input, 3 * g + 2) as u32;
    lemma_digits_by_bytes(group_value(input, g) as u32, b0, b1, b2);
}

/// The encoding has the length that `encoded_len` gives.
pub proof fn lemma_encoded_len(input: Seq<u8>)
    ensures
        encoded(input).len() == encoded_len(input.len()),
        encoded(input).len() % 4 == 0,
{
    lemma_lengths(input.len());
}

/// Every byte of the encoding is an ASCII code.
pub proof fn lemma_encoded_is_ascii(input: Seq<u8>)
    ensures
        is_ascii_bytes(encoded(input)),
{
}

} // verus!
