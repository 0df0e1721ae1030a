//! The Base64 alphabet: sixty-four symbols and the pad byte.

use vstd::prelude::*;

verus! {

/// The byte that fills a final group of fewer than four symbols.
pub const PAD_BYTE: u8 = 0x3d;

/// The symbol for each 6-bit value, in order.
pub const BASE64_TABLE: [u8; 64] = [
    0x41, 0x42, 0x43, 0x44, 0x45, 0x46, 0x47, 0x48,  // ABCDEFGH
    0x49, 0x4a, 0x4b, 0x4c, 0x4d, 0x4e, 0x4f, 0x50,  // IJKLMNOP
    0x51, 0x52, 0x53, 0x54, 0x55, 0x56, 0x57, 0x58,  // QRSTUVWX
    0x59, 0x5a, 0x61, 0x62, 0x63, 0x64, 0x65, 0x66,  // YZabcdef
    0x67, 0x68, 0x69, 0x6a, 0x6b, 0x6c, 0x6d, 0x6e,  // ghijklmn
    0x6f, 0x70, 0x71, 0x72, 0x73, 0x74, 0x75, 0x76,  // opqrstuv
    0x77, 0x78, 0x79, 0x7a, 0x30, 0x31, 0x32, 0x33,  // wxyz0123
    0x34, 0x35, 0x36, 0x37, 0x38, 0x39, 0x2b, 0x2f,  // 456789+/
];

/// The symbol that stands for the 6-bit value `v`: `A`-`Z` for 0 to 25, `a`-`z` for
/// 26 to 51, `0`-`9` for 52 to 61, then `+` and `/`.
pub open spec fn symbol(v: int) -> u8 {
    if 0 <= v < 26 {
        (65 + v) as u8
    } else if 26 <= v < 52 {
        (97 + (v - 26)) as u8
    } else if 52 <= v < 62 {
        (48 + (v - 52)) as u8
    } else if v == 62 {
        43
    } else {
        47
    }
}

/// True when `c` is one of the sixty-four symbols.
pub open spec fn is_symbol(c: u8) -> bool {
    ||| 0x41 <= c <= 0x5a
    ||| 0x61 <= c <= 0x7a
    ||| 0x30 <= c <= 0x39
    ||| c == 0x2b
    ||| c == 0x2f
}

/// The 6-bit value that the symbol `c` stands for, and zero for any other byte.
pub open spec fn symbol_value(c: u8) -> int {
    if 0x41 <= c <= 0x5a {
        c - 0x41
    } else if 0x61 <= c <= 0x7a {
        c - 0x61 + 26
    } else if 0x30 <= c <= 0x39 {
        c - 0x30 + 52
    } else if c == 0x2b {
        62
    } else if c == 0x2f {
        63
    } else {
        0
    }
}

/// Every 6-bit value has a symbol of its own: an ASCII code, different from the pad
/// byte, from which the value can be read back.
pub proof fn lemma_symbol_reads_back(v: int)
    requires
        0 <= v < 64,
    ensures
        is_symbol(symbol(v)),
        symbol_value(symbol(v)) == v,
        symbol(v) != PAD_BYTE,
        symbol(v) < 0x80,
{
}

/// Looks the symbol of a 6-bit value up in the table.
pub(crate) fn symbol_of(v: usize) -> (s: u8)
    requires
        v < 64,
    ensures
        s == symbol(v as int),
{
    BASE64_TABLE[v]
}

} // verus!
