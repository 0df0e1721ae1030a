//! Shifts and masks, stated as multiplication, division and remainder.

use vstd::prelude::*;

verus! {

/// Three bytes joined by shifts form their big-endian number.
pub proof fn lemma_join_bytes(b0: u32, b1: u32, b2: u32)
    by (bit_vector)
    requires
        b0 < 0x100,
        b1 < 0x100,
        b2 < 0x100,
    ensures
        (b0 << 16) | (b1 << 8) | b2 == b0 * 0x1_0000 + b1 * 0x100 + b2,
        (b0 << 16) | (b1 << 8) | b2 < 0x100_0000,
{
}

/// The base-64 digits of a three-byte number `v`, cut from its bytes one by one.
pub proof fn lemma_digits_by_bytes(v: u32, b0: u32, b1: u32, b2: u32)
    by (bit_vector)
    requires
        b0 < 0x100,
        b1 < 0x100,
        b2 < 0x100,
        v == b0 * 0x1_0000 + b1 * 0x100 + b2,
    ensures
        v / 0x4_0000 == b0 / 4,
        (v / 0x1000) % 64 == (b0 % 4) * 16 + b1 / 16,
        (v / 64) % 64 == (b1 % 16) * 4 + b2 / 64,
        v % 64 == b2 % 64,
{
}

/// The four 6-bit fields of a 24-bit number are its digits in base 64.
pub proof fn lemma_group_digits(v: u32)
    by (bit_vector)
    requires
        v < 0x100_0000,
    ensures
        (v >> 18) & 0x3f == v / 0x4_0000,
        (v >> 12) & 0x3f == (v / 0x1000) % 64,
        (v >> 6) & 0x3f == (v / 64) % 64,
        (v >> 0) & 0x3f == v % 64,
{
}

/// The 6-bit fields cut from the first two bytes of a group. With `b1 == 0` the
/// second field is the one cut from a single byte.
pub proof fn lemma_tail_digits(b0: u8, b1: u8)
    by (bit_vector)
    ensures
        (b0 >> 2) & 0x3f == b0 / 4,
        ((b0 << 4) | (b1 >> 4)) & 0x3f == (b0 % 4) * 16 + b1 / 16,
        (b1 << 2) & 0x3f == (b1 % 16) * 4,
        (b0 << 4) & 0x3f == (b0 % 4) * 16,
{
}

} // verus!
