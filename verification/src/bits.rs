//! The bit-field facts the word encodings rest on, stated once as integer
//! arithmetic.

use vstd::prelude::*;

verus! {

/// The fields of a 32-bit cell word: bit 31, bit 30, the 30-bit payload, the
/// top two bits, the low 15 bits, the two 2-bit material codes, and the two
/// 16-bit halves with their bit 15 and low 15 bits.
pub proof fn lemma_word_bits(w: u32)
    by (bit_vector)
    ensures
        ((w & 0x8000_0000) != 0) == (w >= 0x8000_0000),
        ((w & 0x8000_0000) == 0) == (w < 0x8000_0000),
        ((w & 0x4000_0000) != 0) == (w % 0x8000_0000 >= 0x4000_0000),
        w & 0x3FFF_FFFF == w % 0x4000_0000,
        w >> 30 == w / 0x4000_0000,
        w & 0x7FFF == w % 0x8000,
        w & 0x3 == w % 4,
        w & 0xFFFF == w % 0x1_0000,
        (w >> 16) & 0xFFFF == w / 0x1_0000,
        (w >> 16) & 0x7FFF == (w / 0x1_0000) % 0x8000,
        ((w & 0x8000) != 0) == (w % 0x1_0000 >= 0x8000),
{
}

/// The fields of a 16-bit voxel cell: bit 15 and the low 15 bits, and the
/// cell of a full voxel.
pub proof fn lemma_half_bits(h: u16)
    by (bit_vector)
    ensures
        ((h & 0x8000) != 0) == (h >= 0x8000),
        h & 0x7FFF == h % 0x8000,
        h >= 0x8000 ==> h & 0x7FFF == (h - 0x8000) as u16,
        0x8000 | (h & 0x7FFF) == (0x8000 + h % 0x8000) as u16,
{
}

/// Two halves packed into one word: `lo` in bits 0..16, `hi` in 16..32.
pub proof fn lemma_pack_halves(lo: u16, hi: u16)
    by (bit_vector)
    ensures
        (lo as u32) | ((hi as u32) << 16) == (lo + hi * 65536) as u32,
        lo + hi * 65536 <= u32::MAX,
{
}

/// A 2-bit tag over a 30-bit payload.
pub proof fn lemma_tag_word(tag: u32, payload: u32)
    by (bit_vector)
    requires
        tag < 4,
        payload < 0x4000_0000,
    ensures
        (tag << 30) | payload == tag * 0x4000_0000 + payload,
        0x4000_0000 | payload == 0x4000_0000 + payload,
        0x8000_0000 | payload == 0x8000_0000 + payload,
{
}

/// Setting a flag bit above every bit already set adds it.
pub proof fn lemma_or_higher_bit(f: u32, bit: u32)
    by (bit_vector)
    requires
        bit == 1 || bit == 2 || bit == 4 || bit == 8 || bit == 16,
        f < bit,
    ensures
        f | bit == f + bit,
{
}

} // verus!
