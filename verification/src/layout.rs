//! Where a voxel lives in a segment buffer.
//!
//! A segment buffer holds the voxels of a box of chunks. Chunk `(cx, cy, cz)`
//! of a box `sx` by `sy` chunks per layer owns the 2048 words starting at
//! `(cx + cy*sx + cz*sx*sy) * 2048`; inside it block `(bx, by, bz)` (0..4
//! each) owns the 32 words starting at `(bx + by*4 + bz*16) * 32`; inside the
//! block voxel `(vx, vy, vz)` (0..4 each) has index `vx + vy*4 + vz*16` and
//! sits in the low half of word `index / 2` when the index is even, in the
//! high half when it is odd. Counting half-words instead of words, voxel
//! `(x, y, z)` is half-word `half_index(sx, sy, x, y, z)`.

use vstd::prelude::*;

use crate::bits::{lemma_pack_halves, lemma_word_bits};

use vstd::arithmetic::div_mod::{lemma_fundamental_div_mod_converse, lemma_div_denominator};

verus! {

/// Index of a block or voxel inside its parent from its three coordinates
/// (each 0..4).
pub open spec fn sub_index(a: int, b: int, c: int) -> int {
    a + b * 4 + c * 16
}

/// Index, in half-words from the start of its chunk, of the voxel at position
/// `(x, y, z)` (each 0..16) inside the chunk.
pub open spec fn chunk_half(x: int, y: int, z: int) -> int {
    sub_index(x / 4, y / 4, z / 4) * 64 + sub_index(x % 4, y % 4, z % 4)
}

/// Index of chunk `(cx, cy, cz)` of a box `sx` by `sy` chunks per layer.
pub open spec fn chunk_index(sx: int, sy: int, cx: int, cy: int, cz: int) -> int {
    cx + cy * sx + cz * (sx * sy)
}

/// Half-word index of voxel `(x, y, z)` (relative to the box's corner) in a
/// segment buffer over a box `sx` by `sy` chunks per layer.
pub open spec fn half_index(sx: int, sy: int, x: int, y: int, z: int) -> int {
    chunk_index(sx, sy, x / 16, y / 16, z / 16) * 4096 + chunk_half(x % 16, y % 16, z % 16)
}

/// Position inside its chunk (each 0..16) of the voxel at half-word `r`
/// (0..4096) of the chunk.
pub open spec fn chunk_local(r: int) -> (int, int, int) {
    let block = r / 64;
    let voxel = r % 64;
    (
        (block % 4) * 4 + voxel % 4,
        ((block / 4) % 4) * 4 + (voxel / 4) % 4,
        (block / 16) * 4 + voxel / 16,
    )
}

/// Position of the chunk with index `ch` in a box `sx` by `sy` chunks per
/// layer.
pub open spec fn chunk_pos(sx: int, sy: int, ch: int) -> (int, int, int) {
    (ch % sx, (ch / sx) % sy, ch / (sx * sy))
}

/// Position of the voxel at half-word `h` of a segment buffer over a box `sx`
/// by `sy` chunks per layer whose corner chunk is `offset`.
pub open spec fn half_pos(sx: int, sy: int, offset: [u32; 3], h: int) -> (int, int, int) {
    let c = chunk_pos(sx, sy, h / 4096);
    let l = chunk_local(h % 4096);
    (
        (offset[0] + c.0) * 16 + l.0,
        (offset[1] + c.1) * 16 + l.1,
        (offset[2] + c.2) * 16 + l.2,
    )
}

/// The low half of `buf[h / 2]` when `h` is even, the high half when odd.
pub open spec fn half_at(buf: Seq<u32>, h: int) -> u16 {
    if h % 2 == 0 {
        (buf[h / 2] % 65536) as u16
    } else {
        (buf[h / 2] / 65536) as u16
    }
}

/// A word holding `lo` in its low half and `hi` in its high half.
pub open spec fn pack_pair(lo: u16, hi: u16) -> u32 {
    (lo + hi * 65536) as u32
}

/// The word packing of two halves, as the bit operations compute it.
pub proof fn lemma_pack_pair_bits(lo: u16, hi: u16)
    ensures
        (lo as u32) | ((hi as u32) << 16) == pack_pair(lo, hi),
        pack_pair(lo, hi) % 65536 == lo,
        pack_pair(lo, hi) / 65536 == hi,
{
    lemma_pack_halves(lo, hi);
}

/// The halves of a word, as the bit operations compute them.
pub proof fn lemma_split_pair_bits(w: u32)
    ensures
        (w & 0xFFFF) == w % 65536,
        ((w >> 16) & 0xFFFF) == w / 65536,
        w == pack_pair((w % 65536) as u16, (w / 65536) as u16),
{
    lemma_word_bits(w);
}

/// Inside a chunk, `chunk_half` and `chunk_local` are inverse to each other.
pub proof fn lemma_chunk_half_local(x: int, y: int, z: int)
    requires
        0 <= x < 16,
        0 <= y < 16,
        0 <= z < 16,
    ensures
        0 <= chunk_half(x, y, z) < 4096,
        chunk_local(chunk_half(x, y, z)) == (x, y, z),
{
    let block = sub_index(x / 4, y / 4, z / 4);
    let voxel = sub_index(x % 4, y % 4, z % 4);
    let r = chunk_half(x, y, z);
    lemma_fundamental_div_mod_converse(r, 64, block, voxel);
    lemma_fundamental_div_mod_converse(block, 4, (y / 4) + (z / 4) * 4, x / 4);
    lemma_fundamental_div_mod_converse(block / 4, 4, z / 4, y / 4);
    lemma_fundamental_div_mod_converse(block, 16, z / 4, x / 4 + (y / 4) * 4);
    lemma_fundamental_div_mod_converse(voxel, 4, (y % 4) + (z % 4) * 4, x % 4);
    lemma_fundamental_div_mod_converse(voxel / 4, 4, z % 4, y % 4);
    lemma_fundamental_div_mod_converse(voxel, 16, z % 4, x % 4 + (y % 4) * 4);
}

/// Every half-word of a chunk is the half-word of a voxel of the chunk.
pub proof fn lemma_chunk_local_half(r: int)
    requires
        0 <= r < 4096,
    ensures
        0 <= chunk_local(r).0 < 16,
        0 <= chunk_local(r).1 < 16,
        0 <= chunk_local(r).2 < 16,
        chunk_half(chunk_local(r).0, chunk_local(r).1, chunk_local(r).2) == r,
{
    let block = r / 64;
    let voxel = r % 64;
    let (x, y, z) = chunk_local(r);
    lemma_fundamental_div_mod_converse(x, 4, block % 4, voxel % 4);
    lemma_fundamental_div_mod_converse(y, 4, (block / 4) % 4, (voxel / 4) % 4);
    lemma_fundamental_div_mod_converse(z, 4, block / 16, voxel / 16);
    assert(block == block % 4 + ((block / 4) % 4) * 4 + (block / 16) * 16) by {
        lemma_div_denominator(block, 4, 4);
    }
    assert(voxel == voxel % 4 + ((voxel / 4) % 4) * 4 + (voxel / 16) * 16) by {
        lemma_div_denominator(voxel, 4, 4);
    }
}

/// Chunk indices and chunk positions are inverse to each other.
pub proof fn lemma_chunk_index_pos(sx: int, sy: int, cx: int, cy: int, cz: int)
    requires
        0 <= cx < sx,
        0 <= cy < sy,
        0 <= cz,
    ensures
        0 <= chunk_index(sx, sy, cx, cy, cz),
        chunk_pos(sx, sy, chunk_index(sx, sy, cx, cy, cz)) == (cx, cy, cz),
{
    let ch = chunk_index(sx, sy, cx, cy, cz);
    assert(ch == (cy + cz * sy) * sx + cx) by (nonlinear_arith)
        requires
            ch == cx + cy * sx + cz * (sx * sy),
    ;
    assert(0 <= cy + cz * sy) by (nonlinear_arith)
        requires
            0 <= cy,
            0 <= cz,
            0 < sy,
    ;
    lemma_fundamental_div_mod_converse(ch, sx, cy + cz * sy, cx);
    lemma_fundamental_div_mod_converse(cy + cz * sy, sy, cz, cy);
    lemma_div_denominator(ch, sx, sy);
}

/// Every chunk index below the box's chunk count names a chunk of the box.
pub proof fn lemma_chunk_pos_index(sx: int, sy: int, sz: int, ch: int)
    requires
        0 < sx,
        0 < sy,
        0 <= ch < sx * sy * sz,
    ensures
        0 <= chunk_pos(sx, sy, ch).0 < sx,
        0 <= chunk_pos(sx, sy, ch).1 < sy,
        0 <= chunk_pos(sx, sy, ch).2 < sz,
        chunk_index(sx, sy, chunk_pos(sx, sy, ch).0, chunk_pos(sx, sy, ch).1, chunk_pos(sx, sy, ch).2)
            == ch,
{
    lemma_chunk_pos_index_open(sx, sy, ch);
    let (cx, cy, cz) = chunk_pos(sx, sy, ch);
    assert(0 < sx * sy) by (nonlinear_arith)
        requires
            0 < sx,
            0 < sy,
    ;
    assert(cz < sz) by {
        let m = sx * sy;
        vstd::arithmetic::div_mod::lemma_fundamental_div_mod(ch, m);
        vstd::arithmetic::div_mod::lemma_mod_pos_bound(ch, m);
        assert(cz == ch / m);
        if cz >= sz {
            assert(m * cz >= m * sz) by (nonlinear_arith)
                requires
                    cz >= sz,
                    m > 0,
            ;
            assert(m * sz == sx * sy * sz) by (nonlinear_arith)
                requires
                    m == sx * sy,
            ;
        }
    }
}

/// Chunk positions of non-negative indices recompose to the index.
pub proof fn lemma_chunk_pos_index_open(sx: int, sy: int, ch: int)
    requires
        0 < sx,
        0 < sy,
        0 <= ch,
    ensures
        0 <= chunk_pos(sx, sy, ch).0 < sx,
        0 <= chunk_pos(sx, sy, ch).1 < sy,
        0 <= chunk_pos(sx, sy, ch).2,
        chunk_index(sx, sy, chunk_pos(sx, sy, ch).0, chunk_pos(sx, sy, ch).1, chunk_pos(sx, sy, ch).2)
            == ch,
{
    let (cx, cy, cz) = chunk_pos(sx, sy, ch);
    let q = ch / sx;
    vstd::arithmetic::div_mod::lemma_fundamental_div_mod(ch, sx);
    vstd::arithmetic::div_mod::lemma_fundamental_div_mod(q, sy);
    vstd::arithmetic::div_mod::lemma_div_pos_is_pos(ch, sx);
    vstd::arithmetic::div_mod::lemma_div_pos_is_pos(q, sy);
    lemma_div_denominator(ch, sx, sy);
    assert(ch == cx + cy * sx + cz * (sx * sy)) by (nonlinear_arith)
        requires
            ch == sx * q + cx,
            q == sy * (q / sy) + cy,
            cz == q / sy,
    ;
}

/// The position of a voxel's half-word is the voxel (shifted by the box's
/// corner).
pub proof fn lemma_half_index_pos(sx: int, sy: int, offset: [u32; 3], x: int, y: int, z: int)
    requires
        0 <= x < sx * 16,
        0 <= y < sy * 16,
        0 <= z,
    ensures
        0 <= half_index(sx, sy, x, y, z),
        half_pos(sx, sy, offset, half_index(sx, sy, x, y, z)) == (
            offset[0] * 16 + x,
            offset[1] * 16 + y,
            offset[2] * 16 + z,
        ),
{
    let ch = chunk_index(sx, sy, x / 16, y / 16, z / 16);
    let r = chunk_half(x % 16, y % 16, z % 16);
    lemma_chunk_index_pos(sx, sy, x / 16, y / 16, z / 16);
    lemma_chunk_half_local(x % 16, y % 16, z % 16);
    lemma_fundamental_div_mod_converse(half_index(sx, sy, x, y, z), 4096, ch, r);
}

/// Every half-word of a buffer over a box of `sx*sy*sz` chunks is the
/// half-word of exactly one voxel of the box.
pub proof fn lemma_half_pos_index(sx: int, sy: int, sz: int, h: int)
    requires
        0 < sx,
        0 < sy,
        0 <= h < sx * sy * sz * 4096,
    ensures
        ({
            let p = half_pos(sx, sy, [0u32, 0u32, 0u32], h);
            &&& 0 <= p.0 < sx * 16
            &&& 0 <= p.1 < sy * 16
            &&& 0 <= p.2 < sz * 16
            &&& half_index(sx, sy, p.0, p.1, p.2) == h
        }),
{
    let ch = h / 4096;
    let r = h % 4096;
    assert(ch < sx * sy * sz) by {
        vstd::arithmetic::div_mod::lemma_div_by_multiple_is_strongly_ordered(h, sx * sy * sz * 4096, sx * sy * sz, 4096);
        vstd::arithmetic::div_mod::lemma_div_multiples_vanish(sx * sy * sz, 4096);
        assert(sx * sy * sz * 4096 == 4096 * (sx * sy * sz)) by (nonlinear_arith);
        if ch >= sx * sy * sz {
            vstd::arithmetic::div_mod::lemma_div_is_ordered(4096 * (sx * sy * sz), h, 4096);
        }
    }
    lemma_chunk_pos_index(sx, sy, sz, ch);
    lemma_chunk_local_half(r);
    let (cx, cy, cz) = chunk_pos(sx, sy, ch);
    let (lx, ly, lz) = chunk_local(r);
    let p = half_pos(sx, sy, [0u32, 0u32, 0u32], h);
    assert(p == (cx * 16 + lx, cy * 16 + ly, cz * 16 + lz));
    lemma_fundamental_div_mod_converse(p.0, 16, cx, lx);
    lemma_fundamental_div_mod_converse(p.1, 16, cy, ly);
    lemma_fundamental_div_mod_converse(p.2, 16, cz, lz);
    vstd::arithmetic::div_mod::lemma_fundamental_div_mod(h, 4096);
}

} // verus!
