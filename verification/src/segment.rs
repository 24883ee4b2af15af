//! Building segment buffers from a dense volume, and decoding them back.
//!
//! A segment buffer is the `u32` stream `chunk_calc` reads: see
//! [`crate::layout`] for where each voxel lives in it. Each voxel is stored
//! as its 16-bit cell ([`crate::voxel::spec_voxel_cell`]); voxels outside the
//! volume are stored as 0.

use vstd::prelude::*;

use crate::layout::{
    chunk_half, chunk_index, chunk_local, half_at, half_index, half_pos, lemma_chunk_half_local,
    lemma_half_index_pos, lemma_half_pos_index, lemma_pack_pair_bits, lemma_split_pair_bits,
    pack_pair,
};
use crate::volume::{lemma_linear_index_bounds, linear_index, volume_size_fits, DenseVolume};
use crate::voxel::{decode_cell, lemma_cell_round_trip, spec_decode_cell, spec_voxel_cell, voxel_cell, VoxelTypeId};

verus! {

/// The cell stored for voxel `(x, y, z)`: its cell inside the volume, 0
/// outside it.
pub open spec fn cell_at(volume: &DenseVolume, x: int, y: int, z: int) -> u16 {
    if volume.in_bounds(x, y, z) {
        spec_voxel_cell(volume.voxel(x, y, z))
    } else {
        0
    }
}

/// The cell stored for the voxel at position `p`.
pub open spec fn cell_at_pos(volume: &DenseVolume, p: (int, int, int)) -> u16 {
    cell_at(volume, p.0, p.1, p.2)
}

/// Word `j` of the segment buffer over a box `sx` by `sy` chunks per layer
/// whose corner chunk is `offset`.
pub open spec fn segment_word(
    volume: &DenseVolume,
    sx: int,
    sy: int,
    offset: [u32; 3],
    j: int,
) -> u32 {
    pack_pair(
        cell_at_pos(volume, half_pos(sx, sy, offset, 2 * j)),
        cell_at_pos(volume, half_pos(sx, sy, offset, 2 * j + 1)),
    )
}

/// `buf` holds, at the half-word of each voxel of the `s`³-chunk box whose
/// corner chunk is `offset`, that voxel's cell in `volume`.
pub open spec fn encodes_segment(buf: Seq<u32>, volume: &DenseVolume, s: int, offset: [u32; 3]) -> bool {
    forall|x: int, y: int, z: int|
        0 <= x < s * 16 && 0 <= y < s * 16 && 0 <= z < s * 16 ==> #[trigger] half_at(
            buf,
            half_index(s, s, x, y, z),
        ) == cell_at(volume, offset[0] * 16 + x, offset[1] * 16 + y, offset[2] * 16 + z)
}

/// Every half-word `h` of `buf` is the cell of the voxel at `half_pos(h)`.
pub open spec fn segment_halves(buf: Seq<u32>, volume: &DenseVolume, sx: int, sy: int, offset: [u32; 3]) -> bool {
    forall|h: int|
        0 <= h < buf.len() * 2 ==> #[trigger] half_at(buf, h) == cell_at_pos(
            volume,
            half_pos(sx, sy, offset, h),
        )
}

/// Voxel `(x, y, z)` lies in the box of `group` chunks whose corner chunk is
/// `offset`.
pub open spec fn in_group(offset: [u32; 3], group: [u32; 3], x: int, y: int, z: int) -> bool {
    &&& offset[0] * 16 <= x < (offset[0] + group[0]) * 16
    &&& offset[1] * 16 <= y < (offset[1] + group[1]) * 16
    &&& offset[2] * 16 <= z < (offset[2] + group[2]) * 16
}

/// The type decoded for voxel `(x, y, z)` of the group box from the segment
/// buffer `buf`.
pub open spec fn decoded_type(buf: Seq<u32>, offset: [u32; 3], group: [u32; 3], x: int, y: int, z: int) -> VoxelTypeId {
    spec_decode_cell(
        half_at(
            buf,
            half_index(
                group[0] as int,
                group[1] as int,
                x - offset[0] * 16,
                y - offset[1] * 16,
                z - offset[2] * 16,
            ),
        ),
    )
}

/// `new` is `old` with every voxel of the group box that lies inside the
/// volume replaced by its type decoded from `buf`, if that voxel's half-word
/// comes before `limit`.
pub open spec fn decoded_into_upto(
    new: &DenseVolume,
    old: &DenseVolume,
    buf: Seq<u32>,
    offset: [u32; 3],
    group: [u32; 3],
    limit: int,
) -> bool {
    &&& new.wf()
    &&& new.size_in_chunks == old.size_in_chunks
    &&& forall|x: int, y: int, z: int|
        #![trigger new.voxel(x, y, z)]
        new.in_bounds(x, y, z) ==> new.voxel(x, y, z) == if in_group(offset, group, x, y, z)
            && half_index(
            group[0] as int,
            group[1] as int,
            x - offset[0] * 16,
            y - offset[1] * 16,
            z - offset[2] * 16,
        ) < limit {
            decoded_type(buf, offset, group, x, y, z)
        } else {
            old.voxel(x, y, z)
        }
}

/// `new` is `old` with every voxel of the group box that lies inside the
/// volume replaced by its type decoded from `buf`.
pub open spec fn decoded_into(
    new: &DenseVolume,
    old: &DenseVolume,
    buf: Seq<u32>,
    offset: [u32; 3],
    group: [u32; 3],
) -> bool {
    &&& new.wf()
    &&& new.size_in_chunks == old.size_in_chunks
    &&& forall|x: int, y: int, z: int|
        #![trigger new.voxel(x, y, z)]
        new.in_bounds(x, y, z) ==> new.voxel(x, y, z) == if in_group(offset, group, x, y, z) {
            decoded_type(buf, offset, group, x, y, z)
        } else {
            old.voxel(x, y, z)
        }
}

/// `back` is a volume of `group` chunks whose every voxel has the type decoded
/// from its half-word of `buf`.
pub open spec fn decodes_segment(back: &DenseVolume, buf: Seq<u32>, group: [u32; 3]) -> bool {
    &&& back.wf()
    &&& back.size_in_chunks == group
    &&& forall|x: int, y: int, z: int|
        back.in_bounds(x, y, z) ==> #[trigger] back.voxel(x, y, z) == decoded_type(
            buf,
            [0u32, 0u32, 0u32],
            group,
            x,
            y,
            z,
        )
}

/// The voxel at intra-block index `voxel_idx` (`vx + vy*4 + vz*16`) of block
/// `block` of chunk `chunk`, encoded as its 16-bit cell; positions outside the
/// volume read as empty (0).
pub fn voxel_at_block_local(
    volume: &DenseVolume,
    chunk: [usize; 3],
    block: [usize; 3],
    voxel_idx: usize,
) -> (cell: u16)
    requires
        volume.wf(),
        chunk[0] * 16 + block[0] * 4 + 3 <= usize::MAX,
        chunk[1] * 16 + block[1] * 4 + 3 <= usize::MAX,
        chunk[2] * 16 + block[2] * 4 + voxel_idx / 16 <= usize::MAX,
    ensures
        cell == cell_at(
            volume,
            chunk[0] * 16 + block[0] * 4 + voxel_idx % 4,
            chunk[1] * 16 + block[1] * 4 + (voxel_idx / 4) % 4,
            chunk[2] * 16 + block[2] * 4 + voxel_idx / 16,
        ),
{
    let vx = voxel_idx % 4;
    let vy = (voxel_idx / 4) % 4;
    let vz = voxel_idx / 16;
    let wx = chunk[0] * 16 + block[0] * 4 + vx;
    let wy = chunk[1] * 16 + block[1] * 4 + vy;
    let wz = chunk[2] * 16 + block[2] * 4 + vz;
    let size = volume.size_in_voxels();
    if wx >= size[0] as usize || wy >= size[1] as usize || wz >= size[2] as usize {
        return 0;
    }
    let ty = volume.voxel_at([wx as u32, wy as u32, wz as u32]);
    voxel_cell(ty)
}

/// Division facts that place the two halves of word `j` of a segment buffer.
proof fn lemma_word_halves(j: int, slot: int)
    requires
        0 <= j,
        0 <= slot < 2,
    ensures
        (2 * j + slot) / 4096 == j / 2048,
        (2 * j + slot) % 4096 == 2 * (j % 2048) + slot,
        (2 * (j % 2048) + slot) / 64 == (j % 2048) / 32,
        (2 * (j % 2048) + slot) % 64 == 2 * ((j % 2048) % 32) + slot,
        (2 * j + slot) / 2 == j,
        (2 * j + slot) % 2 == slot,
{
    let w = j % 2048;
    vstd::arithmetic::div_mod::lemma_fundamental_div_mod(j, 2048);
    vstd::arithmetic::div_mod::lemma_mod_pos_bound(j, 2048);
    vstd::arithmetic::div_mod::lemma_fundamental_div_mod_converse(
        2 * j + slot,
        4096,
        j / 2048,
        2 * w + slot,
    );
    vstd::arithmetic::div_mod::lemma_fundamental_div_mod(w, 32);
    vstd::arithmetic::div_mod::lemma_mod_pos_bound(w, 32);
    vstd::arithmetic::div_mod::lemma_fundamental_div_mod_converse(
        2 * w + slot,
        64,
        w / 32,
        2 * (w % 32) + slot,
    );
    vstd::arithmetic::div_mod::lemma_fundamental_div_mod_converse(2 * j + slot, 2, j, slot);
}

/// Word `word` (0..2048) of the segment block list of chunk `chunk`: the cells
/// of the two voxels it holds.
fn chunk_word(volume: &DenseVolume, chunk: [u32; 3], word: usize) -> (w: u32)
    requires
        volume.wf(),
        word < 2048,
        chunk[0] < volume.size_in_chunks[0],
        chunk[1] < volume.size_in_chunks[1],
        chunk[2] < volume.size_in_chunks[2],
    ensures
        w == pack_pair(
            cell_at(
                volume,
                chunk[0] * 16 + chunk_local(2 * word).0,
                chunk[1] * 16 + chunk_local(2 * word).1,
                chunk[2] * 16 + chunk_local(2 * word).2,
            ),
            cell_at(
                volume,
                chunk[0] * 16 + chunk_local(2 * word + 1).0,
                chunk[1] * 16 + chunk_local(2 * word + 1).1,
                chunk[2] * 16 + chunk_local(2 * word + 1).2,
            ),
        ),
{
    let block_index = word / 32;
    let vi = word % 32;
    let block = [block_index % 4, (block_index / 4) % 4, block_index / 16];
    let c = [chunk[0] as usize, chunk[1] as usize, chunk[2] as usize];
    proof {
        lemma_word_halves(word as int, 0);
        lemma_word_halves(word as int, 1);
        assert(word % 2048 == word);
        vstd::arithmetic::div_mod::lemma_fundamental_div_mod_converse(
            (2 * vi) as int,
            4,
            (vi / 2) as int,
            ((2 * vi) % 4) as int,
        );
    }
    let lo = voxel_at_block_local(volume, c, block, vi * 2);
    let hi = voxel_at_block_local(volume, c, block, vi * 2 + 1);
    proof {
        lemma_pack_pair_bits(lo, hi);
    }
    (lo as u32) | ((hi as u32) << 16)
}

/// The segment words of `chunk_count` chunks of a box `sx` by `sy` chunks per
/// layer whose corner chunk is `offset`.
fn segment_words(
    volume: &DenseVolume,
    chunk_count: usize,
    sx: usize,
    sy: usize,
    offset: [u32; 3],
) -> (out: Vec<u32>)
    requires
        volume.wf(),
        sx > 0,
        sy > 0,
        chunk_count * 2048 <= usize::MAX,
    ensures
        out@.len() == chunk_count * 2048,
        forall|j: int|
            0 <= j < out@.len() ==> #[trigger] out@[j] == segment_word(
                volume,
                sx as int,
                sy as int,
                offset,
                j,
            ),
{
    let total = chunk_count * 2048;
    let mut out: Vec<u32> = Vec::new();
    let mut i: usize = 0;
    while i < total
        invariant
            volume.wf(),
            sx > 0,
            sy > 0,
            total == chunk_count * 2048,
            i <= total,
            out@.len() == i,
            forall|j: int|
                0 <= j < i ==> #[trigger] out@[j] == segment_word(
                    volume,
                    sx as int,
                    sy as int,
                    offset,
                    j,
                ),
        decreases total - i,
    {
        let ch = i / 2048;
        let word = i % 2048;
        let lcx = ch % sx;
        let lcy = (ch / sx) % sy;
        let lcz = (ch / sx) / sy;
        proof {
            vstd::arithmetic::div_mod::lemma_div_denominator(ch as int, sx as int, sy as int);
            vstd::arithmetic::div_mod::lemma_mod_decreases(ch as nat, sx as nat);
            vstd::arithmetic::div_mod::lemma_div_nonincreasing(ch as int, sx as int);
            vstd::arithmetic::div_mod::lemma_mod_decreases((ch / sx) as nat, sy as nat);
            vstd::arithmetic::div_mod::lemma_div_nonincreasing((ch / sx) as int, sy as int);
            assert(ch <= usize::MAX / 2048);
        }
        let cx = offset[0] as u64 + lcx as u64;
        let cy = offset[1] as u64 + lcy as u64;
        let cz = offset[2] as u64 + lcz as u64;
        let w = if cx < volume.size_in_chunks[0] as u64 && cy < volume.size_in_chunks[1] as u64
            && cz < volume.size_in_chunks[2] as u64 {
            chunk_word(volume, [cx as u32, cy as u32, cz as u32], word)
        } else {
            0
        };
        proof {
            lemma_word_halves(i as int, 0);
            lemma_word_halves(i as int, 1);
            let p0 = half_pos(sx as int, sy as int, offset, 2 * i);
            let p1 = half_pos(sx as int, sy as int, offset, 2 * i + 1);
            assert(p0 == (
                cx * 16 + chunk_local(2 * word).0,
                cy * 16 + chunk_local(2 * word).1,
                cz * 16 + chunk_local(2 * word).2,
            ));
            assert(p1 == (
                cx * 16 + chunk_local(2 * word + 1).0,
                cy * 16 + chunk_local(2 * word + 1).1,
                cz * 16 + chunk_local(2 * word + 1).2,
            ));
            if !(cx < volume.size_in_chunks[0] && cy < volume.size_in_chunks[1]
                && cz < volume.size_in_chunks[2]) {
                assert(cell_at_pos(volume, p0) == 0);
                assert(cell_at_pos(volume, p1) == 0);
                assert(pack_pair(0, 0) == 0);
            }
            assert(w == segment_word(volume, sx as int, sy as int, offset, i as int));
        }
        out.push(w);
        i += 1;
    }
    out
}

/// A buffer of segment words holds, at every half-word, the cell of the voxel
/// at that half-word's position.
proof fn lemma_words_to_halves(
    buf: Seq<u32>,
    volume: &DenseVolume,
    sx: int,
    sy: int,
    offset: [u32; 3],
)
    requires
        forall|j: int|
            0 <= j < buf.len() ==> #[trigger] buf[j] == segment_word(volume, sx, sy, offset, j),
    ensures
        segment_halves(buf, volume, sx, sy, offset),
{
    assert forall|h: int| 0 <= h < buf.len() * 2 implies #[trigger] half_at(buf, h) == cell_at_pos(
        volume,
        half_pos(sx, sy, offset, h),
    ) by {
        let j = h / 2;
        let slot = h % 2;
        vstd::arithmetic::div_mod::lemma_fundamental_div_mod(h, 2);
        assert(h == 2 * j + slot);
        assert(buf[j] == segment_word(volume, sx, sy, offset, j));
        lemma_pack_pair_bits(
            cell_at_pos(volume, half_pos(sx, sy, offset, 2 * j)),
            cell_at_pos(volume, half_pos(sx, sy, offset, 2 * j + 1)),
        );
    }
}

/// In a buffer over an `s`³-chunk box that holds every voxel's cell at its
/// half-word, the half-word of each voxel of the box is that voxel's cell.
proof fn lemma_halves_to_voxels(buf: Seq<u32>, volume: &DenseVolume, s: int, offset: [u32; 3])
    requires
        s > 0,
        buf.len() == s * s * s * 2048,
        segment_halves(buf, volume, s, s, offset),
    ensures
        encodes_segment(buf, volume, s, offset),
{
    assert forall|x: int, y: int, z: int|
        0 <= x < s * 16 && 0 <= y < s * 16 && 0 <= z < s * 16 implies #[trigger] half_at(
        buf,
        half_index(s, s, x, y, z),
    ) == cell_at(volume, offset[0] * 16 + x, offset[1] * 16 + y, offset[2] * 16 + z) by {
        lemma_half_index_pos(s, s, offset, x, y, z);
        lemma_half_index_pos(s, s, [0u32, 0u32, 0u32], x, y, z);
        let h = half_index(s, s, x, y, z);
        lemma_half_index_bound(s, s, s, x, y, z);
    }
}

/// The half-word of a voxel of a box lies inside the buffer over the box.
pub proof fn lemma_half_index_bound(sx: int, sy: int, sz: int, x: int, y: int, z: int)
    requires
        0 <= x < sx * 16,
        0 <= y < sy * 16,
        0 <= z < sz * 16,
    ensures
        0 <= half_index(sx, sy, x, y, z) < sx * sy * sz * 4096,
{
    lemma_chunk_half_local(x % 16, y % 16, z % 16);
    let cx = x / 16;
    let cy = y / 16;
    let cz = z / 16;
    vstd::arithmetic::div_mod::lemma_fundamental_div_mod(x, 16);
    vstd::arithmetic::div_mod::lemma_fundamental_div_mod(y, 16);
    vstd::arithmetic::div_mod::lemma_fundamental_div_mod(z, 16);
    assert(cx < sx && cy < sy && cz < sz) by (nonlinear_arith)
        requires
            x == 16 * cx + x % 16,
            y == 16 * cy + y % 16,
            z == 16 * cz + z % 16,
            0 <= x % 16,
            0 <= y % 16,
            0 <= z % 16,
            x < sx * 16,
            y < sy * 16,
            z < sz * 16,
    ;
    assert(0 <= cx && 0 <= cy && 0 <= cz);
    lemma_linear_index_bounds(sx, sy, sz, cx, cy, cz);
    let ch = chunk_index(sx, sy, cx, cy, cz);
    assert(ch == linear_index(sx, sy, cx, cy, cz));
    assert(ch * 4096 + 4096 <= sx * sy * sz * 4096) by (nonlinear_arith)
        requires
            ch + 1 <= sx * sy * sz,
    ;
}

/// Build the segment buffer of a cubic segment of `segment_size_in_chunks`
/// chunks per axis at the volume's corner.
///
/// The buffer holds `segment_size_in_chunks³ * 2048` words; the half-word of
/// each voxel of the segment holds that voxel's cell, 0 where the segment
/// extends past the volume.
pub fn build_segment_voxel_buffer(volume: &DenseVolume, segment_size_in_chunks: u32) -> (out: Vec<u32>)
    requires
        volume.wf(),
        segment_size_in_chunks * segment_size_in_chunks * segment_size_in_chunks * 2048
            <= usize::MAX,
    ensures
        out@.len() == segment_size_in_chunks * segment_size_in_chunks * segment_size_in_chunks
            * 2048,
        segment_halves(
            out@,
            volume,
            segment_size_in_chunks as int,
            segment_size_in_chunks as int,
            [0u32, 0u32, 0u32],
        ),
        encodes_segment(out@, volume, segment_size_in_chunks as int, [0u32, 0u32, 0u32]),
{
    build_segment_voxel_buffer_for_region(volume, [0, 0, 0], segment_size_in_chunks)
}

/// Build the segment buffer of the cubic segment of `segment_size_in_chunks`
/// chunks per axis whose corner chunk is `chunk_offset`. Chunks of the segment
/// that lie outside the volume are left zero.
pub fn build_segment_voxel_buffer_for_region(
    volume: &DenseVolume,
    chunk_offset: [u32; 3],
    segment_size_in_chunks: u32,
) -> (out: Vec<u32>)
    requires
        volume.wf(),
        segment_size_in_chunks * segment_size_in_chunks * segment_size_in_chunks * 2048
            <= usize::MAX,
    ensures
        out@.len() == segment_size_in_chunks * segment_size_in_chunks * segment_size_in_chunks
            * 2048,
        segment_halves(
            out@,
            volume,
            segment_size_in_chunks as int,
            segment_size_in_chunks as int,
            chunk_offset,
        ),
        encodes_segment(out@, volume, segment_size_in_chunks as int, chunk_offset),
{
    let seg = segment_size_in_chunks as usize;
    if seg == 0 {
        let out: Vec<u32> = Vec::new();
        return out;
    }
    assert(seg * seg * seg * 2048 == segment_size_in_chunks * segment_size_in_chunks
        * segment_size_in_chunks * 2048);
    assert(seg * seg * seg <= seg * seg * seg * 2048);
    assert(seg * seg <= seg * seg * seg) by (nonlinear_arith)
        requires
            seg >= 1,
    ;
    let count = seg * seg * seg;
    let out = segment_words(volume, count, seg, seg, chunk_offset);
    proof {
        lemma_words_to_halves(out@, volume, seg as int, seg as int, chunk_offset);
        lemma_halves_to_voxels(out@, volume, seg as int, chunk_offset);
    }
    out
}

/// Build the segment buffer of the volume's own chunk box, indexed as a box
/// of `segment_size_in_chunks` chunks per axis (`chunk_index = cx + cy*S +
/// cz*S*S`), sized to end at the volume's last chunk. Words of chunks outside
/// the volume are zero.
pub fn build_segment_voxel_buffer_for_world(volume: &DenseVolume, segment_size_in_chunks: u32) -> (out: Vec<u32>)
    requires
        volume.wf(),
        volume.size_in_chunks[0] >= 1,
        volume.size_in_chunks[1] >= 1,
        volume.size_in_chunks[2] >= 1,
        volume.size_in_chunks[0] <= segment_size_in_chunks,
        volume.size_in_chunks[1] <= segment_size_in_chunks,
        (chunk_index(
            segment_size_in_chunks as int,
            segment_size_in_chunks as int,
            volume.size_in_chunks[0] - 1,
            volume.size_in_chunks[1] - 1,
            volume.size_in_chunks[2] - 1,
        ) + 1) * 2048 <= usize::MAX,
    ensures
        out@.len() == (chunk_index(
            segment_size_in_chunks as int,
            segment_size_in_chunks as int,
            volume.size_in_chunks[0] - 1,
            volume.size_in_chunks[1] - 1,
            volume.size_in_chunks[2] - 1,
        ) + 1) * 2048,
        segment_halves(
            out@,
            volume,
            segment_size_in_chunks as int,
            segment_size_in_chunks as int,
            [0u32, 0u32, 0u32],
        ),
        forall|x: int, y: int, z: int|
            volume.in_bounds(x, y, z) ==> #[trigger] half_at(
                out@,
                half_index(segment_size_in_chunks as int, segment_size_in_chunks as int, x, y, z),
            ) == spec_voxel_cell(volume.voxel(x, y, z)),
{
    let seg = segment_size_in_chunks as usize;
    let sc0 = volume.size_in_chunks[0] as usize;
    let sc1 = volume.size_in_chunks[1] as usize;
    let sc2 = volume.size_in_chunks[2] as usize;
    let ghost m = chunk_index(seg as int, seg as int, sc0 - 1, sc1 - 1, sc2 - 1);
    proof {
        assert(0 <= (sc1 - 1) * seg) by (nonlinear_arith)
            requires
                sc1 >= 1,
        ;
        assert(0 <= (sc2 - 1) * (seg * seg)) by (nonlinear_arith)
            requires
                sc2 >= 1,
        ;
        assert((sc2 - 1) * seg * seg == (sc2 - 1) * (seg * seg)) by (nonlinear_arith);
        assert(0 <= (sc2 - 1) * seg <= (sc2 - 1) * seg * seg) by (nonlinear_arith)
            requires
                sc2 >= 1,
                seg >= 1,
        ;
    }
    let max_chunk_idx = (sc0 - 1) + (sc1 - 1) * seg + (sc2 - 1) * seg * seg;
    let out = segment_words(volume, max_chunk_idx + 1, seg, seg, [0, 0, 0]);
    proof {
        lemma_words_to_halves(out@, volume, seg as int, seg as int, [0u32, 0u32, 0u32]);
        assert forall|x: int, y: int, z: int| volume.in_bounds(x, y, z) implies #[trigger] half_at(
            out@,
            half_index(seg as int, seg as int, x, y, z),
        ) == spec_voxel_cell(volume.voxel(x, y, z)) by {
            lemma_half_index_pos(seg as int, seg as int, [0u32, 0u32, 0u32], x, y, z);
            let cx = x / 16;
            let cy = y / 16;
            let cz = z / 16;
            vstd::arithmetic::div_mod::lemma_fundamental_div_mod(x, 16);
            vstd::arithmetic::div_mod::lemma_fundamental_div_mod(y, 16);
            vstd::arithmetic::div_mod::lemma_fundamental_div_mod(z, 16);
            assert(0 <= cx < sc0 && 0 <= cy < sc1 && 0 <= cz < sc2) by (nonlinear_arith)
                requires
                    x == 16 * cx + x % 16,
                    y == 16 * cy + y % 16,
                    z == 16 * cz + z % 16,
                    0 <= x % 16 < 16,
                    0 <= y % 16 < 16,
                    0 <= z % 16 < 16,
                    0 <= x < sc0 * 16,
                    0 <= y < sc1 * 16,
                    0 <= z < sc2 * 16,
            ;
            let ch = chunk_index(seg as int, seg as int, cx, cy, cz);
            assert(0 <= ch <= m) by (nonlinear_arith)
                requires
                    ch == cx + cy * seg + cz * (seg * seg),
                    m == (sc0 - 1) + (sc1 - 1) * seg + (sc2 - 1) * (seg * seg),
                    0 <= cx <= sc0 - 1,
                    0 <= cy <= sc1 - 1,
                    0 <= cz <= sc2 - 1,
                    seg >= 1,
            ;
            lemma_chunk_half_local(x % 16, y % 16, z % 16);
            assert(half_index(seg as int, seg as int, x, y, z) < (m + 1) * 4096) by (nonlinear_arith)
                requires
                    half_index(seg as int, seg as int, x, y, z) == ch * 4096 + chunk_half(x % 16, y % 16, z % 16),
                    chunk_half(x % 16, y % 16, z % 16) < 4096,
                    ch <= m,
            ;
        }
    }
    out
}

/// Decode a segment buffer over a box of `group_size_in_chunks` chunks whose
/// corner chunk is `chunk_offset`, and stamp each decoded voxel that lies
/// inside `volume` into it; the volume's other voxels are left unchanged.
pub fn decode_segment_voxels_into_volume(
    seg_buf: &[u32],
    chunk_offset: [u32; 3],
    group_size_in_chunks: [u32; 3],
    volume: &mut DenseVolume,
)
    requires
        old(volume).wf(),
        group_size_in_chunks[0] * group_size_in_chunks[1] * group_size_in_chunks[2] * 2048
            <= seg_buf@.len(),
        (chunk_offset[0] + group_size_in_chunks[0]) * 16 <= usize::MAX,
        (chunk_offset[1] + group_size_in_chunks[1]) * 16 <= usize::MAX,
        (chunk_offset[2] + group_size_in_chunks[2]) * 16 <= usize::MAX,
    ensures
        decoded_into(final(volume), old(volume), seg_buf@, chunk_offset, group_size_in_chunks),
{
    let ghost orig = *volume;
    let gx = group_size_in_chunks[0] as usize;
    let gy = group_size_in_chunks[1] as usize;
    let gz = group_size_in_chunks[2] as usize;
    if gx == 0 || gy == 0 || gz == 0 {
        return;
    }
    let buf_len = seg_buf.len();
    proof {
        assert(gx * gy <= gx * gy * gz) by (nonlinear_arith)
            requires
                gz >= 1,
                gx >= 1,
                gy >= 1,
        ;
        assert(gx * gy * gz <= gx * gy * gz * 2048);
        assert(gx * gy * gz * 2048 <= seg_buf@.len());
        assert(buf_len == seg_buf@.len());
    }
    let total = gx * gy * gz * 2048;
    let mut j: usize = 0;
    while j < total
        invariant
            gx == group_size_in_chunks[0],
            gy == group_size_in_chunks[1],
            gz == group_size_in_chunks[2],
            gx > 0,
            gy > 0,
            gz > 0,
            total == gx * gy * gz * 2048,
            total <= seg_buf@.len(),
            j <= total,
            (chunk_offset[0] + group_size_in_chunks[0]) * 16 <= usize::MAX,
            (chunk_offset[1] + group_size_in_chunks[1]) * 16 <= usize::MAX,
            (chunk_offset[2] + group_size_in_chunks[2]) * 16 <= usize::MAX,
            decoded_into_upto(volume, &orig, seg_buf@, chunk_offset, group_size_in_chunks, 2 * j),
        decreases total - j,
    {
        let pair = seg_buf[j];
        proof {
            lemma_split_pair_bits(pair);
            lemma_word_halves(j as int, 0);
            lemma_word_halves(j as int, 1);
        }
        let lo = (pair & 0xFFFF) as u16;
        let hi = ((pair >> 16) & 0xFFFF) as u16;
        decode_one_half(volume, j, 0, lo, chunk_offset, group_size_in_chunks, Ghost(seg_buf@), Ghost(orig));
        decode_one_half(volume, j, 1, hi, chunk_offset, group_size_in_chunks, Ghost(seg_buf@), Ghost(orig));
        j += 1;
    }
    proof {
        assert forall|x: int, y: int, z: int| #![trigger volume.voxel(x, y, z)] volume.in_bounds(x, y, z)
            && in_group(chunk_offset, group_size_in_chunks, x, y, z) implies half_index(
            gx as int,
            gy as int,
            x - chunk_offset[0] * 16,
            y - chunk_offset[1] * 16,
            z - chunk_offset[2] * 16,
        ) < 2 * j by {
            lemma_half_index_bound(
                gx as int,
                gy as int,
                gz as int,
                x - chunk_offset[0] * 16,
                y - chunk_offset[1] * 16,
                z - chunk_offset[2] * 16,
            );
        }
    }
}

/// Stamp the voxel held in half `slot` of word `j` of the segment buffer.
fn decode_one_half(
    volume: &mut DenseVolume,
    j: usize,
    slot: usize,
    half: u16,
    chunk_offset: [u32; 3],
    group_size_in_chunks: [u32; 3],
    Ghost(buf): Ghost<Seq<u32>>,
    Ghost(orig): Ghost<DenseVolume>,
)
    requires
        slot < 2,
        group_size_in_chunks[0] > 0,
        group_size_in_chunks[1] > 0,
        group_size_in_chunks[2] > 0,
        j < group_size_in_chunks[0] * group_size_in_chunks[1] * group_size_in_chunks[2] * 2048,
        (chunk_offset[0] + group_size_in_chunks[0]) * 16 <= usize::MAX,
        (chunk_offset[1] + group_size_in_chunks[1]) * 16 <= usize::MAX,
        (chunk_offset[2] + group_size_in_chunks[2]) * 16 <= usize::MAX,
        half == half_at(buf, 2 * j + slot),
        decoded_into_upto(old(volume), &orig, buf, chunk_offset, group_size_in_chunks, 2 * j + slot),
    ensures
        decoded_into_upto(
            final(volume),
            &orig,
            buf,
            chunk_offset,
            group_size_in_chunks,
            2 * j + slot + 1,
        ),
{
    let gx = group_size_in_chunks[0] as usize;
    let gy = group_size_in_chunks[1] as usize;
    let ghost gz = group_size_in_chunks[2] as int;
    let ghost h = 2 * j + slot;
    let ch = j / 2048;
    let word = j % 2048;
    let lcx = ch % gx;
    let lcy = (ch / gx) % gy;
    let lcz = (ch / gx) / gy;
    let block = word / 32;
    let vidx = (word % 32) * 2 + slot;
    proof {
        lemma_word_halves(j as int, slot as int);
        vstd::arithmetic::div_mod::lemma_div_denominator(ch as int, gx as int, gy as int);
        lemma_half_pos_index(gx as int, gy as int, gz, h);
        assert(h < gx * gy * gz * 4096);
    }
    let ghost p = half_pos(gx as int, gy as int, [0u32, 0u32, 0u32], h);
    assert(p == (
        lcx * 16 + (block % 4) * 4 + vidx % 4,
        lcy * 16 + ((block / 4) % 4) * 4 + (vidx / 4) % 4,
        lcz * 16 + (block / 16) * 4 + vidx / 16,
    ));
    let vx = (chunk_offset[0] as usize + lcx) * 16 + (block % 4) * 4 + vidx % 4;
    let vy = (chunk_offset[1] as usize + lcy) * 16 + ((block / 4) % 4) * 4 + (vidx / 4) % 4;
    let vz = (chunk_offset[2] as usize + lcz) * 16 + (block / 16) * 4 + vidx / 16;
    let sv = volume.size_in_voxels();
    let ghost before = *volume;
    if vx < sv[0] as usize && vy < sv[1] as usize && vz < sv[2] as usize {
        let ty = decode_cell(half);
        volume.set([vx as u32, vy as u32, vz as u32], ty);
    }
    proof {
        assert forall|x: int, y: int, z: int| #![trigger volume.voxel(x, y, z)] volume.in_bounds(
            x,
            y,
            z,
        ) implies volume.voxel(x, y, z) == if in_group(chunk_offset, group_size_in_chunks, x, y, z)
            && half_index(
            gx as int,
            gy as int,
            x - chunk_offset[0] * 16,
            y - chunk_offset[1] * 16,
            z - chunk_offset[2] * 16,
        ) < h + 1 {
            decoded_type(buf, chunk_offset, group_size_in_chunks, x, y, z)
        } else {
            orig.voxel(x, y, z)
        } by {
            let lx = x - chunk_offset[0] * 16;
            let ly = y - chunk_offset[1] * 16;
            let lz = z - chunk_offset[2] * 16;
            assert(before.voxel(x, y, z) == if in_group(chunk_offset, group_size_in_chunks, x, y, z)
                && half_index(gx as int, gy as int, lx, ly, lz) < h {
                decoded_type(buf, chunk_offset, group_size_in_chunks, x, y, z)
            } else {
                orig.voxel(x, y, z)
            });
            if in_group(chunk_offset, group_size_in_chunks, x, y, z) && half_index(
                gx as int,
                gy as int,
                lx,
                ly,
                lz,
            ) == h {
                lemma_half_index_pos(gx as int, gy as int, [0u32, 0u32, 0u32], lx, ly, lz);
                assert(x == vx && y == vy && z == vz);
            }
        }
    }
}

/// Decode a segment buffer over a box of `group_size_in_chunks` chunks into a
/// fresh volume of that size.
pub fn decode_segment_voxels_to_volume(seg: &[u32], group_size_in_chunks: [u32; 3]) -> (volume: DenseVolume)
    requires
        volume_size_fits(group_size_in_chunks),
        group_size_in_chunks[0] * group_size_in_chunks[1] * group_size_in_chunks[2] * 2048
            <= seg@.len(),
    ensures
        decodes_segment(&volume, seg@, group_size_in_chunks),
{
    let mut volume = DenseVolume::empty(group_size_in_chunks);
    decode_segment_voxels_into_volume(seg, [0, 0, 0], group_size_in_chunks, &mut volume);
    volume
}

/// Decoding the segment buffer built from a cubic volume of the segment's own
/// size gives the volume back, provided every voxel type fits in the 15 payload
/// bits of a cell.
pub proof fn lemma_segment_round_trip(volume: &DenseVolume, buf: Seq<u32>, back: &DenseVolume, s: u32)
    requires
        volume.wf(),
        volume.size_in_chunks == [s, s, s],
        volume.types_fit_cells(),
        encodes_segment(buf, volume, s as int, [0u32, 0u32, 0u32]),
        decodes_segment(back, buf, [s, s, s]),
    ensures
        back.size_in_chunks == volume.size_in_chunks,
        forall|x: int, y: int, z: int|
            volume.in_bounds(x, y, z) ==> #[trigger] back.voxel(x, y, z) == volume.voxel(x, y, z),
{
    assert forall|x: int, y: int, z: int| volume.in_bounds(x, y, z) implies #[trigger] back.voxel(
        x,
        y,
        z,
    ) == volume.voxel(x, y, z) by {
        assert(half_at(buf, half_index(s as int, s as int, x, y, z)) == cell_at(volume, x, y, z));
        lemma_cell_round_trip(volume.voxel(x, y, z));
    }
}

/// Stamping the segment buffer of a region back into the volume it was built
/// from leaves the volume unchanged, provided every voxel type fits in the 15
/// payload bits of a cell.
pub proof fn lemma_region_round_trip(
    volume: &DenseVolume,
    buf: Seq<u32>,
    stamped: &DenseVolume,
    chunk_offset: [u32; 3],
    s: u32,
)
    requires
        volume.wf(),
        volume.types_fit_cells(),
        encodes_segment(buf, volume, s as int, chunk_offset),
        decoded_into(stamped, volume, buf, chunk_offset, [s, s, s]),
    ensures
        stamped.size_in_chunks == volume.size_in_chunks,
        forall|x: int, y: int, z: int|
            volume.in_bounds(x, y, z) ==> #[trigger] stamped.voxel(x, y, z) == volume.voxel(x, y, z),
{
    assert forall|x: int, y: int, z: int| volume.in_bounds(x, y, z) implies #[trigger] stamped.voxel(
        x,
        y,
        z,
    ) == volume.voxel(x, y, z) by {
        if in_group(chunk_offset, [s, s, s], x, y, z) {
            let lx = x - chunk_offset[0] * 16;
            let ly = y - chunk_offset[1] * 16;
            let lz = z - chunk_offset[2] * 16;
            assert(half_at(buf, half_index(s as int, s as int, lx, ly, lz)) == cell_at(
                volume,
                chunk_offset[0] * 16 + lx,
                chunk_offset[1] * 16 + ly,
                chunk_offset[2] * 16 + lz,
            ));
            lemma_cell_round_trip(volume.voxel(x, y, z));
        }
    }
}

} // verus!
