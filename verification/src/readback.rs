//! Checking a GPU-built world against the CPU oracle at sample positions:
//! the chunk → block → voxel pointer walk, the per-sample verdict, the
//! two-checkpoint comparison and the report table.
//!
//! Reading GPU memory is left to the caller; each step of the walk here says
//! which word to read next, or what the walk found.

use vstd::prelude::*;

use crate::bits::{lemma_half_bits, lemma_word_bits};
use crate::text::{
    hex_field, lemma_concat_no_newline, lemma_fields_no_newline, no_newline, push_hex_field, push_right_aligned,
    right_aligned,
};
use crate::layout::{chunk_half, half_at, half_index, sub_index};
use crate::segment::{cell_at, encodes_segment};
use crate::volume::DenseVolume;

verus! {

/// One GPU pointer walk for a sample position.
#[derive(Clone, Copy, Debug, PartialEq, Eq)]
pub struct VoxelReadback {
    /// The chunk word (low word of the chunk pair).
    pub gpu_chunk_u32: u32,
    /// The block word, 0 when the chunk was not mixed.
    pub gpu_block_u32: u32,
    /// The voxel-pair word, 0 when the block was not mixed.
    pub gpu_voxel_pair_u32: u32,
    /// The sample voxel's half of the pair word.
    pub gpu_voxel_halfword: u16,
    /// What the walk hit: 0 empty chunk, 1 uniform-full chunk, 2 mixed chunk
    /// with empty block, 3 mixed chunk with uniform-full block, 4 mixed block
    /// with empty voxel, 5 mixed block with full voxel.
    pub kind: u8,
}

/// Whether a GPU walk agrees with the oracle's 16-bit cell: an empty oracle
/// cell (bit 15 clear) accepts any empty outcome (kinds 0, 2, 4); a full one
/// needs a full outcome (kinds 1, 3, 5) of the same 15-bit type.
pub open spec fn spec_matches_oracle(r: VoxelReadback, oracle_half: u16) -> bool {
    if oracle_half < 0x8000 {
        r.kind == 0 || r.kind == 2 || r.kind == 4
    } else {
        let oracle_type = oracle_half % 0x8000;
        if r.kind == 1 {
            r.gpu_chunk_u32 % 0x8000 == oracle_type
        } else if r.kind == 3 {
            r.gpu_block_u32 % 0x8000 == oracle_type
        } else if r.kind == 5 {
            r.gpu_voxel_halfword >= 0x8000 && r.gpu_voxel_halfword % 0x8000 == oracle_type
        } else {
            false
        }
    }
}

impl VoxelReadback {
    /// Whether this walk agrees with the oracle's cell.
    pub fn matches_oracle(&self, oracle_half: u16) -> (m: bool)
        ensures
            m == spec_matches_oracle(*self, oracle_half),
    {
        proof {
            lemma_half_bits(oracle_half);
            lemma_word_bits(self.gpu_chunk_u32);
            lemma_word_bits(self.gpu_block_u32);
            lemma_half_bits(self.gpu_voxel_halfword);
        }
        let oracle_full = (oracle_half & 0x8000) != 0;
        if !oracle_full {
            self.kind == 0 || self.kind == 2 || self.kind == 4
        } else {
            let oracle_type = oracle_half & 0x7FFF;
            match self.kind {
                1 => self.gpu_chunk_u32 & 0x7FFF == oracle_type as u32,
                3 => self.gpu_block_u32 & 0x7FFF == oracle_type as u32,
                5 => {
                    let gpu_full = (self.gpu_voxel_halfword & 0x8000) != 0;
                    let gpu_type = self.gpu_voxel_halfword & 0x7FFF;
                    gpu_full && gpu_type == oracle_type
                },
                _ => false,
            }
        }
    }
}

/// The next step of a pointer walk.
#[derive(Clone, Copy, Debug, PartialEq, Eq)]
pub enum ReadbackStep {
    /// The walk is over.
    Done(VoxelReadback),
    /// Read the block word at this index of the block buffer.
    ReadBlock(u64),
    /// Read the voxel-pair word at this index of the voxel buffer.
    ReadVoxel(u64),
}

/// Index of the chunk holding world voxel `pos` in a world of `world_chunks`
/// chunks (x-fastest).
pub open spec fn spec_sample_chunk_index(pos: [u32; 3], world_chunks: [u32; 3]) -> int {
    pos[0] / 16 + (pos[1] / 16) * world_chunks[0] + (pos[2] / 16) * world_chunks[0] * world_chunks[1]
}

/// The chunk-pair index to read first for sample `pos`.
pub fn sample_chunk_index(pos: [u32; 3], world_chunks: [u32; 3]) -> (i: u64)
    requires
        spec_sample_chunk_index(pos, world_chunks) <= u64::MAX,
    ensures
        i == spec_sample_chunk_index(pos, world_chunks),
{
    let cx = pos[0] / 16;
    let cy = pos[1] / 16;
    let cz = pos[2] / 16;
    let w0 = world_chunks[0] as u64;
    let w1 = world_chunks[1] as u64;
    proof {
        assert(0 <= cy as int * w0 && 0 <= cz as int * w0 * w1) by (nonlinear_arith);
        assert(cz as int * w0 <= cz as int * w0 * w1 || w1 == 0) by (nonlinear_arith);
        assert(w0 * w1 == 0 || cz * w0 <= cz * w0 * w1) by (nonlinear_arith);
    }
    let zterm = if w1 == 0 {
        0
    } else {
        (cz as u64) * w0 * w1
    };
    assert(zterm == cz as int * w0 * w1) by (nonlinear_arith)
        requires
            w1 == 0 ==> zterm == 0,
            w1 != 0 ==> zterm == cz as int * w0 * w1,
    ;
    (cx as u64) + (cy as u64) * w0 + zterm
}

/// The step after reading chunk word `chunk_u32` for sample `pos`: an empty
/// or uniform-full chunk ends the walk (kind 0 or 1); a mixed chunk asks for
/// the block word at its pointer plus the sample's block index.
pub open spec fn spec_step_after_chunk(pos: [u32; 3], chunk_u32: u32) -> ReadbackStep {
    if chunk_u32 < 0x8000_0000 {
        ReadbackStep::Done(
            VoxelReadback {
                gpu_chunk_u32: chunk_u32,
                gpu_block_u32: 0,
                gpu_voxel_pair_u32: 0,
                gpu_voxel_halfword: 0,
                kind: if chunk_u32 >= 0x4000_0000 {
                    1
                } else {
                    0
                },
            },
        )
    } else {
        ReadbackStep::ReadBlock(
            (chunk_u32 % 0x4000_0000 + sub_index(
                (pos[0] as int % 16) / 4,
                (pos[1] as int % 16) / 4,
                (pos[2] as int % 16) / 4,
            )) as u64,
        )
    }
}

/// The step after reading block word `block_u32`: an empty or uniform-full
/// block ends the walk (kind 2 or 3); a mixed block asks for the voxel-pair
/// word at its pointer plus half the sample's voxel index.
pub open spec fn spec_step_after_block(pos: [u32; 3], chunk_u32: u32, block_u32: u32) -> ReadbackStep {
    if block_u32 < 0x8000_0000 {
        ReadbackStep::Done(
            VoxelReadback {
                gpu_chunk_u32: chunk_u32,
                gpu_block_u32: block_u32,
                gpu_voxel_pair_u32: 0,
                gpu_voxel_halfword: 0,
                kind: if block_u32 >= 0x4000_0000 {
                    3
                } else {
                    2
                },
            },
        )
    } else {
        ReadbackStep::ReadVoxel(
            (block_u32 % 0x4000_0000 + sub_index(pos[0] as int % 4, pos[1] as int % 4, pos[2] as int % 4) / 2) as u64,
        )
    }
}

/// The walk's result after reading voxel-pair word `voxel_u32`: the sample's
/// half (low for an even voxel index, high for an odd one), kind 5 when its
/// bit 15 is set, 4 otherwise.
pub open spec fn spec_finish_voxel(pos: [u32; 3], chunk_u32: u32, block_u32: u32, voxel_u32: u32) -> VoxelReadback {
    let parity = sub_index(pos[0] as int % 4, pos[1] as int % 4, pos[2] as int % 4) % 2;
    let half = if parity == 0 {
        voxel_u32 % 0x1_0000
    } else {
        voxel_u32 / 0x1_0000
    };
    VoxelReadback {
        gpu_chunk_u32: chunk_u32,
        gpu_block_u32: block_u32,
        gpu_voxel_pair_u32: voxel_u32,
        gpu_voxel_halfword: half as u16,
        kind: if half >= 0x8000 {
            5
        } else {
            4
        },
    }
}

/// First step of the walk for sample `pos`, given its chunk word.
pub fn step_after_chunk(pos: [u32; 3], chunk_u32: u32) -> (s: ReadbackStep)
    ensures
        s == spec_step_after_chunk(pos, chunk_u32),
{
    proof {
        lemma_word_bits(chunk_u32);
    }
    if (chunk_u32 & 0x8000_0000) == 0 {
        let kind: u8 = if (chunk_u32 & 0x4000_0000) != 0 {
            1
        } else {
            0
        };
        return ReadbackStep::Done(
            VoxelReadback {
                gpu_chunk_u32: chunk_u32,
                gpu_block_u32: 0,
                gpu_voxel_pair_u32: 0,
                gpu_voxel_halfword: 0,
                kind,
            },
        );
    }
    let block_ptr = (chunk_u32 & 0x3FFF_FFFF) as u64;
    let bx = (pos[0] % 16) / 4;
    let by = (pos[1] % 16) / 4;
    let bz = (pos[2] % 16) / 4;
    let block_in_chunk = bx + by * 4 + bz * 16;
    ReadbackStep::ReadBlock(block_ptr + block_in_chunk as u64)
}

/// Second step of the walk, given the block word of a mixed chunk.
pub fn step_after_block(pos: [u32; 3], chunk_u32: u32, block_u32: u32) -> (s: ReadbackStep)
    ensures
        s == spec_step_after_block(pos, chunk_u32, block_u32),
{
    proof {
        lemma_word_bits(block_u32);
    }
    if (block_u32 & 0x8000_0000) == 0 {
        let kind: u8 = if (block_u32 & 0x4000_0000) != 0 {
            3
        } else {
            2
        };
        return ReadbackStep::Done(
            VoxelReadback {
                gpu_chunk_u32: chunk_u32,
                gpu_block_u32: block_u32,
                gpu_voxel_pair_u32: 0,
                gpu_voxel_halfword: 0,
                kind,
            },
        );
    }
    let voxel_ptr = (block_u32 & 0x3FFF_FFFF) as u64;
    let lx = (pos[0] % 16) % 4;
    let ly = (pos[1] % 16) % 4;
    let lz = (pos[2] % 16) % 4;
    proof {
        vstd::arithmetic::div_mod::lemma_mod_mod(pos[0] as int, 4, 4);
        vstd::arithmetic::div_mod::lemma_mod_mod(pos[1] as int, 4, 4);
        vstd::arithmetic::div_mod::lemma_mod_mod(pos[2] as int, 4, 4);
    }
    let voxel_in_block_idx = lx + ly * 4 + lz * 16;
    let pair_idx = voxel_in_block_idx / 2;
    ReadbackStep::ReadVoxel(voxel_ptr + pair_idx as u64)
}

/// Last step of the walk, given the voxel-pair word of a mixed block.
pub fn finish_voxel(pos: [u32; 3], chunk_u32: u32, block_u32: u32, voxel_u32: u32) -> (r: VoxelReadback)
    ensures
        r == spec_finish_voxel(pos, chunk_u32, block_u32, voxel_u32),
{
    let lx = (pos[0] % 16) % 4;
    let ly = (pos[1] % 16) % 4;
    let lz = (pos[2] % 16) % 4;
    proof {
        vstd::arithmetic::div_mod::lemma_mod_mod(pos[0] as int, 4, 4);
        vstd::arithmetic::div_mod::lemma_mod_mod(pos[1] as int, 4, 4);
        vstd::arithmetic::div_mod::lemma_mod_mod(pos[2] as int, 4, 4);
        lemma_word_bits(voxel_u32);
    }
    let voxel_in_block_idx = lx + ly * 4 + lz * 16;
    let parity = voxel_in_block_idx % 2;
    let half = if parity == 0 {
        voxel_u32 & 0xFFFF
    } else {
        (voxel_u32 >> 16) & 0xFFFF
    };
    proof {
        lemma_word_bits(half);
    }
    let kind: u8 = if (half & 0x8000) != 0 {
        5
    } else {
        4
    };
    VoxelReadback {
        gpu_chunk_u32: chunk_u32,
        gpu_block_u32: block_u32,
        gpu_voxel_pair_u32: voxel_u32,
        gpu_voxel_halfword: half as u16,
        kind,
    }
}

/// The oracle cell of sample `pos` in a segment buffer built over the single
/// chunk that holds the sample: the half-word of the sample's position inside
/// that chunk.
pub fn oracle_half_in_chunk_segment(seg: &[u32], pos: [u32; 3]) -> (h: u16)
    requires
        seg@.len() >= 2048,
    ensures
        h == half_at(seg@, chunk_half(pos[0] as int % 16, pos[1] as int % 16, pos[2] as int % 16)),
        h == half_at(seg@, half_index(1, 1, pos[0] as int % 16, pos[1] as int % 16, pos[2] as int % 16)),
{
    let vx = pos[0];
    let vy = pos[1];
    let vz = pos[2];
    let lx = (vx % 16) % 4;
    let ly = (vy % 16) % 4;
    let lz = (vz % 16) % 4;
    let bx = (vx % 16) / 4;
    let by = (vy % 16) / 4;
    let bz = (vz % 16) / 4;
    let voxel_in_block_idx = lx + ly * 4 + lz * 16;
    let block_index = bx + by * 4 + bz * 16;
    let pair_idx = voxel_in_block_idx / 2;
    let parity = voxel_in_block_idx % 2;
    let ghost hh = chunk_half(vx as int % 16, vy as int % 16, vz as int % 16);
    proof {
        vstd::arithmetic::div_mod::lemma_mod_mod(vx as int, 16, 4);
        vstd::arithmetic::div_mod::lemma_mod_mod(vy as int, 16, 4);
        vstd::arithmetic::div_mod::lemma_mod_mod(vz as int, 16, 4);
        assert(hh == block_index * 64 + voxel_in_block_idx);
        vstd::arithmetic::div_mod::lemma_fundamental_div_mod_converse(
            hh,
            2,
            block_index * 32 + pair_idx,
            parity as int,
        );
        assert((vx % 16) / 16 == 0 && (vy % 16) / 16 == 0 && (vz % 16) / 16 == 0);
        assert(half_index(1, 1, vx as int % 16, vy as int % 16, vz as int % 16) == hh) by {
            vstd::arithmetic::div_mod::lemma_mod_mod(vx as int, 16, 16);
            vstd::arithmetic::div_mod::lemma_mod_mod(vy as int, 16, 16);
            vstd::arithmetic::div_mod::lemma_mod_mod(vz as int, 16, 16);
        }
    }
    let pair_u32_idx = (block_index as usize) * 32 + pair_idx as usize;
    let pair_u32 = seg[pair_u32_idx];
    proof {
        lemma_word_bits(pair_u32);
    }
    let half = if parity == 0 {
        pair_u32 & 0xFFFF
    } else {
        (pair_u32 >> 16) & 0xFFFF
    };
    half as u16
}

/// Number of samples among the first `n` whose walk disagrees with the
/// oracle.
pub open spec fn mismatch_count(oracle: Seq<u16>, results: Seq<VoxelReadback>, n: int) -> int
    decreases n,
{
    if n <= 0 {
        0
    } else {
        mismatch_count(oracle, results, n - 1) + if spec_matches_oracle(results[n - 1], oracle[n - 1]) {
            0int
        } else {
            1int
        }
    }
}

/// Number of samples whose walk disagrees with the oracle.
pub fn count_mismatches(oracle: &[u16], results: &[VoxelReadback]) -> (n: usize)
    requires
        oracle@.len() >= results@.len(),
    ensures
        n == mismatch_count(oracle@, results@, results@.len() as int),
{
    let mut n: usize = 0;
    let mut i: usize = 0;
    while i < results.len()
        invariant
            i <= results@.len(),
            oracle@.len() >= results@.len(),
            n == mismatch_count(oracle@, results@, i as int),
            n <= i,
        decreases results@.len() - i,
    {
        if !results[i].matches_oracle(oracle[i]) {
            n = n + 1;
        }
        i = i + 1;
    }
    n
}

/// The oracle cell of a sample is the sample voxel's cell: when the segment
/// buffer holds the single chunk around `pos` (as the region builder makes it
/// with that chunk as offset and a segment edge of one chunk), the half-word
/// that [`oracle_half_in_chunk_segment`] reads is the cell of voxel `pos`.
pub proof fn lemma_oracle_half_is_voxel_cell(volume: &DenseVolume, seg: Seq<u32>, pos: [u32; 3])
    requires
        encodes_segment(seg, volume, 1, [pos[0] / 16, pos[1] / 16, pos[2] / 16]),
    ensures
        half_at(seg, half_index(1, 1, pos[0] as int % 16, pos[1] as int % 16, pos[2] as int % 16))
            == cell_at(volume, pos[0] as int, pos[1] as int, pos[2] as int),
{
    let (x, y, z) = (pos[0] as int % 16, pos[1] as int % 16, pos[2] as int % 16);
    assert(half_at(seg, half_index(1, 1, x, y, z)) == cell_at(
        volume,
        (pos[0] / 16) * 16 + x,
        (pos[1] / 16) * 16 + y,
        (pos[2] / 16) * 16 + z,
    ));
}

/// Number of the first `n` oracle cells that are full (bit 15 set).
pub open spec fn full_count(oracle: Seq<u16>, n: int) -> int
    decreases n,
{
    if n <= 0 {
        0
    } else {
        full_count(oracle, n - 1) + if oracle[n - 1] >= 0x8000 {
            1int
        } else {
            0int
        }
    }
}

/// Number of oracle cells that are full; the rest are empty.
pub fn count_full_cells(oracle: &[u16]) -> (n: usize)
    ensures
        n == full_count(oracle@, oracle@.len() as int),
        n <= oracle@.len(),
{
    let mut n: usize = 0;
    let mut i: usize = 0;
    while i < oracle.len()
        invariant
            i <= oracle@.len(),
            n == full_count(oracle@, i as int),
            n <= i,
        decreases oracle@.len() - i,
    {
        if (oracle[i] & 0x8000) != 0 {
            n = n + 1;
        }
        proof {
            lemma_half_bits(oracle@[i as int]);
        }
        i = i + 1;
    }
    n
}

/// How the samples' outcomes moved between two checkpoints of the same walk.
#[derive(Clone, Copy, Debug, PartialEq, Eq)]
pub struct CheckpointComparison {
    /// Samples whose chunk word, block word or voxel half changed.
    pub changed: usize,
    /// Samples that match the oracle at both checkpoints.
    pub both_match: usize,
    /// Samples that match at neither.
    pub both_mismatch: usize,
    /// Samples that match at the first checkpoint only.
    pub match_to_mismatch: usize,
    /// Samples that match at the second checkpoint only.
    pub mismatch_to_match: usize,
}

/// Whether sample `i`'s walk changed between the checkpoints.
pub open spec fn sample_changed(a: VoxelReadback, b: VoxelReadback) -> bool {
    a.gpu_voxel_halfword != b.gpu_voxel_halfword || a.gpu_chunk_u32 != b.gpu_chunk_u32
        || a.gpu_block_u32 != b.gpu_block_u32
}

/// Number of the first `n` samples for which `f` holds.
pub open spec fn count_where(f: spec_fn(int) -> bool, n: int) -> int
    decreases n,
{
    if n <= 0 {
        0
    } else {
        count_where(f, n - 1) + if f(n - 1) {
            1int
        } else {
            0int
        }
    }
}

/// Whether sample `i` matches the oracle at checkpoint `a` exactly when
/// `at_a`, and at checkpoint `b` exactly when `at_b`.
pub open spec fn match_pattern(
    oracle: Seq<u16>,
    a: Seq<VoxelReadback>,
    b: Seq<VoxelReadback>,
    at_a: bool,
    at_b: bool,
) -> spec_fn(int) -> bool {
    |i: int| spec_matches_oracle(a[i], oracle[i]) == at_a && spec_matches_oracle(b[i], oracle[i]) == at_b
}

/// The comparison of the first `n` samples between checkpoints `a` and `b`.
pub open spec fn spec_compare_checkpoints(
    oracle: Seq<u16>,
    a: Seq<VoxelReadback>,
    b: Seq<VoxelReadback>,
    n: int,
) -> CheckpointComparison {
    CheckpointComparison {
        changed: count_where(|i: int| sample_changed(a[i], b[i]), n) as usize,
        both_match: count_where(match_pattern(oracle, a, b, true, true), n) as usize,
        both_mismatch: count_where(match_pattern(oracle, a, b, false, false), n) as usize,
        match_to_mismatch: count_where(match_pattern(oracle, a, b, true, false), n) as usize,
        mismatch_to_match: count_where(match_pattern(oracle, a, b, false, true), n) as usize,
    }
}

/// A count of the first `n` samples is at most `n`.
proof fn lemma_count_where_bound(f: spec_fn(int) -> bool, n: int)
    requires
        n >= 0,
    ensures
        0 <= count_where(f, n) <= n,
    decreases n,
{
    if n > 0 {
        lemma_count_where_bound(f, n - 1);
    }
}

/// A walk matches the oracle only when both agree on whether the voxel is
/// full: an empty oracle cell (bit 15 clear) is matched by every empty
/// outcome (kinds 0, 2, 4) and by no full one (kinds 1, 3, 5), a full cell
/// by no empty outcome, and a walk of an unknown kind matches nothing.
pub proof fn lemma_match_agrees_on_fullness(r: VoxelReadback, oracle_half: u16)
    ensures
        spec_matches_oracle(r, oracle_half) ==> r.kind <= 5,
        spec_matches_oracle(r, oracle_half) ==> ((oracle_half >= 0x8000) <==> (r.kind == 1 || r.kind == 3
            || r.kind == 5)),
        oracle_half < 0x8000 ==> (spec_matches_oracle(r, oracle_half) <==> (r.kind == 0 || r.kind == 2
            || r.kind == 4)),
{
}

/// A full oracle cell is matched by a full walk only when the type the walk
/// found (in the chunk word, the block word or the voxel half it stopped at)
/// is the cell's 15-bit type; the pointer words above it do not matter.
pub proof fn lemma_full_match_compares_types(r: VoxelReadback, oracle_half: u16)
    requires
        oracle_half >= 0x8000,
    ensures
        r.kind == 1 ==> (spec_matches_oracle(r, oracle_half) <==> r.gpu_chunk_u32 % 0x8000 == oracle_half
            - 0x8000),
        r.kind == 3 ==> (spec_matches_oracle(r, oracle_half) <==> r.gpu_block_u32 % 0x8000 == oracle_half
            - 0x8000),
        r.kind == 5 ==> (spec_matches_oracle(r, oracle_half) <==> r.gpu_voxel_halfword == oracle_half),
{
}

/// The comparison of two checkpoints counts as changed exactly the samples
/// whose (chunk word, block word, voxel half) differ between them, and puts
/// every sample in exactly one of the four match buckets; comparing a
/// checkpoint with itself finds nothing changed and nothing that moves
/// between matching and mismatching.
pub proof fn lemma_compare_checkpoints_counts(
    oracle: Seq<u16>,
    a: Seq<VoxelReadback>,
    b: Seq<VoxelReadback>,
    n: int,
)
    requires
        0 <= n <= usize::MAX,
    ensures
        spec_compare_checkpoints(oracle, a, b, n).changed + count_where(
            |i: int|
                (a[i].gpu_chunk_u32, a[i].gpu_block_u32, a[i].gpu_voxel_halfword) == (
                    b[i].gpu_chunk_u32,
                    b[i].gpu_block_u32,
                    b[i].gpu_voxel_halfword,
                ),
            n,
        ) == n,
        spec_compare_checkpoints(oracle, a, b, n).both_match + spec_compare_checkpoints(
            oracle,
            a,
            b,
            n,
        ).both_mismatch + spec_compare_checkpoints(oracle, a, b, n).match_to_mismatch
            + spec_compare_checkpoints(oracle, a, b, n).mismatch_to_match == n,
        spec_compare_checkpoints(oracle, a, a, n).changed == 0,
        spec_compare_checkpoints(oracle, a, a, n).match_to_mismatch == 0,
        spec_compare_checkpoints(oracle, a, a, n).mismatch_to_match == 0,
    decreases n,
{
    let same = |i: int|
        (a[i].gpu_chunk_u32, a[i].gpu_block_u32, a[i].gpu_voxel_halfword) == (
            b[i].gpu_chunk_u32,
            b[i].gpu_block_u32,
            b[i].gpu_voxel_halfword,
        );
    let fc = |i: int| sample_changed(a[i], b[i]);
    let fcaa = |i: int| sample_changed(a[i], a[i]);
    lemma_count_where_bound(fc, n);
    lemma_count_where_bound(same, n);
    lemma_count_where_bound(fcaa, n);
    lemma_count_where_bound(match_pattern(oracle, a, b, true, true), n);
    lemma_count_where_bound(match_pattern(oracle, a, b, false, false), n);
    lemma_count_where_bound(match_pattern(oracle, a, b, true, false), n);
    lemma_count_where_bound(match_pattern(oracle, a, b, false, true), n);
    lemma_count_where_bound(match_pattern(oracle, a, a, true, false), n);
    lemma_count_where_bound(match_pattern(oracle, a, a, false, true), n);
    if n > 0 {
        lemma_compare_checkpoints_counts(oracle, a, b, n - 1);
        lemma_count_where_bound(fc, n - 1);
        lemma_count_where_bound(same, n - 1);
        lemma_count_where_bound(fcaa, n - 1);
        lemma_count_where_bound(match_pattern(oracle, a, b, true, true), n - 1);
        lemma_count_where_bound(match_pattern(oracle, a, b, false, false), n - 1);
        lemma_count_where_bound(match_pattern(oracle, a, b, true, false), n - 1);
        lemma_count_where_bound(match_pattern(oracle, a, b, false, true), n - 1);
        lemma_count_where_bound(match_pattern(oracle, a, a, true, false), n - 1);
        lemma_count_where_bound(match_pattern(oracle, a, a, false, true), n - 1);
        assert(fc(n - 1) == !same(n - 1));
        assert(!fcaa(n - 1));
        assert(!match_pattern(oracle, a, a, true, false)(n - 1));
        assert(!match_pattern(oracle, a, a, false, true)(n - 1));
    }
}

/// The mismatch count of `n` samples counts exactly those whose walk does
/// not match the oracle: it and the number of matching samples add up to
/// `n`, and it is 0 exactly when every sample matches.
pub proof fn lemma_mismatch_count_complements(oracle: Seq<u16>, results: Seq<VoxelReadback>, n: int)
    requires
        n >= 0,
    ensures
        mismatch_count(oracle, results, n) + count_where(|i: int| spec_matches_oracle(results[i], oracle[i]), n)
            == n,
        (mismatch_count(oracle, results, n) == 0) <==> (forall|i: int|
            0 <= i < n ==> #[trigger] spec_matches_oracle(results[i], oracle[i])),
    decreases n,
{
    let m = |i: int| spec_matches_oracle(results[i], oracle[i]);
    if n > 0 {
        lemma_mismatch_count_complements(oracle, results, n - 1);
        lemma_count_where_bound(m, n - 1);
        assert(m(n - 1) == spec_matches_oracle(results[n - 1], oracle[n - 1]));
        if mismatch_count(oracle, results, n) == 0 {
            assert forall|i: int| 0 <= i < n implies #[trigger] spec_matches_oracle(results[i], oracle[i]) by {
                if i < n - 1 {
                    assert(mismatch_count(oracle, results, n - 1) == 0);
                }
            }
        }
    }
}

/// How the two mismatch counts decide the outcome: byte-correct exactly
/// when no sample mismatches after the bounds passes; diverged after them
/// exactly when all matched after the producer and some mismatch after the
/// bounds passes; corrupted by the producer exactly when some mismatch at
/// both checkpoints. Mismatches that the bounds passes clear count as
/// byte-correct, so `RestoredByBounds` never comes.
pub proof fn lemma_production_verdict_cases(n_mismatch_a: usize, n_mismatch_b: usize)
    ensures
        (spec_production_verdict(n_mismatch_a, n_mismatch_b) == ProductionVerdict::ByteCorrect) <==> n_mismatch_b
            == 0,
        (spec_production_verdict(n_mismatch_a, n_mismatch_b) == ProductionVerdict::DivergedAfterBounds) <==> (
        n_mismatch_a == 0 && n_mismatch_b > 0),
        (spec_production_verdict(n_mismatch_a, n_mismatch_b) == ProductionVerdict::CorruptedByProducer) <==> (
        n_mismatch_a > 0 && n_mismatch_b > 0),
        spec_production_verdict(n_mismatch_a, n_mismatch_b) != ProductionVerdict::RestoredByBounds,
{
}

/// Compare the walks of every sample at two checkpoints against the oracle.
pub fn compare_checkpoints(oracle: &[u16], a: &[VoxelReadback], b: &[VoxelReadback]) -> (c: CheckpointComparison)
    requires
        a@.len() >= oracle@.len(),
        b@.len() >= oracle@.len(),
    ensures
        c == spec_compare_checkpoints(oracle@, a@, b@, oracle@.len() as int),
{
    let ghost fc = |i: int| sample_changed(a@[i], b@[i]);
    let ghost fmm = match_pattern(oracle@, a@, b@, true, true);
    let ghost fxx = match_pattern(oracle@, a@, b@, false, false);
    let ghost fmx = match_pattern(oracle@, a@, b@, true, false);
    let ghost fxm = match_pattern(oracle@, a@, b@, false, true);
    let mut c = CheckpointComparison {
        changed: 0,
        both_match: 0,
        both_mismatch: 0,
        match_to_mismatch: 0,
        mismatch_to_match: 0,
    };
    let mut i: usize = 0;
    while i < oracle.len()
        invariant
            i <= oracle@.len(),
            a@.len() >= oracle@.len(),
            b@.len() >= oracle@.len(),
            fc == (|i: int| sample_changed(a@[i], b@[i])),
            fmm == match_pattern(oracle@, a@, b@, true, true),
            fxx == match_pattern(oracle@, a@, b@, false, false),
            fmx == match_pattern(oracle@, a@, b@, true, false),
            fxm == match_pattern(oracle@, a@, b@, false, true),
            c.changed == count_where(fc, i as int),
            c.both_match == count_where(fmm, i as int),
            c.both_mismatch == count_where(fxx, i as int),
            c.match_to_mismatch == count_where(fmx, i as int),
            c.mismatch_to_match == count_where(fxm, i as int),
        decreases oracle@.len() - i,
    {
        proof {
            lemma_count_where_bound(fc, i as int);
            lemma_count_where_bound(fmm, i as int);
            lemma_count_where_bound(fxx, i as int);
            lemma_count_where_bound(fmx, i as int);
            lemma_count_where_bound(fxm, i as int);
        }
        let oracle_half = oracle[i];
        let ra = &a[i];
        let rb = &b[i];
        let a_match = ra.matches_oracle(oracle_half);
        let b_match = rb.matches_oracle(oracle_half);
        if ra.gpu_voxel_halfword != rb.gpu_voxel_halfword || ra.gpu_chunk_u32 != rb.gpu_chunk_u32
            || ra.gpu_block_u32 != rb.gpu_block_u32 {
            c.changed = c.changed + 1;
        }
        if a_match && b_match {
            c.both_match = c.both_match + 1;
        } else if !a_match && !b_match {
            c.both_mismatch = c.both_mismatch + 1;
        } else if a_match && !b_match {
            c.match_to_mismatch = c.match_to_mismatch + 1;
        } else {
            c.mismatch_to_match = c.mismatch_to_match + 1;
        }
        proof {
            let j = i as int;
            assert(count_where(fc, j + 1) == count_where(fc, j) + if fc(j) { 1int } else { 0int });
            assert(count_where(fmm, j + 1) == count_where(fmm, j) + if fmm(j) { 1int } else { 0int });
            assert(count_where(fxx, j + 1) == count_where(fxx, j) + if fxx(j) { 1int } else { 0int });
            assert(count_where(fmx, j + 1) == count_where(fmx, j) + if fmx(j) { 1int } else { 0int });
            assert(count_where(fxm, j + 1) == count_where(fxm, j) + if fxm(j) { 1int } else { 0int });
        }
        i = i + 1;
    }
    c
}

/// The four match buckets of a checkpoint comparison count the first `n`
/// samples between them, each sample exactly once.
proof fn lemma_match_buckets_count(oracle: Seq<u16>, a: Seq<VoxelReadback>, b: Seq<VoxelReadback>, n: int)
    requires
        n >= 0,
    ensures
        count_where(match_pattern(oracle, a, b, true, true), n) + count_where(
            match_pattern(oracle, a, b, false, false),
            n,
        ) + count_where(match_pattern(oracle, a, b, true, false), n) + count_where(
            match_pattern(oracle, a, b, false, true),
            n,
        ) == n,
    decreases n,
{
    if n > 0 {
        lemma_match_buckets_count(oracle, a, b, n - 1);
    }
}

/// Every compared sample lands in exactly one of the four match buckets
/// (both match, both mismatch, match then mismatch, mismatch then match), so
/// the four counts add up to the number of samples.
pub proof fn lemma_checkpoint_buckets_partition(
    oracle: Seq<u16>,
    a: Seq<VoxelReadback>,
    b: Seq<VoxelReadback>,
    n: int,
)
    requires
        0 <= n <= usize::MAX,
    ensures
        ({
            let c = spec_compare_checkpoints(oracle, a, b, n);
            c.both_match + c.both_mismatch + c.match_to_mismatch + c.mismatch_to_match == n
        }),
{
    lemma_match_buckets_count(oracle, a, b, n);
    lemma_count_where_bound(match_pattern(oracle, a, b, true, true), n);
    lemma_count_where_bound(match_pattern(oracle, a, b, false, false), n);
    lemma_count_where_bound(match_pattern(oracle, a, b, true, false), n);
    lemma_count_where_bound(match_pattern(oracle, a, b, false, true), n);
}

/// What the production-scale readback says about where voxels go wrong.
#[derive(Clone, Copy, Debug, PartialEq, Eq)]
pub enum ProductionVerdict {
    /// Every sample is right after the full pipeline.
    ByteCorrect,
    /// Right after the producer, wrong after the bounds passes.
    DivergedAfterBounds,
    /// Already wrong after the producer.
    CorruptedByProducer,
    /// Wrong after the producer, right again after the bounds passes.
    RestoredByBounds,
}

/// The verdict from the post-producer and post-bounds mismatch counts.
pub open spec fn spec_production_verdict(n_mismatch_a: usize, n_mismatch_b: usize) -> ProductionVerdict {
    if n_mismatch_b == 0 {
        ProductionVerdict::ByteCorrect
    } else if n_mismatch_a == 0 && n_mismatch_b > 0 {
        ProductionVerdict::DivergedAfterBounds
    } else if n_mismatch_a > 0 && n_mismatch_b > 0 {
        ProductionVerdict::CorruptedByProducer
    } else {
        ProductionVerdict::RestoredByBounds
    }
}

/// The verdict from the post-producer and post-bounds mismatch counts.
pub fn production_verdict(n_mismatch_a: usize, n_mismatch_b: usize) -> (v: ProductionVerdict)
    ensures
        v == spec_production_verdict(n_mismatch_a, n_mismatch_b),
{
    if n_mismatch_b == 0 {
        ProductionVerdict::ByteCorrect
    } else if n_mismatch_a == 0 && n_mismatch_b > 0 {
        ProductionVerdict::DivergedAfterBounds
    } else if n_mismatch_a > 0 && n_mismatch_b > 0 {
        ProductionVerdict::CorruptedByProducer
    } else {
        ProductionVerdict::RestoredByBounds
    }
}

/// The report name of a walk outcome.
pub open spec fn kind_label(kind: u8) -> Seq<char> {
    if kind == 0 {
        "EMPTY-CHUNK"@
    } else if kind == 1 {
        "UNIFORM-FULL-CHUNK"@
    } else if kind == 2 {
        "MIXED-CHUNK / EMPTY-BLOCK"@
    } else if kind == 3 {
        "MIXED-CHUNK / UNIFORM-FULL-BLOCK"@
    } else if kind == 4 {
        "MIXED-CHUNK / MIXED-BLOCK / EMPTY-VOXEL"@
    } else if kind == 5 {
        "MIXED-CHUNK / MIXED-BLOCK / FULL-VOXEL"@
    } else {
        "?"@
    }
}

/// The report name of a walk outcome.
pub fn kind_name(kind: u8) -> (name: &'static str)
    ensures
        name@ == kind_label(kind),
{
    match kind {
        0 => "EMPTY-CHUNK",
        1 => "UNIFORM-FULL-CHUNK",
        2 => "MIXED-CHUNK / EMPTY-BLOCK",
        3 => "MIXED-CHUNK / UNIFORM-FULL-BLOCK",
        4 => "MIXED-CHUNK / MIXED-BLOCK / EMPTY-VOXEL",
        5 => "MIXED-CHUNK / MIXED-BLOCK / FULL-VOXEL",
        _ => "?",
    }
}

/// The report table's header line for `label`.
pub open spec fn results_table_header(label: Seq<char>) -> Seq<char> {
    "\n["@ + label + " table — voxel position | oracle half | GPU chunk | GPU block | GPU voxel-pair | GPU voxel-half | kind | match?]\n"@
}

/// The position part of a report row: `  (x,y,z` with the coordinates
/// right-aligned in 4, 3 and 4 characters.
pub open spec fn row_position_text(vx: u32, vy: u32, vz: u32) -> Seq<char> {
    "  ("@ + right_aligned(vx, 4) + ","@ + right_aligned(vy, 3) + ","@ + right_aligned(vz, 4)
}

/// The oracle part of a report row: `) | oracle=0x…` then the full/empty
/// label and ` (type=0x…`, halves as 4 hex digits.
pub open spec fn row_oracle_text(oracle_half: u16, full_label: Seq<char>, oracle_type: u16) -> Seq<char> {
    ") | oracle="@ + hex_field(oracle_half as u32, 4) + " "@ + full_label + " (type="@ + hex_field(
        oracle_type as u32,
        4,
    )
}

/// The word part of a report row: `) | chunk=0x… | block=0x… | vpair=0x…`,
/// words as 8 hex digits.
pub open spec fn row_words_text(chunk: u32, block: u32, voxel_pair: u32) -> Seq<char> {
    ") | chunk="@ + hex_field(chunk, 8) + " | block="@ + hex_field(block, 8) + " | vpair="@ + hex_field(
        voxel_pair,
        8,
    )
}

/// The voxel part of a report row up to its match label: the voxel half and
/// its type in hex, the kind name, and the XOR of the two halves.
pub open spec fn row_voxel_head(voxel_half: u16, voxel_type: u16, kind_name: Seq<char>, xor_half: u32) -> Seq<char> {
    " | vhalf="@ + hex_field(voxel_half as u32, 4) + " (type="@ + hex_field(voxel_type as u32, 4) + ") | "@
        + kind_name + " | XOR-half="@ + hex_field(xor_half, 4)
}

/// The voxel part of a report row: its head, then ` | `, the match label and
/// a newline.
pub open spec fn row_voxel_text(
    voxel_half: u16,
    voxel_type: u16,
    kind_name: Seq<char>,
    xor_half: u32,
    match_label: Seq<char>,
) -> Seq<char> {
    row_voxel_head(voxel_half, voxel_type, kind_name, xor_half) + " | "@ + match_label + "\n"@
}

/// One row of the report table:
/// `  (x,y,z) | oracle=0x… FULL  (type=0x…) | chunk=0x… | block=0x… |
/// vpair=0x… | vhalf=0x… (type=0x…) | kind | XOR-half=0x… | MATCH` and a
/// newline.
pub open spec fn results_table_row(
    vx: u32,
    vy: u32,
    vz: u32,
    oracle_half: u16,
    full_label: Seq<char>,
    oracle_type: u16,
    chunk: u32,
    block: u32,
    voxel_pair: u32,
    voxel_half: u16,
    voxel_type: u16,
    kind_name: Seq<char>,
    xor_half: u32,
    match_label: Seq<char>,
) -> Seq<char> {
    row_position_text(vx, vy, vz) + row_oracle_text(oracle_half, full_label, oracle_type) + row_words_text(
        chunk,
        block,
        voxel_pair,
    ) + row_voxel_text(voxel_half, voxel_type, kind_name, xor_half, match_label)
}

fn push_row_position(s: &mut String, vx: u32, vy: u32, vz: u32)
    ensures
        final(s)@ == old(s)@ + row_position_text(vx, vy, vz),
{
    let ghost start = s@;
    s.append("  (");
    push_right_aligned(s, vx, 4);
    s.append(",");
    push_right_aligned(s, vy, 3);
    s.append(",");
    push_right_aligned(s, vz, 4);
    proof {
        assert(s@ =~= start + row_position_text(vx, vy, vz));
    }
}

fn push_row_oracle(s: &mut String, oracle_half: u16, full_label: &str, oracle_type: u16)
    ensures
        final(s)@ == old(s)@ + row_oracle_text(oracle_half, full_label@, oracle_type),
{
    let ghost start = s@;
    s.append(") | oracle=");
    push_hex_field(s, oracle_half as u32, 4);
    s.append(" ");
    s.append(full_label);
    s.append(" (type=");
    push_hex_field(s, oracle_type as u32, 4);
    proof {
        assert(s@ =~= start + row_oracle_text(oracle_half, full_label@, oracle_type));
    }
}

fn push_row_words(s: &mut String, chunk: u32, block: u32, voxel_pair: u32)
    ensures
        final(s)@ == old(s)@ + row_words_text(chunk, block, voxel_pair),
{
    let ghost start = s@;
    s.append(") | chunk=");
    push_hex_field(s, chunk, 8);
    s.append(" | block=");
    push_hex_field(s, block, 8);
    s.append(" | vpair=");
    push_hex_field(s, voxel_pair, 8);
    proof {
        assert(s@ =~= start + row_words_text(chunk, block, voxel_pair));
    }
}

fn push_row_voxel(s: &mut String, voxel_half: u16, voxel_type: u16, kind_name: &str, xor_half: u32, match_label: &str)
    ensures
        final(s)@ == old(s)@ + row_voxel_text(voxel_half, voxel_type, kind_name@, xor_half, match_label@),
{
    let ghost start = s@;
    s.append(" | vhalf=");
    push_hex_field(s, voxel_half as u32, 4);
    s.append(" (type=");
    push_hex_field(s, voxel_type as u32, 4);
    s.append(") | ");
    s.append(kind_name);
    s.append(" | XOR-half=");
    push_hex_field(s, xor_half, 4);
    s.append(" | ");
    s.append(match_label);
    s.append("\n");
    proof {
        assert(s@ =~= start + row_voxel_text(voxel_half, voxel_type, kind_name@, xor_half, match_label@));
    }
}

/// Append one row of the report table.
fn push_results_row(
    s: &mut String,
    vx: u32,
    vy: u32,
    vz: u32,
    oracle_half: u16,
    full_label: &str,
    oracle_type: u16,
    chunk: u32,
    block: u32,
    voxel_pair: u32,
    voxel_half: u16,
    voxel_type: u16,
    kind_name: &str,
    xor_half: u32,
    match_label: &str,
)
    ensures
        final(s)@ == old(s)@ + results_table_row(
            vx,
            vy,
            vz,
            oracle_half,
            full_label@,
            oracle_type,
            chunk,
            block,
            voxel_pair,
            voxel_half,
            voxel_type,
            kind_name@,
            xor_half,
            match_label@,
        ),
{
    let ghost start = s@;
    push_row_position(s, vx, vy, vz);
    push_row_oracle(s, oracle_half, full_label, oracle_type);
    push_row_words(s, chunk, block, voxel_pair);
    push_row_voxel(s, voxel_half, voxel_type, kind_name, xor_half, match_label);
    proof {
        assert(s@ =~= start + results_table_row(
            vx,
            vy,
            vz,
            oracle_half,
            full_label@,
            oracle_type,
            chunk,
            block,
            voxel_pair,
            voxel_half,
            voxel_type,
            kind_name@,
            xor_half,
            match_label@,
        ));
    }
}

/// The report row of sample `i`.
pub open spec fn results_row_text(
    positions: Seq<[u32; 3]>,
    oracle: Seq<u16>,
    results: Seq<VoxelReadback>,
    i: int,
) -> Seq<char> {
    let p = positions[i];
    let o = oracle[i];
    let r = results[i];
    results_table_row(
        p[0],
        p[1],
        p[2],
        o,
        if o >= 0x8000 {
            "FULL "@
        } else {
            "EMPTY"@
        },
        (o % 0x8000) as u16,
        r.gpu_chunk_u32,
        r.gpu_block_u32,
        r.gpu_voxel_pair_u32,
        r.gpu_voxel_halfword,
        (r.gpu_voxel_halfword % 0x8000) as u16,
        kind_label(r.kind),
        (r.gpu_voxel_halfword as u32) ^ (o as u32),
        if spec_matches_oracle(r, o) {
            "MATCH"@
        } else {
            "MISMATCH"@
        },
    )
}

/// The row of sample `i` up to its verdict.
pub open spec fn results_row_body(
    positions: Seq<[u32; 3]>,
    oracle: Seq<u16>,
    results: Seq<VoxelReadback>,
    i: int,
) -> Seq<char> {
    let p = positions[i];
    let o = oracle[i];
    let r = results[i];
    row_position_text(p[0], p[1], p[2]) + row_oracle_text(
        o,
        if o >= 0x8000 {
            "FULL "@
        } else {
            "EMPTY"@
        },
        (o % 0x8000) as u16,
    ) + row_words_text(r.gpu_chunk_u32, r.gpu_block_u32, r.gpu_voxel_pair_u32) + row_voxel_head(
        r.gpu_voxel_halfword,
        (r.gpu_voxel_halfword % 0x8000) as u16,
        kind_label(r.kind),
        (r.gpu_voxel_halfword as u32) ^ (o as u32),
    )
}

proof fn lemma_position_no_newline(vx: u32, vy: u32, vz: u32)
    ensures
        no_newline(row_position_text(vx, vy, vz)),
{
    reveal_strlit("  (");
    reveal_strlit(",");
    lemma_fields_no_newline(vx, 4);
    lemma_fields_no_newline(vy, 3);
    lemma_fields_no_newline(vz, 4);
    let a1 = "  ("@ + right_aligned(vx, 4);
    lemma_concat_no_newline("  ("@, right_aligned(vx, 4));
    lemma_concat_no_newline(a1, ","@);
    lemma_concat_no_newline(a1 + ","@, right_aligned(vy, 3));
    let a3 = a1 + ","@ + right_aligned(vy, 3);
    lemma_concat_no_newline(a3, ","@);
    lemma_concat_no_newline(a3 + ","@, right_aligned(vz, 4));
}

proof fn lemma_oracle_no_newline(oracle_half: u16, full_label: Seq<char>, oracle_type: u16)
    requires
        no_newline(full_label),
    ensures
        no_newline(row_oracle_text(oracle_half, full_label, oracle_type)),
{
    reveal_strlit(") | oracle=");
    reveal_strlit(" ");
    reveal_strlit(" (type=");
    lemma_fields_no_newline(oracle_half as u32, 4);
    lemma_fields_no_newline(oracle_type as u32, 4);
    let a1 = ") | oracle="@ + hex_field(oracle_half as u32, 4);
    lemma_concat_no_newline(") | oracle="@, hex_field(oracle_half as u32, 4));
    lemma_concat_no_newline(a1, " "@);
    lemma_concat_no_newline(a1 + " "@, full_label);
    let a3 = a1 + " "@ + full_label;
    lemma_concat_no_newline(a3, " (type="@);
    lemma_concat_no_newline(a3 + " (type="@, hex_field(oracle_type as u32, 4));
}

proof fn lemma_words_no_newline(chunk: u32, block: u32, voxel_pair: u32)
    ensures
        no_newline(row_words_text(chunk, block, voxel_pair)),
{
    reveal_strlit(") | chunk=");
    reveal_strlit(" | block=");
    reveal_strlit(" | vpair=");
    lemma_fields_no_newline(chunk, 8);
    lemma_fields_no_newline(block, 8);
    lemma_fields_no_newline(voxel_pair, 8);
    let a1 = ") | chunk="@ + hex_field(chunk, 8);
    lemma_concat_no_newline(") | chunk="@, hex_field(chunk, 8));
    lemma_concat_no_newline(a1, " | block="@);
    lemma_concat_no_newline(a1 + " | block="@, hex_field(block, 8));
    let a3 = a1 + " | block="@ + hex_field(block, 8);
    lemma_concat_no_newline(a3, " | vpair="@);
    lemma_concat_no_newline(a3 + " | vpair="@, hex_field(voxel_pair, 8));
}

proof fn lemma_voxel_head_no_newline(voxel_half: u16, voxel_type: u16, kind_name: Seq<char>, xor_half: u32)
    requires
        no_newline(kind_name),
    ensures
        no_newline(row_voxel_head(voxel_half, voxel_type, kind_name, xor_half)),
{
    reveal_strlit(" | vhalf=");
    reveal_strlit(" (type=");
    reveal_strlit(") | ");
    reveal_strlit(" | XOR-half=");
    lemma_fields_no_newline(voxel_half as u32, 4);
    lemma_fields_no_newline(voxel_type as u32, 4);
    lemma_fields_no_newline(xor_half, 4);
    let a1 = " | vhalf="@ + hex_field(voxel_half as u32, 4);
    lemma_concat_no_newline(" | vhalf="@, hex_field(voxel_half as u32, 4));
    lemma_concat_no_newline(a1, " (type="@);
    lemma_concat_no_newline(a1 + " (type="@, hex_field(voxel_type as u32, 4));
    let a3 = a1 + " (type="@ + hex_field(voxel_type as u32, 4);
    lemma_concat_no_newline(a3, ") | "@);
    lemma_concat_no_newline(a3 + ") | "@, kind_name);
    let a5 = a3 + ") | "@ + kind_name;
    lemma_concat_no_newline(a5, " | XOR-half="@);
    lemma_concat_no_newline(a5 + " | XOR-half="@, hex_field(xor_half, 4));
}

proof fn lemma_kind_label_no_newline(kind: u8)
    ensures
        no_newline(kind_label(kind)),
{
    reveal_strlit("EMPTY-CHUNK");
    reveal_strlit("UNIFORM-FULL-CHUNK");
    reveal_strlit("MIXED-CHUNK / EMPTY-BLOCK");
    reveal_strlit("MIXED-CHUNK / UNIFORM-FULL-BLOCK");
    reveal_strlit("MIXED-CHUNK / MIXED-BLOCK / EMPTY-VOXEL");
    reveal_strlit("MIXED-CHUNK / MIXED-BLOCK / FULL-VOXEL");
    reveal_strlit("?");
}

/// Every row of the report table is one line: a text without newlines, then
/// ` | MATCH` when the sample agrees with the oracle and ` | MISMATCH` when
/// it does not, then the row's only newline.
pub proof fn lemma_results_row_is_one_line(
    positions: Seq<[u32; 3]>,
    oracle: Seq<u16>,
    results: Seq<VoxelReadback>,
    i: int,
)
    ensures
        ({
            let verdict = if spec_matches_oracle(results[i], oracle[i]) {
                " | MATCH"@
            } else {
                " | MISMATCH"@
            };
            &&& results_row_text(positions, oracle, results, i) == results_row_body(
                positions,
                oracle,
                results,
                i,
            ) + verdict + "\n"@
            &&& no_newline(results_row_body(positions, oracle, results, i))
            &&& no_newline(verdict)
        }),
{
    let p = positions[i];
    let o = oracle[i];
    let r = results[i];
    reveal_strlit("FULL ");
    reveal_strlit("EMPTY");
    reveal_strlit(" | ");
    reveal_strlit("MATCH");
    reveal_strlit("MISMATCH");
    reveal_strlit(" | MATCH");
    reveal_strlit(" | MISMATCH");
    let full = if o >= 0x8000 {
        "FULL "@
    } else {
        "EMPTY"@
    };
    let m = if spec_matches_oracle(r, o) {
        "MATCH"@
    } else {
        "MISMATCH"@
    };
    let verdict = if spec_matches_oracle(r, o) {
        " | MATCH"@
    } else {
        " | MISMATCH"@
    };
    lemma_position_no_newline(p[0], p[1], p[2]);
    lemma_oracle_no_newline(o, full, (o % 0x8000) as u16);
    lemma_words_no_newline(r.gpu_chunk_u32, r.gpu_block_u32, r.gpu_voxel_pair_u32);
    lemma_kind_label_no_newline(r.kind);
    let head = row_voxel_head(
        r.gpu_voxel_halfword,
        (r.gpu_voxel_halfword % 0x8000) as u16,
        kind_label(r.kind),
        (r.gpu_voxel_halfword as u32) ^ (o as u32),
    );
    lemma_voxel_head_no_newline(
        r.gpu_voxel_halfword,
        (r.gpu_voxel_halfword % 0x8000) as u16,
        kind_label(r.kind),
        (r.gpu_voxel_halfword as u32) ^ (o as u32),
    );
    let pos = row_position_text(p[0], p[1], p[2]);
    let orc = row_oracle_text(o, full, (o % 0x8000) as u16);
    let words = row_words_text(r.gpu_chunk_u32, r.gpu_block_u32, r.gpu_voxel_pair_u32);
    lemma_concat_no_newline(pos, orc);
    lemma_concat_no_newline(pos + orc, words);
    lemma_concat_no_newline(pos + orc + words, head);
    assert(verdict =~= " | "@ + m);
    lemma_regroup(pos + orc + words, head, " | "@, m, "\n"@);
}

proof fn lemma_regroup(x: Seq<char>, h: Seq<char>, sep: Seq<char>, m: Seq<char>, nl: Seq<char>)
    ensures
        x + (h + sep + m + nl) == (x + h) + (sep + m) + nl,
{
    assert(x + (h + sep + m + nl) =~= (x + h) + (sep + m) + nl);
}

/// The rows of the first `n` samples, in order.
pub open spec fn results_rows_text(
    positions: Seq<[u32; 3]>,
    oracle: Seq<u16>,
    results: Seq<VoxelReadback>,
    n: int,
) -> Seq<char>
    decreases n,
{
    if n <= 0 {
        Seq::empty()
    } else {
        results_rows_text(positions, oracle, results, n - 1) + results_row_text(
            positions,
            oracle,
            results,
            n - 1,
        )
    }
}

/// Append the report row of sample `i`.
fn push_sample_row(s: &mut String, positions: &[[u32; 3]], oracle: &[u16], results: &[VoxelReadback], i: usize)
    requires
        i < positions@.len(),
        i < oracle@.len(),
        i < results@.len(),
    ensures
        final(s)@ == old(s)@ + results_row_text(positions@, oracle@, results@, i as int),
{
    let p = positions[i];
    let r = &results[i];
    let oracle_half = oracle[i];
    let oracle_full = (oracle_half & 0x8000) != 0;
    let oracle_type = oracle_half & 0x7FFF;
    let m = r.matches_oracle(oracle_half);
    let name = kind_name(r.kind);
    let xor_half = (r.gpu_voxel_halfword as u32) ^ (oracle_half as u32);
    proof {
        lemma_half_bits(oracle_half);
        lemma_half_bits(r.gpu_voxel_halfword);
    }
    let full_label = if oracle_full {
        "FULL "
    } else {
        "EMPTY"
    };
    let match_label = if m {
        "MATCH"
    } else {
        "MISMATCH"
    };
    push_results_row(
        s,
        p[0],
        p[1],
        p[2],
        oracle_half,
        full_label,
        oracle_type,
        r.gpu_chunk_u32,
        r.gpu_block_u32,
        r.gpu_voxel_pair_u32,
        r.gpu_voxel_halfword,
        r.gpu_voxel_halfword & 0x7FFF,
        name,
        xor_half,
        match_label,
    );
}

/// The per-sample readback table of a report: the header line for `label`,
/// then one row per sample position.
pub fn render_results_table(
    label: &str,
    positions: &[[u32; 3]],
    oracle: &[u16],
    results: &[VoxelReadback],
) -> (s: String)
    requires
        oracle@.len() >= positions@.len(),
        results@.len() >= positions@.len(),
    ensures
        s@ == results_table_header(label@) + results_rows_text(
            positions@,
            oracle@,
            results@,
            positions@.len() as int,
        ),
{
    let mut s = String::new();
    s.append("\n[");
    s.append(label);
    s.append(
        " table — voxel position | oracle half | GPU chunk | GPU block | GPU voxel-pair | GPU voxel-half | kind | match?]\n",
    );
    let mut i: usize = 0;
    while i < positions.len()
        invariant
            i <= positions@.len(),
            oracle@.len() >= positions@.len(),
            results@.len() >= positions@.len(),
            s@ == results_table_header(label@) + results_rows_text(positions@, oracle@, results@, i as int),
        decreases positions@.len() - i,
    {
        push_sample_row(&mut s, positions, oracle, results, i);
        proof {
            assert(s@ =~= results_table_header(label@) + results_rows_text(
                positions@,
                oracle@,
                results@,
                i + 1,
            ));
        }
        i = i + 1;
    }
    s
}

} // verus!
