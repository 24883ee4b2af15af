//! The generator's source model: a chunk/block/voxel cell tree.
//!
//! Each chunk word carries a 2-bit discriminant in bits 30..32: 1 is a
//! uniformly full chunk whose low 30 bits are the voxel type, 2 is a mixed
//! chunk whose low 30 bits point at its 64 block words, anything else is an
//! empty chunk. Block words are encoded the same way, a mixed block pointing at
//! its 32 voxel words; a voxel word holds two voxels, the even-indexed one in
//! its low half, each as a 16-bit cell whose low 15 bits are the type.

use vstd::prelude::*;

use crate::bits::{lemma_tag_word, lemma_word_bits};
use crate::layout::{chunk_index, chunk_pos, lemma_chunk_index_pos, sub_index};

verus! {

/// The generator's source model.
pub struct ModelData {
    /// Model extent in chunks.
    pub size_in_chunks: [u32; 3],
    /// One word per chunk, x-fastest.
    pub data_chunk: Vec<u32>,
    /// Block words, 64 per mixed chunk.
    pub data_block: Vec<u32>,
    /// Voxel words, 32 per mixed block.
    pub data_voxel: Vec<u32>,
}

/// The 2-bit discriminant of a chunk or block word.
pub open spec fn cell_disc(word: u32) -> int {
    word as int / 0x4000_0000
}

/// The 30-bit payload of a chunk or block word.
pub open spec fn cell_payload(word: u32) -> int {
    word as int % 0x4000_0000
}

impl ModelData {
    /// Number of chunks of the model.
    pub open spec fn chunk_count(&self) -> int {
        self.size_in_chunks[0] * self.size_in_chunks[1] * self.size_in_chunks[2]
    }

    /// The model's extents fit `u32` voxel arithmetic and every pointer of a
    /// mixed chunk, and of each mixed block such a chunk points at, stays
    /// inside the word arrays.
    pub open spec fn wf(&self) -> bool {
        &&& self.size_in_chunks[0] * 16 <= u32::MAX
        &&& self.size_in_chunks[1] * 16 <= u32::MAX
        &&& self.size_in_chunks[2] * 16 <= u32::MAX
        &&& self.chunk_count() <= u32::MAX
        &&& self.chunk_count() <= self.data_chunk@.len()
        &&& forall|c: int|
            #![trigger self.data_chunk@[c]]
            0 <= c < self.chunk_count() && cell_disc(self.data_chunk@[c]) == 2 ==> {
                &&& cell_payload(self.data_chunk@[c]) + 64 <= self.data_block@.len()
                &&& forall|b: int|
                    #![trigger self.data_block@[cell_payload(self.data_chunk@[c]) + b]]
                    0 <= b < 64 && cell_disc(self.data_block@[cell_payload(self.data_chunk@[c]) + b])
                        == 2 ==> cell_payload(
                        self.data_block@[cell_payload(self.data_chunk@[c]) + b],
                    ) + 32 <= self.data_voxel@.len()
            }
    }

    /// The voxel type the model holds at voxel `(x, y, z)` of its own extent.
    pub open spec fn voxel_type(&self, x: int, y: int, z: int) -> u32 {
        let msc = self.size_in_chunks;
        let ci = (x / 16) + (y / 16) * msc[0] + (z / 16) * (msc[0] * msc[1]);
        let chunk = self.data_chunk@[ci];
        if cell_disc(chunk) == 2 {
            let block_index = sub_index((x % 16) / 4, (y % 16) / 4, (z % 16) / 4);
            let block = self.data_block@[cell_payload(chunk) + block_index];
            if cell_disc(block) == 2 {
                let voxel_index = sub_index(x % 4, y % 4, z % 4);
                let word = self.data_voxel@[cell_payload(block) + voxel_index / 2];
                if voxel_index % 2 == 0 {
                    (word as int % 0x8000) as u32
                } else {
                    ((word as int / 0x1_0000) % 0x8000) as u32
                }
            } else if cell_disc(block) == 1 {
                cell_payload(block) as u32
            } else {
                0
            }
        } else if cell_disc(chunk) == 1 {
            cell_payload(chunk) as u32
        } else {
            0
        }
    }
}

impl ModelData {
    /// Each axis of the model, in voxels, fits a `u32`.
    pub open spec fn extents_fit(&self) -> bool {
        &&& self.size_in_chunks[0] * 16 <= u32::MAX
        &&& self.size_in_chunks[1] * 16 <= u32::MAX
        &&& self.size_in_chunks[2] * 16 <= u32::MAX
    }

    /// The words read to find the type of voxel `(x, y, z)` of the model's
    /// own extent lie inside the word arrays, and its chunk index fits a
    /// `u32`.
    pub open spec fn reads_in_bounds(&self, x: int, y: int, z: int) -> bool {
        let msc = self.size_in_chunks;
        let ci = (x / 16) + (y / 16) * msc[0] + (z / 16) * (msc[0] * msc[1]);
        let chunk = self.data_chunk@[ci];
        let block_index = sub_index((x % 16) / 4, (y % 16) / 4, (z % 16) / 4);
        let block = self.data_block@[cell_payload(chunk) + block_index];
        let voxel_index = sub_index(x % 4, y % 4, z % 4);
        &&& ci <= u32::MAX
        &&& ci < self.data_chunk@.len()
        &&& cell_disc(chunk) == 2 ==> {
            &&& cell_payload(chunk) + block_index < self.data_block@.len()
            &&& cell_disc(block) == 2 ==> cell_payload(block) + voxel_index / 2 < self.data_voxel@.len()
        }
    }
}

/// The words a probe of world voxel `pos` reads lie inside the model's word
/// arrays (a position outside the world reads none).
pub open spec fn probe_reads_in_bounds(model: &ModelData, world_voxels: [u32; 3], pos: [i64; 3]) -> bool {
    (0 <= pos[0] < world_voxels[0] && 0 <= pos[1] < world_voxels[1] && 0 <= pos[2] < world_voxels[2])
        ==> model.reads_in_bounds(
        pos[0] as int % (model.size_in_chunks[0] * 16),
        pos[1] as int % (model.size_in_chunks[1] * 16),
        pos[2] as int % (model.size_in_chunks[2] * 16),
    )
}

/// The voxel type the generator places at world voxel `pos` of a world of
/// `world_voxels` voxels: 0 outside the world; otherwise the model tiled
/// horizontally (`pos % model extent`) and not repeated upward (0 above the
/// model's first copy).
pub open spec fn spec_probe(model: &ModelData, world_voxels: [u32; 3], pos: [i64; 3]) -> u32 {
    if pos[0] < 0 || pos[1] < 0 || pos[2] < 0 || pos[0] >= world_voxels[0] || pos[1]
        >= world_voxels[1] || pos[2] >= world_voxels[2] {
        0
    } else {
        let ex: int = model.size_in_chunks[0] * 16;
        let ey: int = model.size_in_chunks[1] * 16;
        let ez: int = model.size_in_chunks[2] * 16;
        if pos[1] as int / ey > 0 {
            0
        } else {
            model.voxel_type(pos[0] as int % ex, pos[1] as int % ey, pos[2] as int % ez)
        }
    }
}

/// The voxel type at world voxel `pos`, as [`spec_probe`] states.
pub fn probe_model_voxel(model: &ModelData, world_voxels: [u32; 3], pos: [i64; 3]) -> (ty: u32)
    requires
        model.extents_fit(),
        model.size_in_chunks[0] >= 1,
        model.size_in_chunks[1] >= 1,
        model.size_in_chunks[2] >= 1,
        probe_reads_in_bounds(model, world_voxels, pos),
    ensures
        ty == spec_probe(model, world_voxels, pos),
{
    if pos[0] < 0 || pos[1] < 0 || pos[2] < 0 || pos[0] >= world_voxels[0] as i64 || pos[1]
        >= world_voxels[1] as i64 || pos[2] >= world_voxels[2] as i64 {
        return 0;
    }
    let msc = model.size_in_chunks;
    let vx = pos[0] as u32;
    let vy = pos[1] as u32;
    let vz = pos[2] as u32;
    let model_extent_v = [msc[0] * 16, msc[1] * 16, msc[2] * 16];
    let vpim = [vx % model_extent_v[0], vy % model_extent_v[1], vz % model_extent_v[2]];
    let model_index_y = vy / (msc[1] * 16);
    let cpim = [vpim[0] / 16, vpim[1] / 16, vpim[2] / 16];
    let ghost ci: int = cpim[0] + cpim[1] * msc[0] + cpim[2] * (msc[0] * msc[1]);
    proof {
        let (m0, m1, m2) = (msc[0] as int, msc[1] as int, msc[2] as int);
        assert(model.reads_in_bounds(vpim[0] as int, vpim[1] as int, vpim[2] as int));
        assert(ci <= u32::MAX);
        assert(cpim[2] * msc[0] * msc[1] == cpim[2] * (m0 * m1)) by (nonlinear_arith)
            requires
                m0 == msc[0],
                m1 == msc[1],
        ;
        assert(cpim[2] * msc[0] <= cpim[2] * msc[0] * msc[1]) by (nonlinear_arith)
            requires
                msc[1] >= 1,
        ;
        assert(0 <= cpim[1] * msc[0]) by (nonlinear_arith);
        assert(0 <= cpim[2] * msc[0]) by (nonlinear_arith);
    }
    let chunk_index_in_model = (cpim[0] + cpim[1] * msc[0] + cpim[2] * msc[0] * msc[1]) as usize;
    let chunk = model.data_chunk[chunk_index_in_model];
    let mut ty: u32 = 0;
    let chunk_disc = chunk >> 30;
    proof {
        lemma_word_bits(chunk);
    }
    if chunk_disc == 2 {
        let mbpic = [(vpim[0] % 16) / 4, (vpim[1] % 16) / 4, (vpim[2] % 16) / 4];
        let model_block_index = mbpic[0] + mbpic[1] * 4 + mbpic[2] * 16;
        let block_addr = ((chunk & 0x3FFF_FFFF) + model_block_index) as usize;
        let block = model.data_block[block_addr];
        let block_disc = block >> 30;
        proof {
            lemma_word_bits(block);
        }
        if block_disc == 2 {
            let mvpic = [vpim[0] % 4, vpim[1] % 4, vpim[2] % 4];
            let model_voxel_index = mvpic[0] + mvpic[1] * 4 + mvpic[2] * 16;
            let voxel_addr = ((block & 0x3FFF_FFFF) + model_voxel_index / 2) as usize;
            let voxel_comp = model.data_voxel[voxel_addr];
            proof {
                lemma_word_bits(voxel_comp);
            }
            ty = if model_voxel_index % 2 == 0 {
                voxel_comp & 0x7FFF
            } else {
                (voxel_comp >> 16) & 0x7FFF
            };
        } else if block_disc == 1 {
            ty = block & 0x3FFF_FFFF;
        }
    } else if chunk_disc == 1 {
        ty = chunk & 0x3FFF_FFFF;
    }
    if model_index_y > 0 {
        return 0;
    }
    ty
}

/// The extent scanned for populated voxels: the smaller of the model's and
/// the world's extent on each axis.
pub open spec fn scan_upper(model: &ModelData, world_voxels: [u32; 3]) -> [int; 3] {
    [
        vstd::math::min(model.size_in_chunks[0] * 16, world_voxels[0] as int),
        vstd::math::min(model.size_in_chunks[1] * 16, world_voxels[1] as int),
        vstd::math::min(model.size_in_chunks[2] * 16, world_voxels[2] as int),
    ]
}

/// The scan strides: an x and z step of a sixteenth of the scanned extent and
/// a y step of a twenty-fourth of it, at least 8, 4 and 8 voxels.
pub open spec fn scan_strides(upper: [int; 3]) -> [int; 3] {
    [
        vstd::math::max(upper[0] / 16, 8),
        vstd::math::max(upper[1] / 24, 4),
        vstd::math::max(upper[2] / 16, 8),
    ]
}

/// Number of multiples of `stride` below `upper`.
pub open spec fn scan_steps(upper: int, stride: int) -> int {
    (upper + stride - 1) / stride
}

/// The probe positions in scan order: y outermost, then z, then x innermost,
/// each axis stepping by its stride from 0 while below the scanned extent.
pub open spec fn scan_positions(model: &ModelData, world_voxels: [u32; 3]) -> Seq<[u32; 3]> {
    let up = scan_upper(model, world_voxels);
    let s = scan_strides(up);
    let nx = scan_steps(up[0], s[0]);
    let ny = scan_steps(up[1], s[1]);
    let nz = scan_steps(up[2], s[2]);
    Seq::new(
        (nx * nz * ny) as nat,
        |t: int|
            {
                let p = chunk_pos(nx, nz, t);
                [(p.0 * s[0]) as u32, (p.2 * s[1]) as u32, (p.1 * s[2]) as u32]
            },
    )
}

/// Every probe of the scan reads inside the model's word arrays.
pub open spec fn scan_reads_in_bounds(model: &ModelData, world_voxels: [u32; 3]) -> bool {
    let scan = scan_positions(model, world_voxels);
    forall|t: int|
        0 <= t < scan.len() ==> #[trigger] model.reads_in_bounds(scan[t][0] as int, scan[t][1] as int, scan[t][2] as int)
}

/// A well-formed model reads inside its word arrays at every voxel of its own
/// extent.
pub proof fn lemma_wf_reads_in_bounds(model: &ModelData, x: int, y: int, z: int)
    requires
        model.wf(),
        0 <= x < model.size_in_chunks[0] * 16,
        0 <= y < model.size_in_chunks[1] * 16,
        0 <= z < model.size_in_chunks[2] * 16,
    ensures
        model.reads_in_bounds(x, y, z),
{
    let msc = model.size_in_chunks;
    let (m0, m1, m2) = (msc[0] as int, msc[1] as int, msc[2] as int);
    assert(x / 16 < m0 && y / 16 < m1 && z / 16 < m2);
    crate::volume::lemma_linear_index_bounds(m0, m1, m2, x / 16, y / 16, z / 16);
    let ci = (x / 16) + (y / 16) * m0 + (z / 16) * (m0 * m1);
    assert(ci == crate::volume::linear_index(m0, m1, x / 16, y / 16, z / 16));
    assert(ci < model.chunk_count());
    let chunk = model.data_chunk@[ci];
    let block_index = sub_index((x % 16) / 4, (y % 16) / 4, (z % 16) / 4);
    let voxel_index = sub_index(x % 4, y % 4, z % 4);
    assert(0 <= block_index < 64);
    assert(0 <= voxel_index < 64);
}

/// The scan of a well-formed model reads inside its word arrays.
pub proof fn lemma_wf_scan_reads_in_bounds(model: &ModelData, world_voxels: [u32; 3])
    requires
        model.wf(),
    ensures
        scan_reads_in_bounds(model, world_voxels),
{
    let scan = scan_positions(model, world_voxels);
    let up = scan_upper(model, world_voxels);
    let st = scan_strides(up);
    let nx = scan_steps(up[0], st[0]);
    let ny = scan_steps(up[1], st[1]);
    let nz = scan_steps(up[2], st[2]);
    assert forall|t: int| 0 <= t < scan.len() implies #[trigger] model.reads_in_bounds(
        scan[t][0] as int,
        scan[t][1] as int,
        scan[t][2] as int,
    ) by {
        let p = chunk_pos(nx, nz, t);
        lemma_scan_steps(up[0], st[0], 0);
        lemma_scan_steps(up[1], st[1], 0);
        lemma_scan_steps(up[2], st[2], 0);
        assert(nx > 0 && nz > 0) by {
            if nx == 0 || nz == 0 {
                assert(nx * nz * ny == 0) by (nonlinear_arith)
                    requires
                        nx == 0 || nz == 0,
                ;
            }
        }
        crate::layout::lemma_chunk_pos_index(nx, nz, ny, t);
        lemma_scan_steps(up[0], st[0], p.0);
        lemma_scan_steps(up[2], st[2], p.1);
        lemma_scan_steps(up[1], st[1], p.2);
        assert(0 <= p.0 * st[0]) by (nonlinear_arith)
            requires
                p.0 >= 0,
                st[0] > 0,
        ;
        assert(0 <= p.1 * st[2]) by (nonlinear_arith)
            requires
                p.1 >= 0,
                st[2] > 0,
        ;
        assert(0 <= p.2 * st[1]) by (nonlinear_arith)
            requires
                p.2 >= 0,
                st[1] > 0,
        ;
        lemma_wf_reads_in_bounds(model, p.0 * st[0], p.2 * st[1], p.1 * st[2]);
    }
}

/// The probe positions, in scan order, at which the model places a non-empty
/// voxel in the world.
pub open spec fn populated_positions(model: &ModelData, world_voxels: [u32; 3]) -> Seq<[u32; 3]> {
    scan_positions(model, world_voxels).filter(
        |p: [u32; 3]| spec_probe(model, world_voxels, [p[0] as i64, p[1] as i64, p[2] as i64]) != 0,
    )
}

/// The result of [`discover_populated_oasis_voxels`]: the first populated
/// positions in scan order, as many as `limit` (all of them when fewer are
/// populated).
pub open spec fn discovered_positions(model: &ModelData, world_voxels: [u32; 3], limit: int) -> Seq<[u32; 3]> {
    let found = populated_positions(model, world_voxels);
    found.take(vstd::math::min(found.len() as int, limit))
}

/// Every discovered position is inside the world and holds a non-empty voxel
/// of the model, and there are at most `limit` of them.
pub proof fn lemma_discovered_are_populated(model: &ModelData, world_voxels: [u32; 3], limit: int)
    requires
        limit >= 0,
    ensures
        discovered_positions(model, world_voxels, limit).len() <= limit,
        forall|i: int|
            0 <= i < discovered_positions(model, world_voxels, limit).len() ==> {
                let p = #[trigger] discovered_positions(model, world_voxels, limit)[i];
                &&& p[0] < world_voxels[0] && p[1] < world_voxels[1] && p[2] < world_voxels[2]
                &&& spec_probe(model, world_voxels, [p[0] as i64, p[1] as i64, p[2] as i64]) != 0
            },
{
    let pred = |p: [u32; 3]| spec_probe(model, world_voxels, [p[0] as i64, p[1] as i64, p[2] as i64]) != 0;
    let found = populated_positions(model, world_voxels);
    broadcast use vstd::seq_lib::group_filter_ensures;

    assert forall|i: int| 0 <= i < discovered_positions(model, world_voxels, limit).len() implies {
        let p = #[trigger] discovered_positions(model, world_voxels, limit)[i];
        &&& p[0] < world_voxels[0] && p[1] < world_voxels[1] && p[2] < world_voxels[2]
        &&& spec_probe(model, world_voxels, [p[0] as i64, p[1] as i64, p[2] as i64]) != 0
    } by {
        assert(discovered_positions(model, world_voxels, limit)[i] == found[i]);
        assert(pred(found[i]));
    }
}

/// A multiple `i * s` of a positive stride lies below `upper` exactly when `i`
/// is below the number of steps.
proof fn lemma_scan_steps(upper: int, s: int, i: int)
    requires
        s > 0,
        upper >= 0,
        i >= 0,
    ensures
        (i * s < upper) == (i < scan_steps(upper, s)),
        scan_steps(upper, s) >= 0,
{
    let n = scan_steps(upper, s);
    vstd::arithmetic::div_mod::lemma_fundamental_div_mod(upper + s - 1, s);
    vstd::arithmetic::div_mod::lemma_mod_pos_bound(upper + s - 1, s);
    assert(n >= 0) by {
        vstd::arithmetic::div_mod::lemma_div_pos_is_pos(upper + s - 1, s);
    }
    if i * s < upper {
        assert(i < n) by (nonlinear_arith)
            requires
                i * s < upper,
                upper + s - 1 == s * n + (upper + s - 1) % s,
                0 <= (upper + s - 1) % s < s,
                s > 0,
        ;
    } else {
        assert(!(i < n)) by (nonlinear_arith)
            requires
                i * s >= upper,
                upper + s - 1 == s * n + (upper + s - 1) % s,
                0 <= (upper + s - 1) % s < s,
                s > 0,
                i >= 0,
        ;
    }
}

/// The populated positions in scan order, stopping once `lim` are found.
#[verifier::rlimit(50)]
fn scan_populated(model: &ModelData, world_voxels: [u32; 3], lim: usize) -> (out: Vec<[u32; 3]>)
    requires
        model.extents_fit(),
        scan_reads_in_bounds(model, world_voxels),
        lim >= 1,
    ensures
        out@.len() <= lim,
        out@.len() <= populated_positions(model, world_voxels).len(),
        out@ == populated_positions(model, world_voxels).take(out@.len() as int),
        out@.len() < lim ==> out@ == populated_positions(model, world_voxels),
{
    let msc = model.size_in_chunks;
    let model_voxels = [msc[0] * 16, msc[1] * 16, msc[2] * 16];
    let upper = [
        if model_voxels[0] < world_voxels[0] { model_voxels[0] } else { world_voxels[0] },
        if model_voxels[1] < world_voxels[1] { model_voxels[1] } else { world_voxels[1] },
        if model_voxels[2] < world_voxels[2] { model_voxels[2] } else { world_voxels[2] },
    ];
    let stride_x: u32 = if upper[0] / 16 > 8 { upper[0] / 16 } else { 8 };
    let stride_y: u32 = if upper[1] / 24 > 4 { upper[1] / 24 } else { 4 };
    let stride_z: u32 = if upper[2] / 16 > 8 { upper[2] / 16 } else { 8 };
    let ghost up = scan_upper(model, world_voxels);
    let ghost st = scan_strides(up);
    assert(upper@ =~= seq![up[0] as u32, up[1] as u32, up[2] as u32]);
    assert(stride_x == st[0] && stride_y == st[1] && stride_z == st[2]);
    let ghost nx = scan_steps(up[0], st[0]);
    let ghost ny = scan_steps(up[1], st[1]);
    let ghost nz = scan_steps(up[2], st[2]);
    let ghost scan = scan_positions(model, world_voxels);
    let ghost pred = |p: [u32; 3]| spec_probe(model, world_voxels, [p[0] as i64, p[1] as i64, p[2] as i64]) != 0;
    let ghost found = populated_positions(model, world_voxels);
    let mut out: Vec<[u32; 3]> = Vec::new();
    proof {
        lemma_scan_steps(up[0], st[0], 0);
        lemma_scan_steps(up[1], st[1], 0);
        lemma_scan_steps(up[2], st[2], 0);
        assert(scan.take(0) =~= Seq::<[u32; 3]>::empty());
        reveal(Seq::filter);
        assert(nx * nz >= 0) by (nonlinear_arith)
            requires
                nx >= 0,
                nz >= 0,
        ;
        assert(nx * nz * ny >= 0) by (nonlinear_arith)
            requires
                nx * nz >= 0,
                ny >= 0,
        ;
    }
    if upper[0] > 0 && upper[1] > 0 && upper[2] > 0 {
        let mut vx: u64 = 0;
        let mut vy: u64 = 0;
        let mut vz: u64 = 0;
        let ghost mut ix: int = 0;
        let ghost mut iy: int = 0;
        let ghost mut iz: int = 0;
        let ghost mut t: int = 0;
        proof {
            lemma_scan_steps(up[0], st[0], 0);
            lemma_scan_steps(up[1], st[1], 0);
            lemma_scan_steps(up[2], st[2], 0);
        }
        proof {
            assert(nx >= 1 && nz >= 1 && ny >= 1);
            assert(nx * nz * ny >= 1) by (nonlinear_arith)
                requires
                    nx >= 1,
                    nz >= 1,
                    ny >= 1,
            ;
        }
        while vy < upper[1] as u64 && out.len() < lim
            invariant
                model.extents_fit(),
                scan_reads_in_bounds(model, world_voxels),
                upper[0] > 0 && upper[1] > 0 && upper[2] > 0,
                upper@ == seq![up[0] as u32, up[1] as u32, up[2] as u32],
                st == scan_strides(up),
                up == scan_upper(model, world_voxels),
                stride_x == st[0] && stride_y == st[1] && stride_z == st[2],
                nx == scan_steps(up[0], st[0]),
                ny == scan_steps(up[1], st[1]),
                nz == scan_steps(up[2], st[2]),
                scan == scan_positions(model, world_voxels),
                pred == (|p: [u32; 3]| spec_probe(model, world_voxels, [p[0] as i64, p[1] as i64, p[2] as i64]) != 0),
                0 <= ix < nx,
                0 <= iz < nz,
                0 <= iy,
                vx == ix * st[0],
                vy == iy * st[1],
                vz == iz * st[2],
                vx < upper[0],
                vz < upper[2],
                (iy < ny) == (vy < upper[1]),
                t == chunk_index(nx, nz, ix, iz, iy),
                iy < ny ==> t < nx * nz * ny,
                iy >= ny ==> t == nx * nz * ny,
                scan.len() == nx * nz * ny,
                out@ == scan.take(t).filter(pred),
                out@.len() <= lim,
                lim >= 1,
            decreases nx * nz * ny - t,
        {
            proof {
                lemma_scan_steps(up[1], st[1], iy);
                lemma_chunk_index_pos(nx, nz, ix, iz, iy);
                assert(scan[t] == [vx as u32, vy as u32, vz as u32]);
                assert(scan.take(t + 1) =~= scan.take(t).push(scan[t]));
                scan.take(t).lemma_filter_push(scan[t], pred);
                assert(model.reads_in_bounds(scan[t][0] as int, scan[t][1] as int, scan[t][2] as int));
                vstd::arithmetic::div_mod::lemma_small_mod(vx as nat, (model.size_in_chunks[0] * 16) as nat);
                vstd::arithmetic::div_mod::lemma_small_mod(vy as nat, (model.size_in_chunks[1] * 16) as nat);
                vstd::arithmetic::div_mod::lemma_small_mod(vz as nat, (model.size_in_chunks[2] * 16) as nat);
            }
            let ty = probe_model_voxel(model, world_voxels, [vx as i64, vy as i64, vz as i64]);
            if ty != 0 {
                out.push([vx as u32, vy as u32, vz as u32]);
            }
            proof {
                assert(out@ == scan.take(t + 1).filter(pred));
            }
            vx = vx + stride_x as u64;
            proof {
                ix = ix + 1;
                t = t + 1;
            }
            proof {
                assert(vx == ix * st[0]) by (nonlinear_arith)
                    requires
                        vx == (ix - 1) * st[0] + st[0],
                ;
            }
            if vx >= upper[0] as u64 {
                proof {
                    lemma_scan_steps(up[0], st[0], ix);
                    assert(ix == nx);
                }
                vx = 0;
                vz = vz + stride_z as u64;
                proof {
                    assert(t == nx + iz * nx + iy * (nx * nz));
                    ix = 0;
                    iz = iz + 1;
                    assert(t == chunk_index(nx, nz, ix, iz, iy)) by (nonlinear_arith)
                        requires
                            t == nx + (iz - 1) * nx + iy * (nx * nz),
                            ix == 0,
                    ;
                    assert(vz == iz * st[2]) by (nonlinear_arith)
                        requires
                            vz == (iz - 1) * st[2] + st[2],
                    ;
                }
                if vz >= upper[2] as u64 {
                    proof {
                        lemma_scan_steps(up[2], st[2], iz);
                        assert(iz == nz);
                    }
                    vz = 0;
                    vy = vy + stride_y as u64;
                    proof {
                        assert(t == nz * nx + iy * (nx * nz));
                        iz = 0;
                        iy = iy + 1;
                        assert(t == chunk_index(nx, nz, ix, iz, iy)) by (nonlinear_arith)
                            requires
                                t == nz * nx + (iy - 1) * (nx * nz),
                                ix == 0,
                                iz == 0,
                        ;
                        assert(vy == iy * st[1]) by (nonlinear_arith)
                            requires
                                vy == (iy - 1) * st[1] + st[1],
                        ;
                    }
                }
            }
            proof {
                lemma_scan_steps(up[0], st[0], ix);
                lemma_scan_steps(up[2], st[2], iz);
                lemma_scan_steps(up[1], st[1], iy);
                if iy < ny {
                    assert(t < nx * nz * ny) by (nonlinear_arith)
                        requires
                            t == ix + iz * nx + iy * (nx * nz),
                            0 <= ix < nx,
                            0 <= iz < nz,
                            0 <= iy < ny,
                    ;
                } else {
                    assert(t == nx * nz * ny) by (nonlinear_arith)
                        requires
                            t == ix + iz * nx + iy * (nx * nz),
                            ix == 0,
                            iz == 0,
                            iy == ny,
                    ;
                }
            }
        }
        proof {
            assert(0 <= t <= scan.len());
            scan.take(t).lemma_filter_monotone(scan, pred);
            assert(scan.take(t).is_prefix_of(scan));
            if out@.len() < lim {
                assert(iy >= ny);
                assert(scan.take(t) =~= scan);
                assert(out@ == found);
                assert(found.take(out@.len() as int) =~= found);
            } else {
                assert(out@ =~= found.take(out@.len() as int));
            }
        }
    } else {
        proof {
            if upper[0] == 0 {
                assert(nx == 0);
            }
            if upper[1] == 0 {
                assert(ny == 0);
            }
            if upper[2] == 0 {
                assert(nz == 0);
            }
            assert(nx * nz * ny == 0) by (nonlinear_arith)
                requires
                    nx == 0 || ny == 0 || nz == 0,
            ;
            assert(scan =~= Seq::<[u32; 3]>::empty());
            assert(found =~= Seq::<[u32; 3]>::empty());
            assert(out@ =~= found.take(0));
        }
    }
    out
}

/// Scan an Oasis model for world voxel positions that are full in the model
/// and lie inside the world: up to `limit` positions in scan order, only
/// populated ones (none for a limit of 0). The scan is deterministic.
pub fn discover_populated_oasis_voxels(model: &ModelData, world_voxels: [u32; 3], limit: usize) -> (out: Vec<[u32; 3]>)
    requires
        model.extents_fit(),
        scan_reads_in_bounds(model, world_voxels),
    ensures
        out@ == discovered_positions(model, world_voxels, limit as int),
{
    if limit == 0 {
        let empty: Vec<[u32; 3]> = Vec::new();
        assert(empty@ =~= discovered_positions(model, world_voxels, 0));
        return empty;
    }
    let out = scan_populated(model, world_voxels, limit);
    let ghost found = populated_positions(model, world_voxels);
    proof {
        if out@.len() < limit {
            assert(found.take(found.len() as int) =~= found);
        }
    }
    out
}

/// Chunk word `ci` of the mixed fixture model: chunks cycle through empty,
/// uniform full of type `ci % 256 + 1`, and mixed (pointing at the next 64
/// block words).
pub open spec fn mixed_chunk_word(ci: int) -> u32 {
    if ci % 3 == 0 {
        0
    } else if ci % 3 == 1 {
        (0x4000_0000 + ci % 256 + 1) as u32
    } else {
        (0x8000_0000 + 64 * (ci / 3)) as u32
    }
}

/// Block word `k` of the mixed fixture model: block 0 of each mixed chunk is
/// mixed (pointing at the next 32 voxel words), the other 63 are empty.
pub open spec fn mixed_block_word(k: int) -> u32 {
    if k % 64 == 0 {
        (0x8000_0000 + 32 * (k / 64)) as u32
    } else {
        0
    }
}

/// Voxel word `k` of the mixed fixture model: the mixed block of the `j`-th
/// mixed chunk (chunk `ci = 3j + 2`) holds one full voxel of type `0x42` at
/// voxel index `ci % 64`.
pub open spec fn mixed_voxel_word(k: int) -> u32 {
    let ci = 3 * (k / 32) + 2;
    let pos = ci % 64;
    if k % 32 == pos / 2 {
        if pos % 2 == 0 {
            0x8042
        } else {
            0x8042_0000
        }
    } else {
        0
    }
}

/// `model` is the mixed fixture model of `size_in_chunks` chunks.
pub open spec fn is_mixed_model(model: &ModelData, size_in_chunks: [u32; 3]) -> bool {
    let count = size_in_chunks[0] * size_in_chunks[1] * size_in_chunks[2];
    let mixed = count / 3;
    &&& model.size_in_chunks == size_in_chunks
    &&& model.data_chunk@.len() == count
    &&& forall|ci: int| 0 <= ci < count ==> #[trigger] model.data_chunk@[ci] == mixed_chunk_word(ci)
    &&& model.data_block@.len() == if mixed == 0 { 1 } else { 64 * mixed }
    &&& forall|k: int| 0 <= k < model.data_block@.len() ==> #[trigger] model.data_block@[k] == if mixed == 0 {
        0
    } else {
        mixed_block_word(k)
    }
    &&& model.data_voxel@.len() == if mixed == 0 { 1 } else { 32 * mixed }
    &&& forall|k: int| 0 <= k < model.data_voxel@.len() ==> #[trigger] model.data_voxel@[k] == if mixed == 0 {
        0
    } else {
        mixed_voxel_word(k)
    }
}

/// Build a model with diverse per-chunk content: chunk `ci` is empty when
/// `ci % 3 == 0`, uniformly full of type `ci % 256 + 1` when `ci % 3 == 1`,
/// and otherwise mixed with a single full voxel of type `0x42` at voxel index
/// `ci % 64` of its block `(0, 0, 0)`. Empty block or voxel arrays hold a
/// single zero word.
pub fn build_mixed_model_data(model_size_in_chunks: [u32; 3]) -> (model: ModelData)
    requires
        model_size_in_chunks[0] * model_size_in_chunks[1] * model_size_in_chunks[2] <= u32::MAX,
        model_size_in_chunks[0] * model_size_in_chunks[1] * model_size_in_chunks[2] / 3
            <= 0x100_0000,
    ensures
        is_mixed_model(&model, model_size_in_chunks),
{
    proof {
        let (a, b, c) = (
            model_size_in_chunks[0] as int,
            model_size_in_chunks[1] as int,
            model_size_in_chunks[2] as int,
        );
        assert(a * b <= a * b * c || c == 0) by (nonlinear_arith)
            requires
                a >= 0,
                b >= 0,
                c >= 0,
        ;
    }
    let ab = if model_size_in_chunks[2] == 0 {
        0
    } else {
        model_size_in_chunks[0] * model_size_in_chunks[1]
    };
    let chunk_count = (ab * model_size_in_chunks[2]) as usize;
    assert(chunk_count == model_size_in_chunks[0] * model_size_in_chunks[1] * model_size_in_chunks[2]) by (nonlinear_arith)
        requires
            model_size_in_chunks[2] == 0 ==> ab == 0,
            model_size_in_chunks[2] != 0 ==> ab == model_size_in_chunks[0] * model_size_in_chunks[1],
            chunk_count == ab * model_size_in_chunks[2],
    ;
    let mut data_chunk: Vec<u32> = Vec::new();
    let mut data_block: Vec<u32> = Vec::new();
    let mut data_voxel: Vec<u32> = Vec::new();
    let mut ci: usize = 0;
    while ci < chunk_count
        invariant
            ci <= chunk_count,
            chunk_count / 3 <= 0x100_0000,
            data_chunk@.len() == ci,
            forall|c: int| 0 <= c < ci ==> #[trigger] data_chunk@[c] == mixed_chunk_word(c),
            data_block@.len() == 64 * (ci / 3),
            forall|k: int| 0 <= k < data_block@.len() ==> #[trigger] data_block@[k] == mixed_block_word(k),
            data_voxel@.len() == 32 * (ci / 3),
            forall|k: int| 0 <= k < data_voxel@.len() ==> #[trigger] data_voxel@[k] == mixed_voxel_word(k),
        decreases chunk_count - ci,
    {
        let kind = ci % 3;
        proof {
            vstd::arithmetic::div_mod::lemma_div_is_ordered(ci as int, chunk_count as int, 3);
        }
        if kind == 0 {
            data_chunk.push(0u32);
        } else if kind == 1 {
            let ty = ((ci % 256) + 1) as u32;
            proof {
                lemma_word_bits(ty);
                lemma_tag_word(1, ty);
            }
            data_chunk.push((1u32 << 30) | (ty & 0x3FFF_FFFF));
        } else {
            let block_base = data_block.len() as u32;
            proof {
                lemma_tag_word(2, block_base);
            }
            data_chunk.push((2u32 << 30) | block_base);
            let voxel_base = data_voxel.len() as u32;
            proof {
                lemma_tag_word(2, voxel_base);
            }
            let ghost old_blocks = data_block@;
            data_block.push((2u32 << 30) | voxel_base);
            let mut b: usize = 1;
            while b < 64
                invariant
                    1 <= b <= 64,
                    data_block@.len() == old_blocks.len() + b,
                    old_blocks.len() == 64 * (ci / 3),
                    voxel_base == 32 * (ci / 3),
                    forall|k: int| 0 <= k < data_block@.len() ==> #[trigger] data_block@[k] == mixed_block_word(k),
                decreases 64 - b,
            {
                data_block.push(0u32);
                b += 1;
            }
            let pos: u32 = (ci % 64) as u32;
            let pair = pos / 2;
            let voxel_word: u32 = if pos % 2 == 0 {
                (1u32 << 15) | 0x42
            } else {
                ((1u32 << 15) | 0x42) << 16
            };
            assert((1u32 << 15) | 0x42 == 0x8042 && ((1u32 << 15) | 0x42) << 16 == 0x8042_0000) by (bit_vector);
            let ghost old_voxels = data_voxel@;
            let mut v: u32 = 0;
            while v < 32
                invariant
                    v <= 32,
                    pair < 32,
                    pos == ci % 64,
                    pair == pos / 2,
                    ci % 3 == 2,
                    old_voxels.len() == 32 * (ci / 3),
                    data_voxel@.len() == old_voxels.len() + v,
                    voxel_word == if pos % 2 == 0 { 0x8042u32 } else { 0x8042_0000u32 },
                    forall|k: int| 0 <= k < data_voxel@.len() ==> #[trigger] data_voxel@[k] == mixed_voxel_word(k),
                decreases 32 - v,
            {
                proof {
                    let k = data_voxel@.len() as int;
                    assert(k / 32 == ci / 3 && k % 32 == v) by {
                        vstd::arithmetic::div_mod::lemma_fundamental_div_mod_converse(k, 32, (ci / 3) as int, v as int);
                    }
                    assert(3 * (ci / 3) + 2 == ci);
                }
                if v == pair {
                    data_voxel.push(voxel_word);
                } else {
                    data_voxel.push(0u32);
                }
                v += 1;
            }
        }
        proof {
            if kind == 2 {
                assert((ci + 1) / 3 == ci / 3 + 1);
            } else {
                assert((ci + 1) / 3 == ci / 3);
            }
        }
        ci += 1;
    }
    let mixed = data_block.len() / 64;
    let final_block = if data_block.len() == 0 {
        vec![0u32]
    } else {
        data_block
    };
    let final_voxel = if data_voxel.len() == 0 {
        vec![0u32]
    } else {
        data_voxel
    };
    let model = ModelData {
        data_chunk,
        data_block: final_block,
        data_voxel: final_voxel,
        size_in_chunks: model_size_in_chunks,
    };
    proof {
        assert(model.data_block@.len() == 1 ==> model.data_block@ =~= seq![0u32]);
    }
    model
}

/// The voxel type the mixed fixture model holds at voxel `(lx, ly, lz)` (each
/// 0..16) of chunk `ci`: 0 in an empty chunk, `ci % 256 + 1` in a uniform
/// chunk, and in a mixed chunk `0x42` at voxel index `ci % 64` of block
/// `(0, 0, 0)`, 0 elsewhere.
pub open spec fn mixed_model_type(ci: int, lx: int, ly: int, lz: int) -> u32 {
    if ci % 3 == 0 {
        0
    } else if ci % 3 == 1 {
        (ci % 256 + 1) as u32
    } else if sub_index(lx / 4, ly / 4, lz / 4) == 0 && sub_index(lx % 4, ly % 4, lz % 4) == ci % 64 {
        0x42
    } else {
        0
    }
}

/// The mixed fixture model is well formed, and every voxel of it holds the
/// type its chunk's class gives it.
pub proof fn lemma_mixed_model_content(model: &ModelData, size_in_chunks: [u32; 3])
    requires
        is_mixed_model(model, size_in_chunks),
        size_in_chunks[0] * 16 <= u32::MAX,
        size_in_chunks[1] * 16 <= u32::MAX,
        size_in_chunks[2] * 16 <= u32::MAX,
        size_in_chunks[0] * size_in_chunks[1] * size_in_chunks[2] <= u32::MAX,
        size_in_chunks[0] * size_in_chunks[1] * size_in_chunks[2] / 3 <= 0x100_0000,
    ensures
        model.wf(),
        forall|x: int, y: int, z: int|
            0 <= x < size_in_chunks[0] * 16 && 0 <= y < size_in_chunks[1] * 16 && 0 <= z
                < size_in_chunks[2] * 16 ==> #[trigger] model.voxel_type(x, y, z) == mixed_model_type(
                chunk_index(size_in_chunks[0] as int, size_in_chunks[1] as int, x / 16, y / 16, z / 16),
                x % 16,
                y % 16,
                z % 16,
            ),
{
    let count = size_in_chunks[0] * size_in_chunks[1] * size_in_chunks[2];
    let mixed = count / 3;
    assert forall|c: int|
        #![trigger model.data_chunk@[c]]
        0 <= c < model.chunk_count() && cell_disc(model.data_chunk@[c]) == 2 implies {
        &&& cell_payload(model.data_chunk@[c]) + 64 <= model.data_block@.len()
        &&& forall|b: int|
            #![trigger model.data_block@[cell_payload(model.data_chunk@[c]) + b]]
            0 <= b < 64 && cell_disc(model.data_block@[cell_payload(model.data_chunk@[c]) + b]) == 2
                ==> cell_payload(model.data_block@[cell_payload(model.data_chunk@[c]) + b]) + 32
                <= model.data_voxel@.len()
    } by {
        assert(model.data_chunk@[c] == mixed_chunk_word(c));
        assert(c % 3 == 2);
        assert(c / 3 < mixed);
        assert(cell_payload(model.data_chunk@[c]) == 64 * (c / 3));
        assert forall|b: int|
            #![trigger model.data_block@[cell_payload(model.data_chunk@[c]) + b]]
            0 <= b < 64 && cell_disc(model.data_block@[cell_payload(model.data_chunk@[c]) + b]) == 2
                implies cell_payload(model.data_block@[cell_payload(model.data_chunk@[c]) + b]) + 32
            <= model.data_voxel@.len() by {
            let k = 64 * (c / 3) + b;
            vstd::arithmetic::div_mod::lemma_fundamental_div_mod_converse(k, 64, c / 3, b);
            assert(model.data_block@[k] == mixed_block_word(k));
        }
    }
    assert forall|x: int, y: int, z: int|
        0 <= x < size_in_chunks[0] * 16 && 0 <= y < size_in_chunks[1] * 16 && 0 <= z
            < size_in_chunks[2] * 16 implies #[trigger] model.voxel_type(x, y, z) == mixed_model_type(
        chunk_index(size_in_chunks[0] as int, size_in_chunks[1] as int, x / 16, y / 16, z / 16),
        x % 16,
        y % 16,
        z % 16,
    ) by {
        let m0 = size_in_chunks[0] as int;
        let m1 = size_in_chunks[1] as int;
        let m2 = size_in_chunks[2] as int;
        let ci = chunk_index(m0, m1, x / 16, y / 16, z / 16);
        crate::volume::lemma_linear_index_bounds(m0, m1, m2, x / 16, y / 16, z / 16);
        assert(ci < count);
        let chunk = model.data_chunk@[ci];
        assert(chunk == mixed_chunk_word(ci));
        let bi = sub_index((x % 16) / 4, (y % 16) / 4, (z % 16) / 4);
        let vi = sub_index(x % 4, y % 4, z % 4);
        assert(0 <= bi < 64 && 0 <= vi < 64);
        if ci % 3 == 2 {
            assert(ci / 3 < mixed);
            let k = 64 * (ci / 3) + bi;
            vstd::arithmetic::div_mod::lemma_fundamental_div_mod_converse(k, 64, ci / 3, bi);
            assert(model.data_block@[k] == mixed_block_word(k));
            if bi == 0 {
                let kv = 32 * (ci / 3) + vi / 2;
                vstd::arithmetic::div_mod::lemma_fundamental_div_mod_converse(kv, 32, ci / 3, vi / 2);
                assert(model.data_voxel@[kv] == mixed_voxel_word(kv));
                assert(3 * (ci / 3) + 2 == ci);
                assert((x % 16) % 4 == x % 4 && (y % 16) % 4 == y % 4 && (z % 16) % 4 == z % 4) by {
                    vstd::arithmetic::div_mod::lemma_mod_mod(x, 4, 4);
                    vstd::arithmetic::div_mod::lemma_mod_mod(y, 4, 4);
                    vstd::arithmetic::div_mod::lemma_mod_mod(z, 4, 4);
                }
            }
        }
    }
}

} // verus!
