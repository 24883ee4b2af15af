//! Test worlds for the GPU construction passes, and how a world is cut into
//! the cubic segments the passes build one at a time.

use vstd::prelude::*;

use crate::volume::{lemma_linear_index_bounds, lemma_linear_index_injective, linear_index, volume_size_fits, DenseVolume};
use crate::voxel::VoxelTypeId;

verus! {

/// Which voxel each chunk of a fixture world fills.
#[derive(Clone, Copy, Debug, PartialEq, Eq)]
pub enum FixtureMode {
    /// Every chunk fills the same voxel: every mixed block has the same
    /// content, so the block deduplication hits every time.
    Uniform,
    /// The filled voxel cycles through the 64 voxels of a block with the
    /// chunk index: the mixed blocks differ.
    Diverse,
    /// Even chunks as `Uniform`, odd chunks as `Diverse` on half the index.
    Mixed,
}

/// The voxel type a fixture fills its voxels with.
pub const FIXTURE_VOXEL_TYPE: u16 = 7;

/// The slot (0..64, x-fastest within block (0, 0, 0)) that chunk `chunk_idx`
/// fills.
pub open spec fn fixture_slot(mode: FixtureMode, chunk_idx: int) -> int {
    match mode {
        FixtureMode::Uniform => 0,
        FixtureMode::Diverse => chunk_idx % 64,
        FixtureMode::Mixed => if chunk_idx % 2 == 0 {
            0
        } else {
            (chunk_idx / 2) % 64
        },
    }
}

/// Whether voxel `(x, y, z)` is the one its chunk fills in the fixture world
/// of `size_in_chunks` chunks.
pub open spec fn is_fixture_voxel(size_in_chunks: [u32; 3], mode: FixtureMode, x: int, y: int, z: int) -> bool {
    let cx = x / 16;
    let cy = y / 16;
    let cz = z / 16;
    let slot = fixture_slot(mode, linear_index(size_in_chunks[0] as int, size_in_chunks[1] as int, cx, cy, cz));
    &&& x == cx * 16 + slot % 4
    &&& y == cy * 16 + (slot / 4) % 4
    &&& z == cz * 16 + slot / 16
}

/// The voxel type of `(x, y, z)` in the fixture world, once the chunks
/// before linear chunk index `done` have been filled.
pub open spec fn fixture_voxel_after(size_in_chunks: [u32; 3], mode: FixtureMode, done: int, x: int, y: int, z: int) -> VoxelTypeId {
    if linear_index(size_in_chunks[0] as int, size_in_chunks[1] as int, x / 16, y / 16, z / 16) < done
        && is_fixture_voxel(size_in_chunks, mode, x, y, z) {
        VoxelTypeId(FIXTURE_VOXEL_TYPE)
    } else {
        VoxelTypeId(0)
    }
}

/// Where each chunk's fixture voxel lies, by the chunk's x-fastest index
/// `ci`: in `Uniform` mode at the chunk's corner; in `Diverse` mode at slot
/// `ci % 64` of block (0, 0, 0), x-fastest (so 64 consecutive chunks use 64
/// different slots); in `Mixed` mode at the corner for even `ci` and at slot
/// `(ci / 2) % 64` for odd `ci`. No other voxel of the chunk is filled.
pub proof fn lemma_fixture_voxel_place(size_in_chunks: [u32; 3], cx: int, cy: int, cz: int, x: int, y: int, z: int)
    requires
        0 <= cx < size_in_chunks[0],
        0 <= cy < size_in_chunks[1],
        0 <= cz < size_in_chunks[2],
        cx * 16 <= x < cx * 16 + 16,
        cy * 16 <= y < cy * 16 + 16,
        cz * 16 <= z < cz * 16 + 16,
    ensures
        ({
            let ci = linear_index(size_in_chunks[0] as int, size_in_chunks[1] as int, cx, cy, cz);
            let d = ci % 64;
            let h = (ci / 2) % 64;
            &&& is_fixture_voxel(size_in_chunks, FixtureMode::Uniform, x, y, z) <==> (x == cx * 16 && y == cy
                * 16 && z == cz * 16)
            &&& is_fixture_voxel(size_in_chunks, FixtureMode::Diverse, x, y, z) <==> (x == cx * 16 + d % 4 && y
                == cy * 16 + (d / 4) % 4 && z == cz * 16 + d / 16)
            &&& ci % 2 == 0 ==> (is_fixture_voxel(size_in_chunks, FixtureMode::Mixed, x, y, z) <==> (x == cx
                * 16 && y == cy * 16 && z == cz * 16))
            &&& ci % 2 == 1 ==> (is_fixture_voxel(size_in_chunks, FixtureMode::Mixed, x, y, z) <==> (x == cx
                * 16 + h % 4 && y == cy * 16 + (h / 4) % 4 && z == cz * 16 + h / 16))
        }),
{
    assert(x / 16 == cx);
    assert(y / 16 == cy);
    assert(z / 16 == cz);
}

/// In `Diverse` mode, the fixture voxels of two different chunks whose
/// x-fastest indices lie in the same run of 64 sit at different places in
/// their chunks.
pub proof fn lemma_diverse_voxels_differ(size_in_chunks: [u32; 3], p: (int, int, int), q: (int, int, int))
    requires
        0 <= p.0 < size_in_chunks[0] * 16,
        0 <= p.1 < size_in_chunks[1] * 16,
        0 <= p.2 < size_in_chunks[2] * 16,
        0 <= q.0 < size_in_chunks[0] * 16,
        0 <= q.1 < size_in_chunks[1] * 16,
        0 <= q.2 < size_in_chunks[2] * 16,
        is_fixture_voxel(size_in_chunks, FixtureMode::Diverse, p.0, p.1, p.2),
        is_fixture_voxel(size_in_chunks, FixtureMode::Diverse, q.0, q.1, q.2),
        (p.0 / 16, p.1 / 16, p.2 / 16) != (q.0 / 16, q.1 / 16, q.2 / 16),
        linear_index(size_in_chunks[0] as int, size_in_chunks[1] as int, p.0 / 16, p.1 / 16, p.2 / 16) / 64
            == linear_index(size_in_chunks[0] as int, size_in_chunks[1] as int, q.0 / 16, q.1 / 16, q.2 / 16)
            / 64,
    ensures
        (p.0 % 16, p.1 % 16, p.2 % 16) != (q.0 % 16, q.1 % 16, q.2 % 16),
{
    let sx = size_in_chunks[0] as int;
    let sy = size_in_chunks[1] as int;
    let cp = linear_index(sx, sy, p.0 / 16, p.1 / 16, p.2 / 16);
    let cq = linear_index(sx, sy, q.0 / 16, q.1 / 16, q.2 / 16);
    if cp == cq {
        lemma_linear_index_injective(sx, sy, p.0 / 16, p.1 / 16, p.2 / 16, q.0 / 16, q.1 / 16, q.2 / 16);
    }
    assert(cp % 64 != cq % 64) by {
        vstd::arithmetic::div_mod::lemma_fundamental_div_mod(cp, 64);
        vstd::arithmetic::div_mod::lemma_fundamental_div_mod(cq, 64);
    }
    let dp = cp % 64;
    let dq = cq % 64;
    assert(dp == dp % 4 + ((dp / 4) % 4) * 4 + (dp / 16) * 16);
    assert(dq == dq % 4 + ((dq / 4) % 4) * 4 + (dq / 16) * 16);
}

/// Filling chunk `(cx, cy, cz)`, at linear index `cur`, with its voxel `p`
/// moves the fill frontier by one chunk.
proof fn lemma_fixture_step(
    size_in_chunks: [u32; 3],
    mode: FixtureMode,
    cx: int,
    cy: int,
    cz: int,
    p: (int, int, int),
    x: int,
    y: int,
    z: int,
)
    requires
        0 <= cx < size_in_chunks[0],
        0 <= cy < size_in_chunks[1],
        0 <= cz < size_in_chunks[2],
        ({
            let slot = fixture_slot(
                mode,
                linear_index(size_in_chunks[0] as int, size_in_chunks[1] as int, cx, cy, cz),
            );
            p == (cx * 16 + slot % 4, cy * 16 + (slot / 4) % 4, cz * 16 + slot / 16)
        }),
        0 <= x < size_in_chunks[0] * 16,
        0 <= y < size_in_chunks[1] * 16,
        0 <= z < size_in_chunks[2] * 16,
        (x, y, z) != p,
    ensures
        fixture_voxel_after(
            size_in_chunks,
            mode,
            linear_index(size_in_chunks[0] as int, size_in_chunks[1] as int, cx, cy, cz) + 1,
            x,
            y,
            z,
        ) == fixture_voxel_after(
            size_in_chunks,
            mode,
            linear_index(size_in_chunks[0] as int, size_in_chunks[1] as int, cx, cy, cz),
            x,
            y,
            z,
        ),
{
    let sx = size_in_chunks[0] as int;
    let sy = size_in_chunks[1] as int;
    let cur = linear_index(sx, sy, cx, cy, cz);
    if linear_index(sx, sy, x / 16, y / 16, z / 16) == cur {
        lemma_linear_index_injective(sx, sy, x / 16, y / 16, z / 16, cx, cy, cz);
    }
}

/// The fixture world of `size_in_chunks` chunks: each chunk fills one voxel
/// of its block (0, 0, 0) with type 7, the slot chosen by `mode` from the
/// chunk's x-fastest index; every other voxel is empty.
pub fn fixture_volume(size_in_chunks: [u32; 3], mode: FixtureMode) -> (v: DenseVolume)
    requires
        volume_size_fits(size_in_chunks),
        size_in_chunks[0] * size_in_chunks[1] * size_in_chunks[2] <= u32::MAX,
    ensures
        v.wf(),
        v.size_in_chunks == size_in_chunks,
        forall|x: int, y: int, z: int|
            v.in_bounds(x, y, z) ==> #[trigger] v.voxel(x, y, z) == (if is_fixture_voxel(
                size_in_chunks,
                mode,
                x,
                y,
                z,
            ) {
                VoxelTypeId(FIXTURE_VOXEL_TYPE)
            } else {
                VoxelTypeId(0)
            }),
{
    let sx = size_in_chunks[0];
    let sy = size_in_chunks[1];
    let sz = size_in_chunks[2];
    let mut volume = DenseVolume::empty(size_in_chunks);
    let sv = volume.size_in_voxels();
    let ghost s = size_in_chunks;
    let mut cz: u32 = 0;
    while cz < sz
        invariant
            sx == s[0],
            sy == s[1],
            sz == s[2],
            s == size_in_chunks,
            volume_size_fits(s),
            s[0] * s[1] * s[2] <= u32::MAX,
            sv[0] == s[0] * 16,
            sv[1] == s[1] * 16,
            sv[2] == s[2] * 16,
            cz <= sz,
            volume.wf(),
            volume.size_in_chunks == s,
            forall|x: int, y: int, z: int|
                volume.in_bounds(x, y, z) ==> #[trigger] volume.voxel(x, y, z) == fixture_voxel_after(
                    s,
                    mode,
                    linear_index(sx as int, sy as int, 0, 0, cz as int),
                    x,
                    y,
                    z,
                ),
        decreases sz - cz,
    {
        let mut cy: u32 = 0;
        while cy < sy
            invariant
                sx == s[0],
                sy == s[1],
                sz == s[2],
                s == size_in_chunks,
                volume_size_fits(s),
                s[0] * s[1] * s[2] <= u32::MAX,
                sv[0] == s[0] * 16,
                sv[1] == s[1] * 16,
                sv[2] == s[2] * 16,
                cz < sz,
                cy <= sy,
                volume.wf(),
                volume.size_in_chunks == s,
                forall|x: int, y: int, z: int|
                    volume.in_bounds(x, y, z) ==> #[trigger] volume.voxel(x, y, z) == fixture_voxel_after(
                        s,
                        mode,
                        linear_index(sx as int, sy as int, 0, cy as int, cz as int),
                        x,
                        y,
                        z,
                    ),
            decreases sy - cy,
        {
            let mut cx: u32 = 0;
            while cx < sx
                invariant
                    sx == s[0],
                    sy == s[1],
                    sz == s[2],
                    s == size_in_chunks,
                    volume_size_fits(s),
                    s[0] * s[1] * s[2] <= u32::MAX,
                    sv[0] == s[0] * 16,
                    sv[1] == s[1] * 16,
                    sv[2] == s[2] * 16,
                    cz < sz,
                    cy < sy,
                    cx <= sx,
                    volume.wf(),
                    volume.size_in_chunks == s,
                    forall|x: int, y: int, z: int|
                        volume.in_bounds(x, y, z) ==> #[trigger] volume.voxel(x, y, z) == fixture_voxel_after(
                            s,
                            mode,
                            linear_index(sx as int, sy as int, cx as int, cy as int, cz as int),
                            x,
                            y,
                            z,
                        ),
                decreases sx - cx,
            {
                proof {
                    lemma_linear_index_bounds(sx as int, sy as int, sz as int, cx as int, cy as int, cz as int);
                    assert(sx * sy <= sx * sy * sz) by (nonlinear_arith)
                        requires
                            sz >= 1,
                    ;
                }
                let chunk_idx: u32 = cx + cy * sx + cz * (sx * sy);
                let pos_in_block: u32 = match mode {
                    FixtureMode::Uniform => 0,
                    FixtureMode::Diverse => chunk_idx % 64,
                    FixtureMode::Mixed => {
                        if chunk_idx % 2 == 0 {
                            0
                        } else {
                            (chunk_idx / 2) % 64
                        }
                    },
                };
                let lx = pos_in_block % 4;
                let ly = (pos_in_block / 4) % 4;
                let lz = pos_in_block / 16;
                let vx = cx * 16 + lx;
                let vy = cy * 16 + ly;
                let vz = cz * 16 + lz;
                let ghost cur = linear_index(sx as int, sy as int, cx as int, cy as int, cz as int);
                let ghost before = volume;
                if vx < sv[0] && vy < sv[1] && vz < sv[2] {
                    volume.set([vx, vy, vz], VoxelTypeId(FIXTURE_VOXEL_TYPE));
                    proof {
                        assert forall|x: int, y: int, z: int| volume.in_bounds(x, y, z) implies #[trigger] volume.voxel(
                            x,
                            y,
                            z,
                        ) == fixture_voxel_after(s, mode, cur + 1, x, y, z) by {
                            if x == vx && y == vy && z == vz {
                            } else {
                                assert(before.voxel(x, y, z) == fixture_voxel_after(s, mode, cur, x, y, z));
                                lemma_fixture_step(
                                    s,
                                    mode,
                                    cx as int,
                                    cy as int,
                                    cz as int,
                                    (vx as int, vy as int, vz as int),
                                    x,
                                    y,
                                    z,
                                );
                            }
                        }
                    }
                }
                cx = cx + 1;
            }
            proof {
                assert(linear_index(sx as int, sy as int, sx as int, cy as int, cz as int) == linear_index(
                    sx as int,
                    sy as int,
                    0,
                    (cy + 1) as int,
                    cz as int,
                )) by (nonlinear_arith);
            }
            cy = cy + 1;
        }
        proof {
            assert(linear_index(sx as int, sy as int, 0, sy as int, cz as int) == linear_index(
                sx as int,
                sy as int,
                0,
                0,
                (cz + 1) as int,
            )) by (nonlinear_arith);
        }
        cz = cz + 1;
    }
    proof {
        assert forall|x: int, y: int, z: int| volume.in_bounds(x, y, z) implies #[trigger] volume.voxel(
            x,
            y,
            z,
        ) == (if is_fixture_voxel(size_in_chunks, mode, x, y, z) {
            VoxelTypeId(FIXTURE_VOXEL_TYPE)
        } else {
            VoxelTypeId(0)
        }) by {
            lemma_linear_index_bounds(sx as int, sy as int, sz as int, x / 16, y / 16, z / 16);
            assert(linear_index(sx as int, sy as int, 0, 0, sz as int) == sx * sy * sz) by (nonlinear_arith);
        }
    }
    volume
}

/// The number of segments of `seg` chunks along each axis of a world of
/// `world_size_in_chunks` chunks, or `None` when an axis is not a whole
/// number of segments.
pub fn segment_grid(world_size_in_chunks: [u32; 3], seg: u32) -> (r: Option<[u32; 3]>)
    requires
        seg > 0,
    ensures
        r is Some <==> (world_size_in_chunks[0] % seg == 0 && world_size_in_chunks[1] % seg == 0
            && world_size_in_chunks[2] % seg == 0),
        r matches Some(c) ==> c[0] == world_size_in_chunks[0] / seg && c[1] == world_size_in_chunks[1]
            / seg && c[2] == world_size_in_chunks[2] / seg,
{
    if world_size_in_chunks[0] % seg != 0 || world_size_in_chunks[1] % seg != 0 || world_size_in_chunks[2]
        % seg != 0 {
        return None;
    }
    Some([world_size_in_chunks[0] / seg, world_size_in_chunks[1] / seg, world_size_in_chunks[2] / seg])
}

/// The segment edge of a tiled world: its shortest axis, at most 16 chunks.
pub fn tiled_segment_size(world_size_in_chunks: [u32; 3]) -> (seg: u32)
    ensures
        seg <= 16,
        seg <= world_size_in_chunks[0],
        seg <= world_size_in_chunks[1],
        seg <= world_size_in_chunks[2],
        seg == 16 || seg == world_size_in_chunks[0] || seg == world_size_in_chunks[1] || seg
            == world_size_in_chunks[2],
{
    let mut seg = world_size_in_chunks[0];
    if world_size_in_chunks[1] < seg {
        seg = world_size_in_chunks[1];
    }
    if world_size_in_chunks[2] < seg {
        seg = world_size_in_chunks[2];
    }
    if 16 < seg {
        seg = 16;
    }
    seg
}

/// The chunk offset of every segment of a world cut into `seg_count`
/// segments of `seg` chunks, in the order the passes build them: x fastest,
/// then y, then z.
pub fn segment_offsets(seg_count: [u32; 3], seg: u32) -> (out: Vec<[u32; 3]>)
    requires
        seg_count[0] * seg <= u32::MAX,
        seg_count[1] * seg <= u32::MAX,
        seg_count[2] * seg <= u32::MAX,
        seg_count[0] * seg_count[1] * seg_count[2] <= usize::MAX,
    ensures
        out@.len() == seg_count[0] * seg_count[1] * seg_count[2],
        forall|x: int, y: int, z: int|
            0 <= x < seg_count[0] && 0 <= y < seg_count[1] && 0 <= z < seg_count[2] ==> #[trigger] out@[linear_index(
                seg_count[0] as int,
                seg_count[1] as int,
                x,
                y,
                z,
            )] == [(x * seg) as u32, (y * seg) as u32, (z * seg) as u32],
{
    let nx = seg_count[0];
    let ny = seg_count[1];
    let nz = seg_count[2];
    let mut out: Vec<[u32; 3]> = Vec::new();
    let mut sz: u32 = 0;
    while sz < nz
        invariant
            nx == seg_count[0],
            ny == seg_count[1],
            nz == seg_count[2],
            seg_count[0] * seg <= u32::MAX,
            seg_count[1] * seg <= u32::MAX,
            seg_count[2] * seg <= u32::MAX,
            sz <= nz,
            out@.len() == linear_index(nx as int, ny as int, 0, 0, sz as int),
            forall|x: int, y: int, z: int|
                0 <= x < nx && 0 <= y < ny && 0 <= z && linear_index(nx as int, ny as int, x, y, z) < out@.len()
                    ==> #[trigger] out@[linear_index(nx as int, ny as int, x, y, z)] == [
                    (x * seg) as u32,
                    (y * seg) as u32,
                    (z * seg) as u32,
                ],
        decreases nz - sz,
    {
        let mut sy: u32 = 0;
        while sy < ny
            invariant
                nx == seg_count[0],
                ny == seg_count[1],
                nz == seg_count[2],
                seg_count[0] * seg <= u32::MAX,
                seg_count[1] * seg <= u32::MAX,
                seg_count[2] * seg <= u32::MAX,
                sz < nz,
                sy <= ny,
                out@.len() == linear_index(nx as int, ny as int, 0, sy as int, sz as int),
                forall|x: int, y: int, z: int|
                    0 <= x < nx && 0 <= y < ny && 0 <= z && linear_index(nx as int, ny as int, x, y, z)
                        < out@.len() ==> #[trigger] out@[linear_index(nx as int, ny as int, x, y, z)] == [
                        (x * seg) as u32,
                        (y * seg) as u32,
                        (z * seg) as u32,
                    ],
            decreases ny - sy,
        {
            let mut sx: u32 = 0;
            while sx < nx
                invariant
                    nx == seg_count[0],
                    ny == seg_count[1],
                    nz == seg_count[2],
                    seg_count[0] * seg <= u32::MAX,
                    seg_count[1] * seg <= u32::MAX,
                    seg_count[2] * seg <= u32::MAX,
                    sz < nz,
                    sy < ny,
                    sx <= nx,
                    out@.len() == linear_index(nx as int, ny as int, sx as int, sy as int, sz as int),
                    forall|x: int, y: int, z: int|
                        0 <= x < nx && 0 <= y < ny && 0 <= z && linear_index(nx as int, ny as int, x, y, z)
                            < out@.len() ==> #[trigger] out@[linear_index(nx as int, ny as int, x, y, z)] == [
                            (x * seg) as u32,
                            (y * seg) as u32,
                            (z * seg) as u32,
                        ],
                decreases nx - sx,
            {
                proof {
                    assert(sx * seg <= nx * seg && sy * seg <= ny * seg && sz * seg <= nz * seg)
                        by (nonlinear_arith)
                        requires
                            sx < nx,
                            sy < ny,
                            sz < nz,
                    ;
                }
                let ghost cur = out@.len() as int;
                let ghost before = out@;
                out.push([sx * seg, sy * seg, sz * seg]);
                proof {
                    assert forall|x: int, y: int, z: int|
                        0 <= x < nx && 0 <= y < ny && 0 <= z && linear_index(nx as int, ny as int, x, y, z)
                            < out@.len() implies #[trigger] out@[linear_index(nx as int, ny as int, x, y, z)] == [
                        (x * seg) as u32,
                        (y * seg) as u32,
                        (z * seg) as u32,
                    ] by {
                        if linear_index(nx as int, ny as int, x, y, z) == cur {
                            lemma_linear_index_injective(
                                nx as int,
                                ny as int,
                                x,
                                y,
                                z,
                                sx as int,
                                sy as int,
                                sz as int,
                            );
                        } else {
                            assert(out@[linear_index(nx as int, ny as int, x, y, z)] == before[linear_index(
                                nx as int,
                                ny as int,
                                x,
                                y,
                                z,
                            )]);
                        }
                    }
                }
                sx = sx + 1;
            }
            proof {
                assert(linear_index(nx as int, ny as int, nx as int, sy as int, sz as int) == linear_index(
                    nx as int,
                    ny as int,
                    0,
                    (sy + 1) as int,
                    sz as int,
                )) by (nonlinear_arith);
            }
            sy = sy + 1;
        }
        proof {
            assert(linear_index(nx as int, ny as int, 0, ny as int, sz as int) == linear_index(
                nx as int,
                ny as int,
                0,
                0,
                (sz + 1) as int,
            )) by (nonlinear_arith);
        }
        sz = sz + 1;
    }
    proof {
        assert(linear_index(nx as int, ny as int, 0, 0, nz as int) == nx * ny * nz) by (nonlinear_arith);
        assert forall|x: int, y: int, z: int|
            0 <= x < nx && 0 <= y < ny && 0 <= z < nz implies #[trigger] out@[linear_index(
                nx as int,
                ny as int,
                x,
                y,
                z,
            )] == [(x * seg) as u32, (y * seg) as u32, (z * seg) as u32] by {
            lemma_linear_index_bounds(nx as int, ny as int, nz as int, x, y, z);
        }
    }
    out
}

/// Whether chunk coordinate `c` lies in the segment at grid coordinate `a`
/// of segments `s` chunks long.
pub open spec fn in_segment(a: int, s: int, c: int) -> bool {
    a * s <= c < a * s + s
}

/// Cutting a world into whole segments covers it once: every chunk lies in
/// the segment of grid position `(cx / seg, cy / seg, cz / seg)`, inside the
/// grid of [`segment_grid`], whose offset [`segment_offsets`] lists as that
/// position times `seg`; and on each axis in no other segment.
pub proof fn lemma_segments_cover_world(world_size_in_chunks: [u32; 3], seg: u32, cx: int, cy: int, cz: int)
    requires
        seg > 0,
        world_size_in_chunks[0] % seg == 0,
        world_size_in_chunks[1] % seg == 0,
        world_size_in_chunks[2] % seg == 0,
        0 <= cx < world_size_in_chunks[0],
        0 <= cy < world_size_in_chunks[1],
        0 <= cz < world_size_in_chunks[2],
    ensures
        0 <= cx / (seg as int) < world_size_in_chunks[0] as int / (seg as int),
        0 <= cy / (seg as int) < world_size_in_chunks[1] as int / (seg as int),
        0 <= cz / (seg as int) < world_size_in_chunks[2] as int / (seg as int),
        in_segment(cx / (seg as int), seg as int, cx),
        in_segment(cy / (seg as int), seg as int, cy),
        in_segment(cz / (seg as int), seg as int, cz),
        forall|a: int| #[trigger] in_segment(a, seg as int, cx) ==> a == cx / (seg as int),
        forall|b: int| #[trigger] in_segment(b, seg as int, cy) ==> b == cy / (seg as int),
        forall|c: int| #[trigger] in_segment(c, seg as int, cz) ==> c == cz / (seg as int),
{
    let s = seg as int;
    lemma_segment_axis(cx, world_size_in_chunks[0] as int, s);
    lemma_segment_axis(cy, world_size_in_chunks[1] as int, s);
    lemma_segment_axis(cz, world_size_in_chunks[2] as int, s);
}

/// One axis of [`lemma_segments_cover_world`].
proof fn lemma_segment_axis(x: int, w: int, s: int)
    requires
        s > 0,
        0 <= x < w,
        w % s == 0,
    ensures
        0 <= x / s < w / s,
        in_segment(x / s, s, x),
        forall|a: int| #[trigger] in_segment(a, s, x) ==> a == x / s,
{
    vstd::arithmetic::div_mod::lemma_fundamental_div_mod(x, s);
    vstd::arithmetic::div_mod::lemma_div_pos_is_pos(x, s);
    lemma_multiple_below(x, w, s);
    assert(in_segment(x / s, s, x)) by (nonlinear_arith)
        requires
            x == s * (x / s) + x % s,
            0 <= x % s < s,
    ;
    assert forall|a: int| #[trigger] in_segment(a, s, x) implies a == x / s by {
        vstd::arithmetic::div_mod::lemma_fundamental_div_mod_converse(x, s, a, x - a * s);
    }
}

/// Below a multiple `w` of `s`, the quotient by `s` stays below `w / s`.
proof fn lemma_multiple_below(x: int, w: int, s: int)
    requires
        s > 0,
        0 <= x < w,
        w % s == 0,
    ensures
        x / s < w / s,
{
    vstd::arithmetic::div_mod::lemma_fundamental_div_mod(x, s);
    vstd::arithmetic::div_mod::lemma_fundamental_div_mod(w, s);
    assert(x / s < w / s) by (nonlinear_arith)
        requires
            x == s * (x / s) + x % s,
            w == s * (w / s),
            0 <= x % s < s,
            x < w,
            s > 0,
    ;
}

/// The GPU block and voxel buffer lengths, in words, for a world of
/// `chunk_count` chunks: 64 seeded block words plus 64 per chunk; 64 seeded
/// voxel words plus 2048 per chunk, capped at 256 MiB.
pub fn construction_buffer_lens(chunk_count: usize) -> (lens: (usize, usize))
    requires
        64 + chunk_count * 64 <= usize::MAX,
    ensures
        lens.0 == 64 + chunk_count * 64,
        lens.1 == if 64 + chunk_count * 2048 <= 0x400_0000 {
            64 + chunk_count * 2048
        } else {
            0x400_0000
        },
{
    let blocks = 64 + chunk_count * 64;
    let cap: usize = 256 * 1024 * 1024 / 4;
    let voxels = if chunk_count <= (cap - 64) / 2048 {
        64 + chunk_count * 2048
    } else {
        cap
    };
    (blocks, voxels)
}

/// The GPU block and voxel buffer lengths, in words, for a single-dispatch
/// fixture of `chunk_count` chunks: 64 seeded block words plus 64 per chunk;
/// 64 seeded voxel words plus 2048 per chunk, with no cap (every chunk may be
/// mixed with no block shared).
pub fn single_dispatch_buffer_lens(chunk_count: usize) -> (lens: (usize, usize))
    requires
        64 + chunk_count * 2048 <= usize::MAX,
    ensures
        lens.0 == 64 + chunk_count * 64,
        lens.1 == 64 + chunk_count * 2048,
{
    (64 + chunk_count * 64, 64 + chunk_count * 64 * 32)
}

} // verus!
