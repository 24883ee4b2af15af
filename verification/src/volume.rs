//! The dense voxel volume: one voxel type per voxel of a world whose extent is
//! a whole number of 16³-voxel chunks.

use vstd::prelude::*;

use crate::voxel::VoxelTypeId;

verus! {

/// A dense voxel volume, `size_in_chunks * 16` voxels along each axis, stored
/// x-fastest.
pub struct DenseVolume {
    /// The extent of the volume in chunks.
    pub size_in_chunks: [u32; 3],
    /// The voxel types, x-fastest, then y, then z.
    pub voxels: Vec<VoxelTypeId>,
}

/// Whether a volume of `size_in_chunks` chunks has voxel extents that fit in
/// a `u32` and a voxel count that fits in a `usize`.
pub open spec fn volume_size_fits(size_in_chunks: [u32; 3]) -> bool {
    &&& size_in_chunks[0] * 16 <= u32::MAX
    &&& size_in_chunks[1] * 16 <= u32::MAX
    &&& size_in_chunks[2] * 16 <= u32::MAX
    &&& size_in_chunks[0] * 16 * (size_in_chunks[1] * 16) * (size_in_chunks[2] * 16) <= usize::MAX
}

/// The x-fastest linear index of voxel `(x, y, z)` in a volume of `dx` by
/// `dy` voxels per layer.
pub open spec fn linear_index(dx: int, dy: int, x: int, y: int, z: int) -> int {
    x + y * dx + z * (dx * dy)
}

/// The linear index of a voxel inside the box lies inside the box's count.
pub proof fn lemma_linear_index_bounds(dx: int, dy: int, dz: int, x: int, y: int, z: int)
    requires
        0 <= x < dx,
        0 <= y < dy,
        0 <= z < dz,
    ensures
        0 <= y * dx <= y * dx + x < (y + 1) * dx <= dx * dy,
        0 <= z * (dx * dy),
        0 <= linear_index(dx, dy, x, y, z) < dx * dy * dz,
        linear_index(dx, dy, x, y, z) < (z + 1) * (dx * dy),
{
    assert(0 <= y * dx) by (nonlinear_arith)
        requires
            0 <= y,
            0 < dx,
    ;
    assert((y + 1) * dx <= dx * dy) by (nonlinear_arith)
        requires
            y + 1 <= dy,
            0 < dx,
    ;
    assert(0 <= z * (dx * dy)) by (nonlinear_arith)
        requires
            0 <= z,
            0 < dx,
            0 < dy,
    ;
    assert((y + 1) * dx == y * dx + dx) by (nonlinear_arith);
    assert((z + 1) * (dx * dy) == z * (dx * dy) + dx * dy) by (nonlinear_arith);
    assert((z + 1) * (dx * dy) <= dx * dy * dz) by (nonlinear_arith)
        requires
            z + 1 <= dz,
            0 < dx,
            0 < dy,
    ;
}

/// Distinct voxels of a box have distinct linear indices.
pub proof fn lemma_linear_index_injective(
    dx: int,
    dy: int,
    x1: int,
    y1: int,
    z1: int,
    x2: int,
    y2: int,
    z2: int,
)
    requires
        0 <= x1 < dx,
        0 <= y1 < dy,
        0 <= z1,
        0 <= x2 < dx,
        0 <= y2 < dy,
        0 <= z2,
        linear_index(dx, dy, x1, y1, z1) == linear_index(dx, dy, x2, y2, z2),
    ensures
        x1 == x2 && y1 == y2 && z1 == z2,
{
    let l = linear_index(dx, dy, x1, y1, z1);
    lemma_linear_index_bounds(dx, dy, z1 + 1, x1, y1, z1);
    lemma_linear_index_bounds(dx, dy, z2 + 1, x2, y2, z2);
    let r1 = x1 + y1 * dx;
    let r2 = x2 + y2 * dx;
    assert(l == z1 * (dx * dy) + r1);
    assert(l == z2 * (dx * dy) + r2);
    vstd::arithmetic::div_mod::lemma_fundamental_div_mod_converse(l, dx * dy, z1, r1);
    vstd::arithmetic::div_mod::lemma_fundamental_div_mod_converse(l, dx * dy, z2, r2);
    vstd::arithmetic::div_mod::lemma_fundamental_div_mod_converse(r1, dx, y1, x1);
    vstd::arithmetic::div_mod::lemma_fundamental_div_mod_converse(r2, dx, y2, x2);
}

impl DenseVolume {
    /// Extent of the volume in voxels along `axis`.
    pub open spec fn dim(&self, axis: int) -> int {
        self.size_in_chunks[axis] * 16
    }

    /// Whether voxel `(x, y, z)` lies inside the volume.
    pub open spec fn in_bounds(&self, x: int, y: int, z: int) -> bool {
        &&& 0 <= x < self.dim(0)
        &&& 0 <= y < self.dim(1)
        &&& 0 <= z < self.dim(2)
    }

    /// The volume's storage holds exactly one type per voxel.
    pub open spec fn wf(&self) -> bool {
        &&& volume_size_fits(self.size_in_chunks)
        &&& self.voxels@.len() == self.dim(0) * self.dim(1) * self.dim(2)
    }

    /// The type of voxel `(x, y, z)`.
    pub open spec fn voxel(&self, x: int, y: int, z: int) -> VoxelTypeId {
        self.voxels@[linear_index(self.dim(0), self.dim(1), x, y, z)]
    }

    /// Every voxel type of the volume fits in the 15 payload bits of a cell.
    pub open spec fn types_fit_cells(&self) -> bool {
        forall|x: int, y: int, z: int|
            self.in_bounds(x, y, z) ==> #[trigger] self.voxel(x, y, z).0 < 0x8000
    }

    /// An all-empty volume of `size_in_chunks` chunks.
    pub fn empty(size_in_chunks: [u32; 3]) -> (v: DenseVolume)
        requires
            volume_size_fits(size_in_chunks),
        ensures
            v.wf(),
            v.size_in_chunks == size_in_chunks,
            forall|x: int, y: int, z: int|
                v.in_bounds(x, y, z) ==> #[trigger] v.voxel(x, y, z) == VoxelTypeId(0),
    {
        let dx = size_in_chunks[0] as usize * 16;
        let dy = size_in_chunks[1] as usize * 16;
        let dz = size_in_chunks[2] as usize * 16;
        let count: usize = if dz == 0 {
            0
        } else {
            assert(dx * dy <= dx * dy * dz) by (nonlinear_arith)
                requires
                    dz >= 1,
                    dx >= 0,
                    dy >= 0,
            ;
            dx * dy * dz
        };
        assert(count == dx * dy * dz) by (nonlinear_arith)
            requires
                dz == 0 ==> count == 0,
                dz != 0 ==> count == dx * dy * dz,
        ;
        let voxels: Vec<VoxelTypeId> = vec![VoxelTypeId(0); count];
        let v = DenseVolume { size_in_chunks, voxels };
        assert forall|x: int, y: int, z: int| v.in_bounds(x, y, z) implies #[trigger] v.voxel(
            x,
            y,
            z,
        ) == VoxelTypeId(0) by {
            lemma_linear_index_bounds(v.dim(0), v.dim(1), v.dim(2), x, y, z);
        }
        v
    }

    /// The extent of the volume in voxels.
    pub fn size_in_voxels(&self) -> (s: [u32; 3])
        requires
            self.wf(),
        ensures
            s[0] == self.dim(0),
            s[1] == self.dim(1),
            s[2] == self.dim(2),
    {
        [self.size_in_chunks[0] * 16, self.size_in_chunks[1] * 16, self.size_in_chunks[2] * 16]
    }

    fn index_of(&self, p: [u32; 3]) -> (i: usize)
        requires
            self.wf(),
            self.in_bounds(p[0] as int, p[1] as int, p[2] as int),
        ensures
            i == linear_index(self.dim(0), self.dim(1), p[0] as int, p[1] as int, p[2] as int),
            i < self.voxels@.len(),
    {
        let dx = self.size_in_chunks[0] as usize * 16;
        let dy = self.size_in_chunks[1] as usize * 16;
        proof {
            lemma_linear_index_bounds(
                self.dim(0),
                self.dim(1),
                self.dim(2),
                p[0] as int,
                p[1] as int,
                p[2] as int,
            );
            assert(dx * dy <= self.dim(0) * self.dim(1) * self.dim(2)) by (nonlinear_arith)
                requires
                    dx * dy > 0,
                    self.dim(2) >= 1,
                    dx == self.dim(0),
                    dy == self.dim(1),
            ;
        }
        let layer = dx * dy;
        (p[0] as usize) + (p[1] as usize) * dx + (p[2] as usize) * layer
    }

    /// The type of voxel `p`.
    pub fn voxel_at(&self, p: [u32; 3]) -> (ty: VoxelTypeId)
        requires
            self.wf(),
            self.in_bounds(p[0] as int, p[1] as int, p[2] as int),
        ensures
            ty == self.voxel(p[0] as int, p[1] as int, p[2] as int),
    {
        let i = self.index_of(p);
        self.voxels[i]
    }

    /// Set voxel `p` to `ty`, leaving every other voxel unchanged.
    pub fn set(&mut self, p: [u32; 3], ty: VoxelTypeId)
        requires
            old(self).wf(),
            old(self).in_bounds(p[0] as int, p[1] as int, p[2] as int),
        ensures
            final(self).wf(),
            final(self).size_in_chunks == old(self).size_in_chunks,
            final(self).voxel(p[0] as int, p[1] as int, p[2] as int) == ty,
            forall|x: int, y: int, z: int|
                old(self).in_bounds(x, y, z) && !(x == p[0] && y == p[1] && z == p[2])
                    ==> #[trigger] final(self).voxel(x, y, z) == old(self).voxel(x, y, z),
    {
        let i = self.index_of(p);
        self.voxels.set(i, ty);
        proof {
            assert forall|x: int, y: int, z: int|
                old(self).in_bounds(x, y, z) && !(x == p[0] && y == p[1] && z == p[2])
                    implies #[trigger] self.voxel(x, y, z) == old(self).voxel(x, y, z) by {
                lemma_linear_index_bounds(self.dim(0), self.dim(1), self.dim(2), x, y, z);
                if linear_index(self.dim(0), self.dim(1), x, y, z) == i {
                    lemma_linear_index_injective(
                        self.dim(0),
                        self.dim(1),
                        x,
                        y,
                        z,
                        p[0] as int,
                        p[1] as int,
                        p[2] as int,
                    );
                }
            }
        }
    }
}

} // verus!
