//! The CPU side of the GPU uniform and storage records: every field is a
//! `u32`, laid out in 16-byte rows the way the WGSL declarations read them.
//! `to_words` gives the exact word stream each record is uploaded as.

use vstd::prelude::*;

use crate::bits::{lemma_pack_halves, lemma_word_bits};
use crate::half::{f16_bits, spec_f16_bits};

verus! {

/// `MaterialBase` code of a diffuse base material.
pub const MATERIAL_BASE_DIFFUSE: u32 = 0;

/// `MaterialBase` code of an emissive base material.
pub const MATERIAL_BASE_EMISSIVE: u32 = 1;

/// `MaterialLayer` code of a material without a layer.
pub const MATERIAL_LAYER_NONE: u32 = 0;

/// `MaterialLayer` code of a metallic-mirror layer.
pub const MATERIAL_LAYER_METALLIC_MIRROR: u32 = 3;

/// A voxel material on the CPU. The floating-point channels are held as their
/// IEEE-754 binary32 bit patterns (`f32::to_bits`).
#[derive(Clone, Copy, Debug, PartialEq, Eq)]
pub struct VoxelType {
    /// The base-material code (`MaterialBase` discriminant).
    pub material_base: u32,
    /// The layer-material code (`MaterialLayer` discriminant).
    pub material_layer: u32,
    /// Roughness, as binary32 bits.
    pub roughness: u32,
    /// Base colour r, g, b, as binary32 bits.
    pub color_base: [u32; 3],
    /// Layered colour r, g, b, as binary32 bits.
    pub color_layered: [u32; 3],
}

/// GPU material entry — the 128-bit form of a [`VoxelType`]:
///
/// - `data[0]` = `base | layer << 2 | f16(roughness) << 16`
/// - `data[1]` = `f16(color_base.r) | f16(color_base.g) << 16`
/// - `data[2]` = `f16(color_base.b) | f16(color_layered.r) << 16`
/// - `data[3]` = `f16(color_layered.g) | f16(color_layered.b) << 16`
#[derive(Clone, Copy, Debug, PartialEq, Eq)]
pub struct GpuVoxelType {
    /// The four packed words.
    pub data: [u32; 4],
}

/// Two half floats in one word: `lo` in bits 0..16, `hi` in bits 16..32.
pub open spec fn halves_word(lo: u16, hi: u16) -> u32 {
    (lo + hi * 65536) as u32
}

fn pack_halves(lo: u16, hi: u16) -> (w: u32)
    ensures
        w == halves_word(lo, hi),
{
    proof {
        lemma_pack_halves(lo, hi);
    }
    (lo as u32) | ((hi as u32) << 16)
}

impl GpuVoxelType {
    /// The packed words of `ty`, as the type's doc lists them.
    pub open spec fn spec_from(ty: VoxelType) -> GpuVoxelType {
        GpuVoxelType {
            data: [
                (ty.material_base % 4 + (ty.material_layer % 4) * 4 + spec_f16_bits(ty.roughness)
                    * 65536) as u32,
                halves_word(spec_f16_bits(ty.color_base[0]), spec_f16_bits(ty.color_base[1])),
                halves_word(spec_f16_bits(ty.color_base[2]), spec_f16_bits(ty.color_layered[0])),
                halves_word(
                    spec_f16_bits(ty.color_layered[1]),
                    spec_f16_bits(ty.color_layered[2]),
                ),
            ],
        }
    }

    /// Compress a CPU [`VoxelType`] into its 128-bit GPU form.
    pub fn from_voxel_type(ty: &VoxelType) -> (g: GpuVoxelType)
        ensures
            g == GpuVoxelType::spec_from(*ty),
    {
        let base = ty.material_base & 0x3;
        let layer = ty.material_layer & 0x3;
        let rough = f16_bits(ty.roughness);
        proof {
            let mb = ty.material_base;
            let ml = ty.material_layer;
            lemma_word_bits(mb);
            lemma_word_bits(ml);
            assert(base | (layer << 2) | ((rough as u32) << 16) == (base + layer * 4 + rough * 65536) as u32)
                by (bit_vector)
                requires
                    base < 4,
                    layer < 4,
            ;
        }
        let data0 = base | (layer << 2) | ((rough as u32) << 16);
        let data1 = pack_halves(f16_bits(ty.color_base[0]), f16_bits(ty.color_base[1]));
        let data2 = pack_halves(f16_bits(ty.color_base[2]), f16_bits(ty.color_layered[0]));
        let data3 = pack_halves(f16_bits(ty.color_layered[1]), f16_bits(ty.color_layered[2]));
        GpuVoxelType { data: [data0, data1, data2, data3] }
    }
}

/// The compressed lit GI sample: eight raw words, packed and unpacked by the
/// GI shaders only.
#[derive(Clone, Copy, Debug, PartialEq, Eq)]
pub struct GpuSampleValid {
    /// `data1` (uvec4) then `data2` (uvec4).
    pub data: [u32; 8],
}

/// One 8×8 screen region's bucket info: two raw words.
#[derive(Clone, Copy, Debug, PartialEq, Eq)]
pub struct GpuBucketInfo {
    /// The two packed words.
    pub data: [u32; 2],
}

/// The construction-pass uniform: five 16-byte rows, every 3-vector padded to
/// a whole row.
#[derive(Clone, Copy, Debug, PartialEq, Eq)]
pub struct GpuConstructionParams {
    /// World size in chunks (row 0).
    pub size_in_chunks: [u32; 3],
    /// Row 0 padding.
    pub _pad0: u32,
    /// World size in 4³-chunk groups (row 1).
    pub group_size_in_groups: [u32; 3],
    /// Row 1 padding.
    pub _pad1: u32,
    /// Bound-group queue capacity (`chunk count / 64`).
    pub bound_group_queue_max_size: u32,
    /// Current power-of-two hash-map capacity.
    pub hash_map_size: u32,
    /// Segment size in chunks.
    pub segment_size_in_chunks: u32,
    /// Regime-2 group-bound dispatch throttle.
    pub max_group_bound_dispatch: u32,
    /// Per-segment chunk offset (row 3).
    pub chunk_offset: [u32; 3],
    /// Row 3 padding.
    pub _pad2: u32,
    /// Monotonic frame counter.
    pub frame_index: u32,
    /// Per-frame changed-chunk count.
    pub changed_chunk_count: u32,
    /// Per-frame changed-block count.
    pub changed_block_count: u32,
    /// Per-frame changed-voxel count.
    pub changed_voxel_count: u32,
}

impl GpuConstructionParams {
    /// The 20 words (80 bytes) the uniform is uploaded as, in field order.
    pub fn to_words(&self) -> (w: [u32; 20])
        ensures
            w@ == seq![
                self.size_in_chunks[0],
                self.size_in_chunks[1],
                self.size_in_chunks[2],
                self._pad0,
                self.group_size_in_groups[0],
                self.group_size_in_groups[1],
                self.group_size_in_groups[2],
                self._pad1,
                self.bound_group_queue_max_size,
                self.hash_map_size,
                self.segment_size_in_chunks,
                self.max_group_bound_dispatch,
                self.chunk_offset[0],
                self.chunk_offset[1],
                self.chunk_offset[2],
                self._pad2,
                self.frame_index,
                self.changed_chunk_count,
                self.changed_block_count,
                self.changed_voxel_count,
            ],
    {
        let w = [
            self.size_in_chunks[0],
            self.size_in_chunks[1],
            self.size_in_chunks[2],
            self._pad0,
            self.group_size_in_groups[0],
            self.group_size_in_groups[1],
            self.group_size_in_groups[2],
            self._pad1,
            self.bound_group_queue_max_size,
            self.hash_map_size,
            self.segment_size_in_chunks,
            self.max_group_bound_dispatch,
            self.chunk_offset[0],
            self.chunk_offset[1],
            self.chunk_offset[2],
            self._pad2,
            self.frame_index,
            self.changed_chunk_count,
            self.changed_block_count,
            self.changed_voxel_count,
        ];
        assert(w@ =~= seq![
            self.size_in_chunks[0],
            self.size_in_chunks[1],
            self.size_in_chunks[2],
            self._pad0,
            self.group_size_in_groups[0],
            self.group_size_in_groups[1],
            self.group_size_in_groups[2],
            self._pad1,
            self.bound_group_queue_max_size,
            self.hash_map_size,
            self.segment_size_in_chunks,
            self.max_group_bound_dispatch,
            self.chunk_offset[0],
            self.chunk_offset[1],
            self.chunk_offset[2],
            self._pad2,
            self.frame_index,
            self.changed_chunk_count,
            self.changed_block_count,
            self.changed_voxel_count,
        ]);
        w
    }
}

/// One slot of the open-addressing hash table: the CAS-claimed voxel pointer,
/// the occupancy counter, the stored hash, and padding to a 16-byte stride.
#[derive(Clone, Copy, Debug, PartialEq, Eq)]
pub struct GpuHashValueSlot {
    /// The slot's voxel pointer (the CAS target).
    pub voxel_pointer: u32,
    /// The slot-occupancy counter.
    pub use_count: u32,
    /// The slot's stored hash.
    pub hash_raw: u32,
    /// Padding to the 16-byte array stride.
    pub _pad: u32,
}

impl GpuHashValueSlot {
    /// The 4 words (16 bytes) the slot is uploaded as, in field order.
    pub fn to_words(&self) -> (w: [u32; 4])
        ensures
            w@ == seq![self.voxel_pointer, self.use_count, self.hash_raw, self._pad],
    {
        let w = [self.voxel_pointer, self.use_count, self.hash_raw, self._pad];
        assert(w@ =~= seq![self.voxel_pointer, self.use_count, self.hash_raw, self._pad]);
        w
    }
}

/// One bound queue's head and size.
#[derive(Clone, Copy, Debug, PartialEq, Eq)]
pub struct GpuBoundQueueInfo {
    /// Queue head.
    pub start: u32,
    /// Queue size.
    pub size: u32,
}

impl GpuBoundQueueInfo {
    /// The 2 words (8 bytes) the record is uploaded as, in field order.
    pub fn to_words(&self) -> (w: [u32; 2])
        ensures
            w@ == seq![self.start, self.size],
    {
        let w = [self.start, self.size];
        assert(w@ =~= seq![self.start, self.size]);
        w
    }
}

} // verus!
