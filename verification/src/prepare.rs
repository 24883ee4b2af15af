//! The decisions and sizes the per-frame prepare systems compute before they
//! touch the GPU: uniform flag words, buffer sizes, the world buffers'
//! allocation lengths and initial contents, the viewport that is kept across
//! a resize, and what the build-once extract hand-off does.

use vstd::prelude::*;

use crate::bits::lemma_or_higher_bit;
use crate::counters::UVec2;
use crate::gpu_types::{GpuVoxelType, VoxelType};

verus! {

/// Render `flags` bit: show the per-pixel ray step count.
pub const FLAG_SHOW_RAY_STEP: u32 = 1;
/// Render `flags` bit: trace a shadow ray towards the sun.
pub const FLAG_CHECK_SUN: u32 = 2;
/// Render `flags` bit: write a TAA sample.
pub const FLAG_IS_TAA: u32 = 4;
/// Render `flags` bit: march the atmosphere along primary-ray segments.
pub const FLAG_IS_ATMOSPHERE_INTERACTION: u32 = 8;
/// Render `flags` bit: the final blit reads `final_color`'s packing.
pub const FLAG_BLIT_FINAL_COLOR: u32 = 16;

/// GI `flags` bit: skip samples.
pub const GI_FLAG_SKIP_SAMPLES: u32 = 1;
/// GI `flags` bit: run the denoiser.
pub const GI_FLAG_IS_DENOISE: u32 = 2;
/// GI `flags` bit: brightness-level the bucket samples.
pub const GI_FLAG_IS_SAMPLE_LEVELING: u32 = 4;
/// GI `flags` bit: vary the spatial-resampling radius per pixel.
pub const GI_FLAG_IS_VARYING_RADIUS: u32 = 8;
/// GI `flags` bit: apply the in-volume atmosphere interaction.
pub const GI_FLAG_IS_ATMOSPHERE_INTERACTION: u32 = 16;

/// `globalIlumSampleCounts` element count: the 128-frame ring plus 3 header
/// slots.
pub const SAMPLE_COUNTS_LEN: u32 = 131;
/// Lit-sample ring depth multiplier.
pub const VALID_SAMPLE_STORAGE_COUNT: u32 = 2;
/// Unlit-sample ring depth multiplier.
pub const INVALID_SAMPLE_STORAGE_COUNT: u32 = 8;
/// Per-bucket refined-sample capacity.
pub const BUCKET_STORAGE_COUNT: u32 = 32;
/// Per-bucket compressed-sample capacity.
pub const REFINED_BUCKET_STORAGE_COUNT: u32 = 8;

/// Growth headroom factor of the block and voxel buffers.
pub const W2_BUFFER_HEADROOM_MUL: u64 = 2;

/// The render uniform's flag word: sun shadows and atmosphere interaction are
/// always on; the TAA bit follows the TAA toggle.
pub fn render_flags(taa_enabled: bool) -> (flags: u32)
    ensures
        flags == if taa_enabled {
            FLAG_CHECK_SUN + FLAG_IS_TAA + FLAG_IS_ATMOSPHERE_INTERACTION
        } else {
            FLAG_CHECK_SUN + FLAG_IS_ATMOSPHERE_INTERACTION
        },
{
    proof {
        lemma_or_higher_bit(2, 4);
        lemma_or_higher_bit(2, 8);
        lemma_or_higher_bit(6, 8);
    }
    if taa_enabled {
        FLAG_CHECK_SUN | FLAG_IS_TAA | FLAG_IS_ATMOSPHERE_INTERACTION
    } else {
        FLAG_CHECK_SUN | FLAG_IS_ATMOSPHERE_INTERACTION
    }
}

/// The GI settings that become bits of the GI uniform's flag word.
#[derive(Clone, Copy, Debug, PartialEq, Eq, Structural)]
pub struct GiToggles {
    /// Skip samples.
    pub skip_samples: bool,
    /// Run the denoiser.
    pub is_denoise: bool,
    /// Brightness-level the bucket samples.
    pub is_sample_leveling: bool,
    /// Vary the spatial-resampling radius per pixel.
    pub is_varying_resampling_radius: bool,
    /// Apply the in-volume atmosphere interaction.
    pub is_atmosphere_interaction: bool,
}

/// Bit `bit` when `on`, else 0.
pub open spec fn flag_if(on: bool, bit: u32) -> int {
    if on {
        bit as int
    } else {
        0
    }
}

/// The GI uniform's flag word: one bit per enabled toggle.
pub fn gi_flags(gi: GiToggles) -> (flags: u32)
    ensures
        flags == flag_if(gi.skip_samples, GI_FLAG_SKIP_SAMPLES) + flag_if(gi.is_denoise, GI_FLAG_IS_DENOISE)
            + flag_if(gi.is_sample_leveling, GI_FLAG_IS_SAMPLE_LEVELING) + flag_if(
            gi.is_varying_resampling_radius,
            GI_FLAG_IS_VARYING_RADIUS,
        ) + flag_if(gi.is_atmosphere_interaction, GI_FLAG_IS_ATMOSPHERE_INTERACTION),
{
    let mut flags = 0u32;
    if gi.skip_samples {
        proof {
            lemma_or_higher_bit(0, 1);
        }
        flags |= GI_FLAG_SKIP_SAMPLES;
    }
    assert(flags == flag_if(gi.skip_samples, 1));
    let ghost f1 = flags;
    if gi.is_denoise {
        proof {
            lemma_or_higher_bit(f1, 2);
        }
        flags |= GI_FLAG_IS_DENOISE;
    }
    let ghost f2 = flags;
    if gi.is_sample_leveling {
        proof {
            lemma_or_higher_bit(f2, 4);
        }
        flags |= GI_FLAG_IS_SAMPLE_LEVELING;
    }
    let ghost f3 = flags;
    if gi.is_varying_resampling_radius {
        proof {
            lemma_or_higher_bit(f3, 8);
        }
        flags |= GI_FLAG_IS_VARYING_RADIUS;
    }
    let ghost f4 = flags;
    if gi.is_atmosphere_interaction {
        proof {
            lemma_or_higher_bit(f4, 16);
        }
        flags |= GI_FLAG_IS_ATMOSPHERE_INTERACTION;
    }
    flags
}

/// How many past frames the TAA reproject pass walks: the ring depth clamped
/// to `[1, ring_depth]`.
pub fn taa_sample_age(ring_depth: u32) -> (age: u32)
    requires
        ring_depth >= 1,
    ensures
        age == ring_depth,
{
    let lower_bounded = if ring_depth < 1 {
        1
    } else {
        ring_depth
    };
    if lower_bounded > ring_depth {
        ring_depth
    } else {
        lower_bounded
    }
}

/// The viewport the screen-space buffers are sized for: the extracted
/// viewport with each axis at least 1, and its pixel count.
pub fn viewport_pixels(viewport: UVec2) -> (r: (UVec2, u32))
    requires
        vstd::math::max(viewport.x as int, 1) * vstd::math::max(viewport.y as int, 1) <= u32::MAX,
    ensures
        r.0.x == vstd::math::max(viewport.x as int, 1),
        r.0.y == vstd::math::max(viewport.y as int, 1),
        r.1 == r.0.x * r.0.y,
{
    let v = UVec2 {
        x: if viewport.x < 1 { 1 } else { viewport.x },
        y: if viewport.y < 1 { 1 } else { viewport.y },
    };
    (v, v.x * v.y)
}

/// The viewport kept after a camera read: a new size replaces the old one
/// only when it is known and non-degenerate on both axes.
pub fn retained_viewport(previous: UVec2, read: Option<UVec2>) -> (v: UVec2)
    ensures
        v == match read {
            Some(size) => if size.x > 0 && size.y > 0 {
                size
            } else {
                previous
            },
            None => previous,
        },
{
    match read {
        Some(size) => {
            if size.x > 0 && size.y > 0 {
                size
            } else {
                previous
            }
        },
        None => previous,
    }
}

/// Whether the screen-sized buffers must be made anew: none exist yet, or
/// they were made for another pixel count. The frame, TAA and GI buffers all
/// follow this test.
pub fn screen_storage_stale(existing_pixel_count: Option<u32>, pixel_count: u32) -> (stale: bool)
    ensures
        stale == (existing_pixel_count != Some(pixel_count)),
{
    match existing_pixel_count {
        Some(n) => n != pixel_count,
        None => true,
    }
}

/// What the frame preparation rebuilds this frame.
#[derive(Clone, Copy, Debug, PartialEq, Eq, Structural)]
pub struct FrameRebuild {
    /// New G-buffer, absorption and colour buffers (cleared on creation).
    pub storage: bool,
    /// New frame, atmosphere, blit and TAA bind groups.
    pub bind_groups: bool,
    /// New GI bind groups.
    pub gi_bind_groups: bool,
}

/// The rebuild decision from the pixel count the existing frame resources
/// and GI bind groups were made for (`None` when they do not exist): storage
/// when its pixel count changed or it is missing; the frame bind groups with
/// new storage or when the frame resources are missing; the GI bind groups
/// with new storage or when theirs is missing or stale.
pub fn frame_rebuild(
    frame_pixel_count: Option<u32>,
    gi_bind_groups_pixel_count: Option<u32>,
    pixel_count: u32,
) -> (r: FrameRebuild)
    ensures
        r.storage == (frame_pixel_count != Some(pixel_count)),
        r.bind_groups == (r.storage || frame_pixel_count is None),
        r.gi_bind_groups == (r.storage || gi_bind_groups_pixel_count != Some(pixel_count)),
{
    let storage = screen_storage_stale(frame_pixel_count, pixel_count);
    let bind_groups = storage || frame_pixel_count.is_none();
    let gi_bind_groups = storage || gi_bind_groups_pixel_count.is_none() || screen_storage_stale(
        gi_bind_groups_pixel_count,
        pixel_count,
    );
    FrameRebuild { storage, bind_groups, gi_bind_groups }
}

/// Byte sizes of the GI working buffers.
#[derive(Clone, Copy, Debug, PartialEq, Eq, Structural)]
pub struct GiBufferSizes {
    /// `ray_queue`: `pixel_count + 1` words.
    pub ray_queue: u64,
    /// `ray_queue_indirect`: 5 words.
    pub ray_queue_indirect: u64,
    /// `valid_samples`: `pixel_count * 2` 32-byte samples.
    pub valid_samples: u64,
    /// `invalid_samples`: `pixel_count * 8` 16-byte entries.
    pub invalid_samples: u64,
    /// `valid_samples_refined`: `bucket_count * 32` 16-byte entries.
    pub valid_samples_refined: u64,
    /// `valid_samples_compressed`: `bucket_count * 8` 16-byte entries.
    pub valid_samples_compressed: u64,
    /// `bucket_info`: `bucket_count` 8-byte entries.
    pub bucket_info: u64,
    /// `sample_counts`: 131 8-byte entries.
    pub sample_counts: u64,
    /// `valid_dispatch`: 5 words.
    pub valid_dispatch: u64,
    /// `invalid_dispatch`: 5 words.
    pub invalid_dispatch: u64,
    /// `denoise_preprocessed`: `pixel_count` 16-byte entries.
    pub denoise_preprocessed: u64,
    /// `denoise_preprocessed_horizontal`: `pixel_count` 16-byte entries.
    pub denoise_preprocessed_horizontal: u64,
}

/// At least 16 bytes: a zero-size buffer is not allowed.
pub open spec fn at_least_16(size: int) -> int {
    vstd::math::max(size, 16)
}

/// The GI buffer sizes for `pixel_count` pixels and `bucket_count` buckets
/// (each counted as at least 1), each at least 16 bytes.
pub fn gi_buffer_sizes(pixel_count: u32, bucket_count: u32) -> (s: GiBufferSizes)
    ensures
        ({
            let p = vstd::math::max(pixel_count as int, 1);
            let b = vstd::math::max(bucket_count as int, 1);
            &&& s.ray_queue == at_least_16((p + 1) * 4)
            &&& s.ray_queue_indirect == 20
            &&& s.valid_samples == at_least_16(p * 2 * 32)
            &&& s.invalid_samples == at_least_16(p * 8 * 16)
            &&& s.valid_samples_refined == at_least_16(b * 32 * 16)
            &&& s.valid_samples_compressed == at_least_16(b * 8 * 16)
            &&& s.bucket_info == at_least_16(b * 8)
            &&& s.sample_counts == 131 * 8
            &&& s.valid_dispatch == 20
            &&& s.invalid_dispatch == 20
            &&& s.denoise_preprocessed == at_least_16(p * 16)
            &&& s.denoise_preprocessed_horizontal == at_least_16(p * 16)
        }),
{
    let p: u64 = if pixel_count < 1 { 1 } else { pixel_count as u64 };
    let b: u64 = if bucket_count < 1 { 1 } else { bucket_count as u64 };
    let mk = |size: u64| -> (r: u64)
        ensures
            r == at_least_16(size as int),
        {
            if size < 16 {
                16
            } else {
                size
            }
        };
    GiBufferSizes {
        ray_queue: mk((p + 1) * 4),
        ray_queue_indirect: mk(5 * 4),
        valid_samples: mk(p * VALID_SAMPLE_STORAGE_COUNT as u64 * 32),
        invalid_samples: mk(p * INVALID_SAMPLE_STORAGE_COUNT as u64 * 16),
        valid_samples_refined: mk(b * BUCKET_STORAGE_COUNT as u64 * 16),
        valid_samples_compressed: mk(b * REFINED_BUCKET_STORAGE_COUNT as u64 * 16),
        bucket_info: mk(b * 8),
        sample_counts: mk(SAMPLE_COUNTS_LEN as u64 * 8),
        valid_dispatch: mk(5 * 4),
        invalid_dispatch: mk(5 * 4),
        denoise_preprocessed: mk(p * 16),
        denoise_preprocessed_horizontal: mk(p * 16),
    }
}

/// Byte sizes of the TAA screen buffers for `pixel_count` pixels and a sample
/// ring `ring_depth` deep: the ring (`pixel_count * ring_depth` 8-byte
/// samples), the accumulated sample and the distance min/max buffer
/// (`pixel_count` 8-byte entries each).
pub fn taa_screen_buffer_sizes(pixel_count: u32, ring_depth: u32) -> (s: (u64, u64, u64))
    requires
        pixel_count * ring_depth * 8 <= u64::MAX,
    ensures
        s.0 == pixel_count * ring_depth * 8,
        s.1 == pixel_count * 8,
        s.2 == pixel_count * 8,
{
    assert(pixel_count as int * ring_depth as int <= pixel_count as int * ring_depth as int * 8) by (nonlinear_arith)
        requires
            pixel_count >= 0,
            ring_depth >= 0,
    ;
    (
        (pixel_count as u64) * (ring_depth as u64) * 8,
        (pixel_count as u64) * 8,
        (pixel_count as u64) * 8,
    )
}

/// Byte sizes of the per-pixel frame buffers for `pixel_count` pixels: the
/// first-hit G-buffer (16 bytes a pixel), the absorption buffer and the GI
/// working colour (8 bytes a pixel each).
pub fn frame_buffer_sizes(pixel_count: u32) -> (s: (u64, u64, u64))
    ensures
        s.0 == pixel_count * 16,
        s.1 == pixel_count * 8,
        s.2 == pixel_count * 8,
{
    ((pixel_count as u64) * 16, (pixel_count as u64) * 8, (pixel_count as u64) * 8)
}

/// Allocation lengths, in words, of the block and voxel buffers. With the GPU
/// producer on, each is the largest of room for every chunk (64 blocks / 128
/// voxel words a chunk), the CPU mirror plus one chunk's worth, doubled, and
/// one chunk's worth; otherwise it is the CPU mirror doubled.
pub open spec fn spec_world_alloc_lens(
    chunk_count: u64,
    cpu_blocks_len: usize,
    cpu_voxels_len: usize,
    gpu_producer_enabled: bool,
) -> (int, int) {
    let blocks = vstd::math::max(cpu_blocks_len as int, 1);
    let voxels = vstd::math::max(cpu_voxels_len as int, 1);
    if gpu_producer_enabled {
        (
            vstd::math::max(
                vstd::math::max(vstd::math::min(chunk_count * 64, u64::MAX as int), (blocks + 64) * 2),
                64,
            ),
            vstd::math::max(
                vstd::math::max(vstd::math::min(chunk_count * 128, u64::MAX as int), (voxels + 32) * 2),
                32,
            ),
        )
    } else {
        (blocks * 2, voxels * 2)
    }
}

/// Allocation lengths of the block and voxel buffers, as
/// [`spec_world_alloc_lens`] states (truncated to `usize`).
pub fn world_alloc_lens(
    chunk_count: u64,
    cpu_blocks_len: usize,
    cpu_voxels_len: usize,
    gpu_producer_enabled: bool,
) -> (lens: (usize, usize))
    requires
        (vstd::math::max(cpu_blocks_len as int, 1) + 64) * 2 <= u64::MAX,
        (vstd::math::max(cpu_voxels_len as int, 1) + 32) * 2 <= u64::MAX,
    ensures
        lens.0 == spec_world_alloc_lens(chunk_count, cpu_blocks_len, cpu_voxels_len, gpu_producer_enabled).0 as usize,
        lens.1 == spec_world_alloc_lens(chunk_count, cpu_blocks_len, cpu_voxels_len, gpu_producer_enabled).1 as usize,
{
    let cpu_blocks = if cpu_blocks_len < 1 { 1 } else { cpu_blocks_len };
    let cpu_voxels = if cpu_voxels_len < 1 { 1 } else { cpu_voxels_len };
    let blocks_with_headroom = (cpu_blocks as u64) * W2_BUFFER_HEADROOM_MUL;
    let voxels_with_headroom = (cpu_voxels as u64) * W2_BUFFER_HEADROOM_MUL;
    let blocks_alloc: u64 = if gpu_producer_enabled {
        let from_cpu = ((cpu_blocks as u64) + 64) * W2_BUFFER_HEADROOM_MUL;
        let from_chunks = if chunk_count > u64::MAX / 64 { u64::MAX } else { chunk_count * 64 };
        let m = if from_chunks > from_cpu { from_chunks } else { from_cpu };
        if m > 64 { m } else { 64 }
    } else {
        if blocks_with_headroom > 1 { blocks_with_headroom } else { 1 }
    };
    let voxels_alloc: u64 = if gpu_producer_enabled {
        let from_cpu = ((cpu_voxels as u64) + 32) * W2_BUFFER_HEADROOM_MUL;
        let from_chunks = if chunk_count > u64::MAX / 128 { u64::MAX } else { chunk_count * 128 };
        let m = if from_chunks > from_cpu { from_chunks } else { from_cpu };
        if m > 32 { m } else { 32 }
    } else {
        if voxels_with_headroom > 1 { voxels_with_headroom } else { 1 }
    };
    (blocks_alloc as usize, voxels_alloc as usize)
}

/// The chunk buffer's initial pairs: the CPU chunk words, cut or zero-padded
/// to `chunk_count`, each paired with a zero entity word.
pub fn chunk_pairs(chunks: &[u32], chunk_count: usize) -> (pairs: Vec<[u32; 2]>)
    ensures
        pairs@.len() == chunk_count,
        forall|i: int|
            0 <= i < chunk_count ==> #[trigger] pairs@[i] == [
                if i < chunks@.len() {
                    chunks@[i]
                } else {
                    0u32
                },
                0u32,
            ],
{
    let mut pairs: Vec<[u32; 2]> = Vec::new();
    let mut i: usize = 0;
    while i < chunk_count
        invariant
            i <= chunk_count,
            pairs@.len() == i,
            forall|j: int|
                0 <= j < i ==> #[trigger] pairs@[j] == [
                    if j < chunks@.len() {
                        chunks@[j]
                    } else {
                        0u32
                    },
                    0u32,
                ],
        decreases chunk_count - i,
    {
        let c = if i < chunks.len() {
            chunks[i]
        } else {
            0
        };
        pairs.push([c, 0u32]);
        i += 1;
    }
    pairs
}

/// The GPU palette: every voxel type packed, or a single all-zero entry for
/// an empty palette.
pub fn pack_palette(types: &[VoxelType]) -> (palette: Vec<GpuVoxelType>)
    ensures
        types@.len() == 0 ==> palette@.len() == 1 && palette@[0].data@ == seq![0u32, 0u32, 0u32, 0u32],
        types@.len() > 0 ==> palette@.len() == types@.len() && forall|i: int|
            0 <= i < types@.len() ==> #[trigger] palette@[i] == GpuVoxelType::spec_from(types@[i]),
{
    let mut palette: Vec<GpuVoxelType> = Vec::new();
    if types.len() == 0 {
        let zero = GpuVoxelType { data: [0, 0, 0, 0] };
        assert(zero.data@ =~= seq![0u32, 0u32, 0u32, 0u32]);
        palette.push(zero);
        return palette;
    }
    let mut i: usize = 0;
    while i < types.len()
        invariant
            i <= types@.len(),
            palette@.len() == i,
            forall|j: int| 0 <= j < i ==> #[trigger] palette@[j] == GpuVoxelType::spec_from(types@[j]),
        decreases types@.len() - i,
    {
        palette.push(GpuVoxelType::from_voxel_type(&types[i]));
        i += 1;
    }
    palette
}

/// What the build-once world hand-off does this frame.
#[derive(Clone, Copy, Debug, PartialEq, Eq, Structural)]
pub enum StageAction {
    /// Nothing to hand off.
    Nothing,
    /// Hand the changed palette to the already-built GPU world.
    RefreshPalette,
    /// Hand the whole world to the render world for its one-time GPU build.
    StageWorld,
}

/// The hand-off decision: once the GPU world is built or a hand-off waits,
/// only a palette change (on a built world with no refresh pending) is handed
/// over; before that the world is staged as soon as its data and palette exist.
pub open spec fn spec_stage_action(
    world_gpu_built: bool,
    staging_pending: bool,
    refresh_pending: bool,
    palette: Option<bool>,
    world_data_present: bool,
) -> StageAction {
    if world_gpu_built || staging_pending {
        if world_gpu_built && !refresh_pending && palette == Some(true) {
            StageAction::RefreshPalette
        } else {
            StageAction::Nothing
        }
    } else if world_data_present && palette.is_some() {
        StageAction::StageWorld
    } else {
        StageAction::Nothing
    }
}

/// The hand-off decision; `palette` is `Some(changed)` when the palette
/// resource exists.
pub fn stage_action(
    world_gpu_built: bool,
    staging_pending: bool,
    refresh_pending: bool,
    palette: Option<bool>,
    world_data_present: bool,
) -> (a: StageAction)
    ensures
        a == spec_stage_action(world_gpu_built, staging_pending, refresh_pending, palette, world_data_present),
{
    if world_gpu_built || staging_pending {
        if world_gpu_built && !refresh_pending {
            if let Some(changed) = palette {
                if changed {
                    return StageAction::RefreshPalette;
                }
            }
        }
        return StageAction::Nothing;
    }
    match palette {
        Some(_) => {
            if world_data_present {
                StageAction::StageWorld
            } else {
                StageAction::Nothing
            }
        },
        None => StageAction::Nothing,
    }
}

/// What the render world's GPU-world preparation does this frame.
#[derive(Clone, Copy, Debug, PartialEq, Eq, Structural)]
pub enum WorldPrepareAction {
    /// Nothing to do yet, or nothing left to do.
    Nothing,
    /// Re-upload the changed palette to the built GPU world and rebuild what
    /// binds it.
    RefreshPalette,
    /// Build the GPU world from the staged world data.
    BuildWorld,
}

/// The preparation decision: a built world only takes a pending palette
/// refresh; an unbuilt one is built once staged world data of a non-zero
/// size (in chunks) has arrived.
pub open spec fn spec_world_prepare_action(
    world_gpu_built: bool,
    refresh_pending: bool,
    staged_size: Option<[u32; 3]>,
) -> WorldPrepareAction {
    if world_gpu_built {
        if refresh_pending {
            WorldPrepareAction::RefreshPalette
        } else {
            WorldPrepareAction::Nothing
        }
    } else {
        match staged_size {
            Some(size) => if size[0] == 0 && size[1] == 0 && size[2] == 0 {
                WorldPrepareAction::Nothing
            } else {
                WorldPrepareAction::BuildWorld
            },
            None => WorldPrepareAction::Nothing,
        }
    }
}

/// The preparation decision; `staged_size` is the staged world's size in
/// chunks when the staging hand-off has arrived.
pub fn world_prepare_action(
    world_gpu_built: bool,
    refresh_pending: bool,
    staged_size: Option<[u32; 3]>,
) -> (a: WorldPrepareAction)
    ensures
        a == spec_world_prepare_action(world_gpu_built, refresh_pending, staged_size),
{
    if world_gpu_built {
        if refresh_pending {
            return WorldPrepareAction::RefreshPalette;
        }
        return WorldPrepareAction::Nothing;
    }
    match staged_size {
        Some(size) => {
            if size[0] == 0 && size[1] == 0 && size[2] == 0 {
                WorldPrepareAction::Nothing
            } else {
                WorldPrepareAction::BuildWorld
            }
        },
        None => WorldPrepareAction::Nothing,
    }
}

/// The words the GI indirect-dispatch buffers are seeded with after they are
/// cleared.
#[derive(Clone, Copy, Debug, PartialEq, Eq)]
pub struct GiIndirectSeeds {
    /// `ray_queue_indirect`: a dispatch of 0 x 1 x 1 groups, the ray count
    /// the queue starts from, and a zero word.
    pub ray_queue_indirect: [u32; 5],
    /// `valid_dispatch`: a dispatch of 1 x 1 x 1 groups and two zero words.
    pub valid_dispatch: [u32; 5],
    /// `invalid_dispatch`: as `valid_dispatch`.
    pub invalid_dispatch: [u32; 5],
}

/// The seeds of the GI indirect-dispatch buffers: `[0, 1, 1, 0, 0]` for the
/// ray queue and `[1, 1, 1, 0, 0]` for both sample dispatches.
pub fn gi_indirect_seeds() -> (seeds: GiIndirectSeeds)
    ensures
        seeds.ray_queue_indirect@ == seq![0u32, 1, 1, 0, 0],
        seeds.valid_dispatch@ == seq![1u32, 1, 1, 0, 0],
        seeds.invalid_dispatch@ == seq![1u32, 1, 1, 0, 0],
{
    let seeds = GiIndirectSeeds {
        ray_queue_indirect: [0, 1, 1, 0, 0],
        valid_dispatch: [1, 1, 1, 0, 0],
        invalid_dispatch: [1, 1, 1, 0, 0],
    };
    assert(seeds.ray_queue_indirect@ =~= seq![0u32, 1, 1, 0, 0]);
    assert(seeds.valid_dispatch@ =~= seq![1u32, 1, 1, 0, 0]);
    assert(seeds.invalid_dispatch@ =~= seq![1u32, 1, 1, 0, 0]);
    seeds
}

/// The GPU world's size in chunks: the staged size with each axis at least
/// one chunk.
pub open spec fn spec_world_gpu_size(staged: [u32; 3]) -> [u32; 3] {
    [
        vstd::math::max(staged[0] as int, 1) as u32,
        vstd::math::max(staged[1] as int, 1) as u32,
        vstd::math::max(staged[2] as int, 1) as u32,
    ]
}

/// The GPU world's size in chunks and its chunk count, from the staged
/// size (each axis at least one chunk); the count is computed in `u32`, so
/// it must fit one.
pub fn world_gpu_size(staged: [u32; 3]) -> (r: ([u32; 3], usize))
    requires
        vstd::math::max(staged[0] as int, 1) * vstd::math::max(staged[1] as int, 1) * vstd::math::max(
            staged[2] as int,
            1,
        ) <= u32::MAX,
    ensures
        r.0 == spec_world_gpu_size(staged),
        r.1 == r.0[0] * r.0[1] * r.0[2],
{
    let x = if staged[0] < 1 { 1 } else { staged[0] };
    let y = if staged[1] < 1 { 1 } else { staged[1] };
    let z = if staged[2] < 1 { 1 } else { staged[2] };
    proof {
        assert(x * y <= x * y * z) by (nonlinear_arith)
            requires
                z >= 1,
                x >= 1,
                y >= 1,
        ;
    }
    let size = [x, y, z];
    assert(size =~= spec_world_gpu_size(staged));
    (size, (x * y * z) as usize)
}

/// The GPU world is built at most once: a built world is only ever
/// refreshed, and only when a refresh is pending; an unbuilt one is never
/// refreshed and is built exactly when staged data of a size other than
/// zero has arrived.
pub proof fn lemma_world_prepare_builds_once(world_gpu_built: bool, refresh_pending: bool, staged_size: Option<[u32; 3]>)
    ensures
        ({
            let a = spec_world_prepare_action(world_gpu_built, refresh_pending, staged_size);
            &&& world_gpu_built ==> a != WorldPrepareAction::BuildWorld
            &&& (a == WorldPrepareAction::RefreshPalette) <==> (world_gpu_built && refresh_pending)
            &&& (a == WorldPrepareAction::BuildWorld) <==> (!world_gpu_built && staged_size is Some && staged_size.unwrap()
                != [0u32, 0u32, 0u32])
        }),
{
    if let Some(size) = staged_size {
        if !(size[0] == 0 && size[1] == 0 && size[2] == 0) {
            assert(size != [0u32, 0u32, 0u32]) by {
                if size == [0u32, 0u32, 0u32] {
                    assert(size[0] == 0 && size[1] == 0 && size[2] == 0);
                }
            }
        } else {
            assert(size =~= [0u32, 0u32, 0u32]);
        }
    }
}

/// The hand-off stages the world at most once: never while a GPU world
/// exists or a hand-off is pending, and then as soon as both the world data
/// and the palette exist; a palette refresh goes only to a built world with
/// no refresh pending, and only for a changed palette.
pub proof fn lemma_stage_action_once(
    world_gpu_built: bool,
    staging_pending: bool,
    refresh_pending: bool,
    palette: Option<bool>,
    world_data_present: bool,
)
    ensures
        ({
            let a = spec_stage_action(world_gpu_built, staging_pending, refresh_pending, palette, world_data_present);
            &&& (a == StageAction::StageWorld) <==> (!world_gpu_built && !staging_pending && world_data_present
                && palette is Some)
            &&& (a == StageAction::RefreshPalette) <==> (world_gpu_built && !refresh_pending && palette == Some(true))
        }),
{
}

} // verus!
