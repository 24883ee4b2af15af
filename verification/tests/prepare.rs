use naadf::counters::UVec2;
use naadf::gpu_types::{GpuVoxelType, VoxelType, MATERIAL_BASE_EMISSIVE};
use naadf::prepare::{
    chunk_pairs, frame_buffer_sizes, frame_rebuild, gi_buffer_sizes, gi_flags, pack_palette,
    render_flags, retained_viewport, screen_storage_stale, stage_action, taa_sample_age,
    taa_screen_buffer_sizes, viewport_pixels, world_alloc_lens, FrameRebuild, GiToggles,
    StageAction, FLAG_CHECK_SUN, FLAG_IS_ATMOSPHERE_INTERACTION, FLAG_IS_TAA,
};
use naadf::prepare::{gi_indirect_seeds, world_gpu_size, world_prepare_action, WorldPrepareAction};
use naadf::world_change::{
    chunk_change_workgroups, world_change_plan, ChangeCounts, Dispatch, WorldChangePass,
};

#[test]
fn render_flag_word() {
    assert_eq!(render_flags(true), FLAG_CHECK_SUN | FLAG_IS_TAA | FLAG_IS_ATMOSPHERE_INTERACTION);
    assert_eq!(render_flags(true), 14);
    assert_eq!(render_flags(false), 10);
}

#[test]
fn gi_flag_word_has_one_bit_per_toggle() {
    let none = GiToggles {
        skip_samples: false,
        is_denoise: false,
        is_sample_leveling: false,
        is_varying_resampling_radius: false,
        is_atmosphere_interaction: false,
    };
    assert_eq!(gi_flags(none), 0);
    assert_eq!(gi_flags(GiToggles { is_denoise: true, ..none }), 2);
    assert_eq!(gi_flags(GiToggles { skip_samples: true, is_atmosphere_interaction: true, ..none }), 17);
    let all = GiToggles {
        skip_samples: true,
        is_denoise: true,
        is_sample_leveling: true,
        is_varying_resampling_radius: true,
        is_atmosphere_interaction: true,
    };
    assert_eq!(gi_flags(all), 31);
}

#[test]
fn taa_age_and_viewport() {
    assert_eq!(taa_sample_age(16), 16);
    assert_eq!(taa_sample_age(1), 1);
    assert_eq!(viewport_pixels(UVec2::new(0, 5)), (UVec2::new(1, 5), 5));
    assert_eq!(viewport_pixels(UVec2::new(1920, 1080)), (UVec2::new(1920, 1080), 1920 * 1080));
}

#[test]
fn viewport_is_kept_on_degenerate_reads() {
    let prev = UVec2::new(800, 600);
    assert_eq!(retained_viewport(prev, None), prev);
    assert_eq!(retained_viewport(prev, Some(UVec2::new(0, 600))), prev);
    assert_eq!(retained_viewport(prev, Some(UVec2::new(1024, 0))), prev);
    assert_eq!(retained_viewport(prev, Some(UVec2::new(1024, 768))), UVec2::new(1024, 768));
}

#[test]
fn gi_buffer_sizes_floor_at_sixteen_bytes() {
    let s = gi_buffer_sizes(0, 0);
    assert_eq!(s.ray_queue, 16);
    assert_eq!(s.ray_queue_indirect, 20);
    assert_eq!(s.valid_samples, 64);
    assert_eq!(s.invalid_samples, 128);
    assert_eq!(s.valid_samples_refined, 512);
    assert_eq!(s.valid_samples_compressed, 128);
    assert_eq!(s.bucket_info, 16);
    assert_eq!(s.sample_counts, 131 * 8);
    assert_eq!(s.denoise_preprocessed, 16);
}

#[test]
fn gi_buffer_sizes_for_full_hd() {
    let pixels = 1920 * 1080;
    let buckets = 240 * 135;
    let s = gi_buffer_sizes(pixels, buckets);
    assert_eq!(s.ray_queue, (pixels as u64 + 1) * 4);
    assert_eq!(s.valid_samples, pixels as u64 * 64);
    assert_eq!(s.invalid_samples, pixels as u64 * 128);
    assert_eq!(s.valid_samples_refined, buckets as u64 * 512);
    assert_eq!(s.valid_samples_compressed, buckets as u64 * 128);
    assert_eq!(s.bucket_info, buckets as u64 * 8);
    assert_eq!(s.denoise_preprocessed_horizontal, pixels as u64 * 16);
}

#[test]
fn screen_and_frame_buffer_sizes() {
    assert_eq!(taa_screen_buffer_sizes(100, 16), (12_800, 800, 800));
    assert_eq!(frame_buffer_sizes(100), (1600, 800, 800));
    assert_eq!(frame_buffer_sizes(0), (0, 0, 0));
}

#[test]
fn world_allocation_lengths() {
    assert_eq!(world_alloc_lens(10, 5, 7, true), (640, 1280));
    assert_eq!(world_alloc_lens(0, 5, 7, true), (138, 78));
    assert_eq!(world_alloc_lens(10, 5, 7, false), (10, 14));
    assert_eq!(world_alloc_lens(0, 0, 0, false), (2, 2));
    assert_eq!(world_alloc_lens(0, 0, 0, true), (130, 66));
}

#[test]
fn chunk_pairs_cut_or_pad_the_cpu_chunks() {
    assert_eq!(chunk_pairs(&[1, 2, 3], 5), vec![[1, 0], [2, 0], [3, 0], [0, 0], [0, 0]]);
    assert_eq!(chunk_pairs(&[1, 2, 3], 2), vec![[1, 0], [2, 0]]);
    assert_eq!(chunk_pairs(&[], 0), Vec::<[u32; 2]>::new());
}

#[test]
fn palette_packs_each_type_or_one_zero_entry() {
    assert_eq!(pack_palette(&[]), vec![GpuVoxelType { data: [0, 0, 0, 0] }]);
    let ty = VoxelType {
        material_base: MATERIAL_BASE_EMISSIVE,
        material_layer: 0,
        roughness: 1.0f32.to_bits(),
        color_base: [0; 3],
        color_layered: [0; 3],
    };
    let p = pack_palette(&[ty, ty]);
    assert_eq!(p.len(), 2);
    assert_eq!(p[1], GpuVoxelType::from_voxel_type(&ty));
    assert_eq!(p[0].data[0], 0x3C00_0001);
}

#[test]
fn stage_action_decisions() {
    // Before the first build: stage once data and palette exist.
    assert_eq!(stage_action(false, false, false, Some(false), true), StageAction::StageWorld);
    assert_eq!(stage_action(false, false, false, None, true), StageAction::Nothing);
    assert_eq!(stage_action(false, false, false, Some(true), false), StageAction::Nothing);
    // A hand-off already waits.
    assert_eq!(stage_action(false, true, false, Some(true), true), StageAction::Nothing);
    // Built world: only a changed palette with no refresh pending.
    assert_eq!(stage_action(true, false, false, Some(true), true), StageAction::RefreshPalette);
    assert_eq!(stage_action(true, false, true, Some(true), true), StageAction::Nothing);
    assert_eq!(stage_action(true, false, false, Some(false), true), StageAction::Nothing);
}

#[test]
fn chunk_change_workgroup_counts() {
    assert_eq!(chunk_change_workgroups(0), 1);
    assert_eq!(chunk_change_workgroups(1), 1);
    assert_eq!(chunk_change_workgroups(64), 1);
    assert_eq!(chunk_change_workgroups(65), 2);
    assert_eq!(chunk_change_workgroups(u32::MAX), 0x400_0000);
}

#[test]
fn world_change_plan_orders_the_passes() {
    let counts = ChangeCounts { chunk: 130, block: 2, voxel: 0, group: 3 };
    assert_eq!(
        world_change_plan(true, true, counts),
        vec![
            Dispatch { pass: WorldChangePass::Chunk, workgroups: 3 },
            Dispatch { pass: WorldChangePass::Block, workgroups: 2 },
            Dispatch { pass: WorldChangePass::Group, workgroups: 3 },
        ]
    );
    assert!(world_change_plan(false, true, counts).is_empty());
    assert!(world_change_plan(true, false, counts).is_empty());
    let none = ChangeCounts { chunk: 0, block: 0, voxel: 0, group: 0 };
    assert!(world_change_plan(true, true, none).is_empty());
    let voxels = ChangeCounts { voxel: 4, ..none };
    assert_eq!(world_change_plan(true, true, voxels), vec![Dispatch { pass: WorldChangePass::Voxel, workgroups: 4 }]);
}

#[test]
fn screen_storage_is_kept_only_for_the_same_pixel_count() {
    assert!(screen_storage_stale(None, 100));
    assert!(screen_storage_stale(Some(99), 100));
    assert!(!screen_storage_stale(Some(100), 100));
}

#[test]
fn frame_rebuild_decisions() {
    let first = frame_rebuild(None, None, 100);
    assert_eq!(first, FrameRebuild { storage: true, bind_groups: true, gi_bind_groups: true });
    let steady = frame_rebuild(Some(100), Some(100), 100);
    assert_eq!(steady, FrameRebuild { storage: false, bind_groups: false, gi_bind_groups: false });
    let resized = frame_rebuild(Some(100), Some(100), 200);
    assert_eq!(resized, FrameRebuild { storage: true, bind_groups: true, gi_bind_groups: true });
    // GI bind groups missing or made for another size: only they are redone.
    let gi_missing = frame_rebuild(Some(100), None, 100);
    assert_eq!(gi_missing, FrameRebuild { storage: false, bind_groups: false, gi_bind_groups: true });
    let gi_stale = frame_rebuild(Some(100), Some(50), 100);
    assert_eq!(gi_stale, FrameRebuild { storage: false, bind_groups: false, gi_bind_groups: true });
}

#[test]
fn world_preparation_builds_once_then_only_refreshes() {
    // Not built: wait for staged data of a non-zero size.
    assert_eq!(world_prepare_action(false, false, None), WorldPrepareAction::Nothing);
    assert_eq!(world_prepare_action(false, true, None), WorldPrepareAction::Nothing);
    assert_eq!(world_prepare_action(false, false, Some([0, 0, 0])), WorldPrepareAction::Nothing);
    assert_eq!(world_prepare_action(false, false, Some([0, 0, 1])), WorldPrepareAction::BuildWorld);
    assert_eq!(world_prepare_action(false, true, Some([4, 2, 4])), WorldPrepareAction::BuildWorld);
    // Built: only a pending palette refresh does anything.
    assert_eq!(world_prepare_action(true, false, Some([4, 2, 4])), WorldPrepareAction::Nothing);
    assert_eq!(world_prepare_action(true, true, None), WorldPrepareAction::RefreshPalette);
    assert_eq!(world_prepare_action(true, true, Some([4, 2, 4])), WorldPrepareAction::RefreshPalette);
}

#[test]
fn gi_indirect_buffers_are_seeded_with_dispatch_words() {
    let s = gi_indirect_seeds();
    assert_eq!(s.ray_queue_indirect, [0, 1, 1, 0, 0]);
    assert_eq!(s.valid_dispatch, [1, 1, 1, 0, 0]);
    assert_eq!(s.invalid_dispatch, [1, 1, 1, 0, 0]);
}

#[test]
fn the_gpu_world_has_at_least_one_chunk_per_axis() {
    assert_eq!(world_gpu_size([4, 2, 3]), ([4, 2, 3], 24));
    assert_eq!(world_gpu_size([0, 2, 3]), ([1, 2, 3], 6));
    assert_eq!(world_gpu_size([5, 0, 0]), ([5, 1, 1], 5));
}
