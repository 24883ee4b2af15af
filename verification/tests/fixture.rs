use naadf::fixture::{
    construction_buffer_lens, fixture_volume, single_dispatch_buffer_lens, segment_grid, segment_offsets, tiled_segment_size,
    FixtureMode, FIXTURE_VOXEL_TYPE,
};
use naadf::volume::DenseVolume;
use naadf::voxel::VoxelTypeId;

/// The positions of every non-empty voxel, x-fastest.
fn filled(v: &DenseVolume) -> Vec<[u32; 3]> {
    let s = v.size_in_voxels();
    let mut out = Vec::new();
    for z in 0..s[2] {
        for y in 0..s[1] {
            for x in 0..s[0] {
                let t = v.voxel_at([x, y, z]);
                if t != VoxelTypeId(0) {
                    assert_eq!(t, VoxelTypeId(FIXTURE_VOXEL_TYPE));
                    out.push([x, y, z]);
                }
            }
        }
    }
    out
}

#[test]
fn uniform_fixture_fills_each_chunk_corner() {
    let v = fixture_volume([2, 1, 2], FixtureMode::Uniform);
    assert_eq!(v.size_in_chunks, [2, 1, 2]);
    assert_eq!(filled(&v), vec![[0, 0, 0], [16, 0, 0], [0, 0, 16], [16, 0, 16]]);
}

#[test]
fn diverse_fixture_cycles_the_slot_with_the_chunk_index() {
    let v = fixture_volume([22, 1, 1], FixtureMode::Diverse);
    let f = filled(&v);
    assert_eq!(f.len(), 22);
    assert_eq!(f[1], [17, 0, 0]);
    // Chunk 21: slot 21 = (1, 1, 1) of block (0, 0, 0).
    assert!(f.contains(&[21 * 16 + 1, 1, 1]));
    // Chunk 4: slot 4 = (0, 1, 0).
    assert!(f.contains(&[64, 1, 0]));
}

#[test]
fn mixed_fixture_alternates_uniform_and_diverse() {
    let v = fixture_volume([4, 1, 1], FixtureMode::Mixed);
    assert_eq!(filled(&v), vec![[0, 0, 0], [16, 0, 0], [32, 0, 0], [49, 0, 0]]);
}

#[test]
fn empty_fixture_world() {
    let v = fixture_volume([0, 3, 3], FixtureMode::Diverse);
    assert!(v.voxels.is_empty());
}

#[test]
fn segment_grid_needs_whole_segments() {
    assert_eq!(segment_grid([4, 4, 4], 2), Some([2, 2, 2]));
    assert_eq!(segment_grid([128, 16, 128], 16), Some([8, 1, 8]));
    assert_eq!(segment_grid([4, 3, 4], 2), None);
    assert_eq!(segment_grid([0, 0, 0], 5), Some([0, 0, 0]));
}

#[test]
fn tiled_segment_edge_is_the_shortest_axis_up_to_sixteen() {
    assert_eq!(tiled_segment_size([96, 16, 96]), 16);
    assert_eq!(tiled_segment_size([4, 1, 4]), 1);
    assert_eq!(tiled_segment_size([32, 20, 40]), 16);
    assert_eq!(tiled_segment_size([8, 12, 10]), 8);
}

#[test]
fn segment_offsets_run_x_then_y_then_z() {
    assert_eq!(
        segment_offsets([2, 1, 2], 4),
        vec![[0, 0, 0], [4, 0, 0], [0, 0, 4], [4, 0, 4]]
    );
    let all = segment_offsets([2, 2, 2], 16);
    assert_eq!(all.len(), 8);
    assert_eq!(all[1 + 1 * 2 + 1 * 4], [16, 16, 16]);
    assert_eq!(all[2], [0, 16, 0]);
    assert!(segment_offsets([0, 2, 2], 4).is_empty());
}

#[test]
fn construction_buffer_lengths() {
    assert_eq!(construction_buffer_lens(0), (64, 64));
    assert_eq!(construction_buffer_lens(10), (704, 20_544));
    assert_eq!(construction_buffer_lens(100_000), (6_400_064, 256 * 1024 * 1024 / 4));
}

#[test]
fn every_chunk_lies_in_the_segment_its_offset_names() {
    let world = [8u32, 4, 8];
    let seg = 4;
    let grid = segment_grid(world, seg).expect("whole segments");
    let offsets = segment_offsets(grid, seg);
    for cz in 0..world[2] {
        for cy in 0..world[1] {
            for cx in 0..world[0] {
                let k = (cx / seg + (cy / seg) * grid[0] + (cz / seg) * grid[0] * grid[1]) as usize;
                let o = offsets[k];
                assert!(o[0] <= cx && cx < o[0] + seg);
                assert!(o[1] <= cy && cy < o[1] + seg);
                assert!(o[2] <= cz && cz < o[2] + seg);
                let holders = offsets
                    .iter()
                    .filter(|o| o[0] <= cx && cx < o[0] + seg && o[1] <= cy && cy < o[1] + seg && o[2] <= cz && cz < o[2] + seg)
                    .count();
                assert_eq!(holders, 1);
            }
        }
    }
}

#[test]
fn single_dispatch_buffers_are_not_capped() {
    assert_eq!(single_dispatch_buffer_lens(10), (704, 20_544));
    // 40000 chunks: past the 256 MiB cap of the segmented runs.
    assert_eq!(single_dispatch_buffer_lens(40_000), (2_560_064, 81_920_064));
    assert_eq!(construction_buffer_lens(40_000).1, 0x400_0000);
}
