use naadf::model::{build_mixed_model_data, discover_populated_oasis_voxels, probe_model_voxel, ModelData};

#[test]
fn mixed_model_cycles_empty_uniform_mixed() {
    let m = build_mixed_model_data([3, 1, 1]);
    assert_eq!(m.size_in_chunks, [3, 1, 1]);
    assert_eq!(m.data_chunk, vec![0, 0x4000_0002, 0x8000_0000]);
    assert_eq!(m.data_block.len(), 64);
    assert_eq!(m.data_block[0], 0x8000_0000);
    assert!(m.data_block[1..].iter().all(|b| *b == 0));
    assert_eq!(m.data_voxel.len(), 32);
    // Chunk 2 places its voxel at index 2: low half of pair word 1.
    assert_eq!(m.data_voxel[1], 0x8042);
    assert_eq!(m.data_voxel.iter().filter(|w| **w != 0).count(), 1);
}

#[test]
fn mixed_model_second_mixed_chunk_points_past_the_first() {
    let m = build_mixed_model_data([6, 1, 1]);
    assert_eq!(m.data_chunk[5], 0x8000_0040);
    assert_eq!(m.data_block.len(), 128);
    assert_eq!(m.data_block[64], 0x8000_0020);
    // Chunk 5 places its voxel at index 5: high half of pair word 2.
    assert_eq!(m.data_voxel[32 + 2], 0x8042_0000);
    assert_eq!(m.data_chunk[4], 0x4000_0005);
}

#[test]
fn mixed_model_uniform_type_wraps_every_256_chunks() {
    let m = build_mixed_model_data([257, 1, 1]);
    // Chunk 256 is uniform (256 % 3 == 1) of type 256 % 256 + 1.
    assert_eq!(m.data_chunk[256], 0x4000_0001);
    assert_eq!(m.data_chunk[255 + 1 - 3], 0x4000_00FE);
}

#[test]
fn mixed_model_without_mixed_chunks_holds_one_zero_word() {
    let m = build_mixed_model_data([2, 1, 1]);
    assert_eq!(m.data_chunk, vec![0, 0x4000_0002]);
    assert_eq!(m.data_block, vec![0]);
    assert_eq!(m.data_voxel, vec![0]);
    let empty = build_mixed_model_data([0, 4, 4]);
    assert!(empty.data_chunk.is_empty());
}

#[test]
fn probe_reads_the_tiled_model() {
    let m = build_mixed_model_data([3, 1, 1]);
    let world = [96, 32, 16];
    // Empty chunk 0, uniform chunk 1, the voxel of mixed chunk 2.
    assert_eq!(probe_model_voxel(&m, world, [5, 3, 3]), 0);
    assert_eq!(probe_model_voxel(&m, world, [16, 0, 0]), 2);
    assert_eq!(probe_model_voxel(&m, world, [34, 0, 0]), 0x42);
    assert_eq!(probe_model_voxel(&m, world, [35, 0, 0]), 0);
    // Tiled along x.
    assert_eq!(probe_model_voxel(&m, world, [48 + 16, 0, 0]), 2);
    assert_eq!(probe_model_voxel(&m, world, [48 + 34, 0, 0]), 0x42);
    // Not repeated upward, and nothing outside the world.
    assert_eq!(probe_model_voxel(&m, world, [16, 16, 0]), 0);
    assert_eq!(probe_model_voxel(&m, world, [-1, 0, 0]), 0);
    assert_eq!(probe_model_voxel(&m, world, [96, 0, 0]), 0);
}

#[test]
fn discovery_scans_y_then_z_then_x() {
    let m = build_mixed_model_data([3, 1, 1]);
    let found = discover_populated_oasis_voxels(&m, [48, 16, 16], 3);
    assert_eq!(found, vec![[16, 0, 0], [24, 0, 0], [16, 0, 8]]);
}

#[test]
fn discovery_returns_only_populated_positions() {
    let m = build_mixed_model_data([3, 1, 1]);
    let found = discover_populated_oasis_voxels(&m, [48, 16, 16], 20);
    // x in {16, 24}, z in {0, 8}, y in {0, 4, 8, 12}: 16 positions, no padding.
    assert_eq!(found.len(), 16);
    assert_eq!(found[4], [16, 4, 0]);
    assert_eq!(found[15], [24, 12, 8]);
    assert!(found.iter().all(|p| probe_model_voxel(&m, [48, 16, 16], [p[0] as i64, p[1] as i64, p[2] as i64]) != 0));
}

#[test]
fn discovery_with_zero_limit_is_empty() {
    let m = build_mixed_model_data([3, 1, 1]);
    assert_eq!(discover_populated_oasis_voxels(&m, [48, 16, 16], 0), Vec::<[u32; 3]>::new());
    assert_eq!(discover_populated_oasis_voxels(&m, [48, 16, 16], 1), vec![[16, 0, 0]]);
    let empty = build_mixed_model_data([1, 1, 1]);
    assert_eq!(discover_populated_oasis_voxels(&empty, [16, 16, 16], 0), Vec::<[u32; 3]>::new());
    assert_eq!(discover_populated_oasis_voxels(&empty, [16, 16, 16], 2), Vec::<[u32; 3]>::new());
}

#[test]
fn discovery_reads_only_the_chunks_it_scans() {
    // Chunk 0 is uniformly full of type 5; chunks 1 and 2 point far past the
    // block words, but a 16-voxel-wide world never probes them.
    let m = ModelData {
        size_in_chunks: [3, 1, 1],
        data_chunk: vec![0x4000_0005, 0x8000_0000 | 999_999, 0x8000_0000 | 999_999],
        data_block: vec![0],
        data_voxel: vec![0],
    };
    let found = discover_populated_oasis_voxels(&m, [16, 16, 16], 3);
    assert_eq!(found, vec![[0, 0, 0], [8, 0, 0], [0, 0, 8]]);
}
