use naadf::diff::{
    compare_with_shifted_oracle, count_differences, first_difference, first_difference_at,
    first_semantic_mismatch, locate_segment_word, tally_semantic_mismatches, CellBuffers, Finding,
    FindingKind, OracleMismatch,
};

/// A small CPU-side world: chunk 0 mixed (block 0 mixed with one full voxel
/// word, block 1 uniform), chunk 1 uniform, chunk 2 empty, all pointers at 0.
fn cpu_world() -> CellBuffers {
    let mut blocks = vec![0u32; 64];
    blocks[0] = 0x8000_0000;
    blocks[1] = 0x4000_0003;
    let mut voxels = vec![0u32; 32];
    voxels[3] = 0x8001;
    CellBuffers { chunks: vec![0x8000_0000, 0x4000_0005, 0x0000_0001], blocks, voxels }
}

/// The same world as the GPU lays it out: 64 seeded block words and 32
/// seeded voxel words before the content.
fn gpu_world() -> CellBuffers {
    let mut blocks = vec![0u32; 128];
    blocks[64] = 0x8000_0020;
    blocks[65] = 0x4000_0003;
    let mut voxels = vec![0u32; 64];
    voxels[32 + 3] = 0x8001;
    CellBuffers { chunks: vec![0x8000_0040, 0x4000_0005, 0x0000_0001], blocks, voxels }
}

fn finding(kind: FindingKind, chunk: usize, block: usize, word: usize, cpu: u32, gpu: u32) -> Finding {
    Finding { kind, chunk, block, word, cpu, gpu }
}

#[test]
fn same_world_at_other_pointers_compares_equal() {
    let r = first_semantic_mismatch(&cpu_world(), &gpu_world(), 3);
    assert_eq!(r.mismatch, None);
    assert_eq!(r.mixed_chunks, 1);
    assert_eq!(r.mixed_blocks, 1);
    let t = tally_semantic_mismatches(&cpu_world(), &gpu_world(), 3, true);
    assert_eq!(t.total, 0);
    assert_eq!(t.first_chunk, None);
    assert_eq!(t.first_mismatch_chunk, None);
}

#[test]
fn a_world_compared_with_itself_has_no_difference() {
    let w = gpu_world();
    assert_eq!(first_semantic_mismatch(&w, &w, 3).mismatch, None);
    assert_eq!(tally_semantic_mismatches(&w, &w, 3, true).total, 0);
    assert_eq!(first_difference(&w.blocks, &w.blocks), None);
}

#[test]
fn voxel_word_difference_is_found_through_the_pointers() {
    let mut gpu = gpu_world();
    gpu.voxels[32 + 3] = 0x8002;
    let r = first_semantic_mismatch(&cpu_world(), &gpu, 3);
    assert_eq!(r.mismatch, Some(finding(FindingKind::Voxel, 0, 0, 3, 0x8001, 0x8002)));
    assert_eq!(r.mixed_chunks, 1);
    assert_eq!(r.mixed_blocks, 1);
}

#[test]
fn chunk_kind_difference_stops_the_strict_walk() {
    let mut gpu = gpu_world();
    gpu.chunks[1] = 0;
    let r = first_semantic_mismatch(&cpu_world(), &gpu, 3);
    assert_eq!(r.mismatch, Some(finding(FindingKind::ChunkKind, 1, 0, 0, 0x4000_0005, 0)));
    assert_eq!(r.mixed_chunks, 1);
    assert_eq!(r.mixed_blocks, 1);
}

#[test]
fn empty_chunk_distances_count_only_when_asked() {
    let mut gpu = gpu_world();
    gpu.chunks[2] = 0x0000_0002;
    let r = first_semantic_mismatch(&cpu_world(), &gpu, 3);
    assert_eq!(r.mismatch, Some(finding(FindingKind::ChunkValue, 2, 0, 0, 1, 2)));
    assert_eq!(tally_semantic_mismatches(&cpu_world(), &gpu, 3, false).total, 0);
    let t = tally_semantic_mismatches(&cpu_world(), &gpu, 3, true);
    assert_eq!(t.total, 1);
    assert_eq!(t.first_chunk, Some(finding(FindingKind::ChunkValue, 2, 0, 0, 1, 2)));
    // A value mismatch does not set the first-mismatch chunk.
    assert_eq!(t.first_mismatch_chunk, None);
}

#[test]
fn tally_counts_block_and_chunk_findings_in_walk_order() {
    let mut gpu = gpu_world();
    gpu.blocks[65] = 0x4000_0004; // block 1 of chunk 0: another type
    gpu.blocks[66] = 0x4000_0001; // block 2 of chunk 0: uniform instead of empty
    gpu.chunks[1] = 0x4000_0006; // chunk 1: another type
    let t = tally_semantic_mismatches(&cpu_world(), &gpu, 3, true);
    assert_eq!(t.total, 3);
    assert_eq!(t.first_block, Some(finding(FindingKind::BlockValue, 0, 1, 0, 0x4000_0003, 0x4000_0004)));
    assert_eq!(t.first_chunk, Some(finding(FindingKind::ChunkValue, 1, 0, 0, 0x4000_0005, 0x4000_0006)));
    assert_eq!(t.voxel, None);
    // Only a kind or voxel mismatch that is the first of its level sets the
    // first-mismatch chunk; here the first block finding is a value mismatch.
    assert_eq!(t.first_mismatch_chunk, None);
    let r = first_semantic_mismatch(&cpu_world(), &gpu, 3);
    assert_eq!(r.mismatch, Some(finding(FindingKind::BlockValue, 0, 1, 0, 0x4000_0003, 0x4000_0004)));
    assert_eq!(r.mixed_blocks, 1);
}

#[test]
fn tally_stops_at_the_first_voxel_difference() {
    let mut gpu = gpu_world();
    gpu.voxels[32 + 3] = 0;
    gpu.chunks[1] = 0; // never reached
    let t = tally_semantic_mismatches(&cpu_world(), &gpu, 3, true);
    assert_eq!(t.total, 1);
    assert_eq!(t.voxel, Some(finding(FindingKind::Voxel, 0, 0, 3, 0x8001, 0)));
    assert_eq!(t.first_chunk, None);
    assert_eq!(t.first_mismatch_chunk, Some(0));
}

#[test]
fn chunk_kind_mismatch_sets_first_mismatch_chunk() {
    let mut gpu = gpu_world();
    gpu.chunks[1] = 0x8000_0000;
    let t = tally_semantic_mismatches(&cpu_world(), &gpu, 3, false);
    assert_eq!(t.total, 1);
    assert_eq!(t.first_mismatch_chunk, Some(1));
    assert_eq!(t.first_chunk.map(|f| f.kind), Some(FindingKind::ChunkKind));
}

#[test]
fn pointers_past_the_end_read_as_zero() {
    let mut gpu = gpu_world();
    gpu.chunks[0] = 0x8000_1000; // blocks past the end: all empty
    let r = first_semantic_mismatch(&cpu_world(), &gpu, 3);
    assert_eq!(r.mismatch, Some(finding(FindingKind::BlockKind, 0, 0, 0, 0x8000_0000, 0)));
    assert_eq!(r.mixed_blocks, 0);
}

#[test]
fn raw_first_difference_over_the_common_range() {
    assert_eq!(first_difference(&[1, 2, 3], &[1, 5, 3]), Some(1));
    assert_eq!(first_difference(&[1, 2], &[1, 2, 3]), None);
    assert_eq!(first_difference(&[], &[1]), None);
    assert_eq!(count_differences(&[1, 2, 3, 4], &[0, 2, 0]), 2);
    assert_eq!(count_differences(&[1, 2], &[1, 2]), 0);
}

#[test]
fn raw_first_difference_after_the_seed() {
    let cpu = cpu_world();
    let gpu = gpu_world();
    // Offsets hold for the voxels (+32) but not for the pointer words.
    assert_eq!(first_difference_at(&cpu.voxels, &gpu.voxels, 32), None);
    assert_eq!(first_difference_at(&cpu.blocks, &gpu.blocks, 64), Some(0));
    assert_eq!(first_difference_at(&[7, 8], &[0, 0, 7, 9], 2), Some(1));
    // Past the end of the GPU buffer the words read as zero.
    assert_eq!(first_difference_at(&[7, 8, 0], &[0, 0, 7, 8], 2), None);
    assert_eq!(first_difference_at(&[7, 8, 1], &[0, 0, 7, 8], 2), Some(2));
}

#[test]
fn segment_word_location() {
    let p = locate_segment_word(2048 * 5 + 64 + 3, [2, 2, 2]);
    assert_eq!(p.group, [1, 0, 1]);
    assert_eq!(p.local_index, 2);
    assert_eq!(p.pair_i, 3);
    let q = locate_segment_word(2047, [4, 4, 4]);
    assert_eq!(q.group, [0, 0, 0]);
    assert_eq!(q.local_index, 63);
    assert_eq!(q.pair_i, 31);
}

#[test]
fn shifted_oracle_matches_a_gpu_build() {
    let oracle = cpu_world();
    let gpu = gpu_world();
    let gpu_chunks: Vec<u32> = gpu.chunks.clone();
    assert_eq!(
        compare_with_shifted_oracle(&oracle, &gpu_chunks, &gpu.blocks, &gpu.voxels),
        Ok(4 * (3 + 64 + 32))
    );
}

#[test]
fn shifted_oracle_reports_the_first_difference() {
    let oracle = cpu_world();
    let mut gpu = gpu_world();
    gpu.voxels[32 + 3] = 0;
    gpu.blocks[65] = 0x4000_0004;
    assert_eq!(
        compare_with_shifted_oracle(&oracle, &gpu.chunks, &gpu.blocks, &gpu.voxels),
        Err(OracleMismatch::Block { index: 65, gpu: 0x4000_0004, expected: 0x4000_0003 })
    );
    gpu.blocks[65] = 0x4000_0003;
    assert_eq!(
        compare_with_shifted_oracle(&oracle, &gpu.chunks, &gpu.blocks, &gpu.voxels),
        Err(OracleMismatch::Voxel { index: 35, gpu: 0, oracle: 0x8001 })
    );
    gpu.chunks[0] = 0x8000_0000;
    assert_eq!(
        compare_with_shifted_oracle(&oracle, &gpu.chunks, &gpu.blocks, &gpu.voxels),
        Err(OracleMismatch::Chunk { index: 0, gpu: 0x8000_0000, expected: 0x8000_0040 })
    );
    // Only the chunk words read back are compared.
    assert_eq!(
        compare_with_shifted_oracle(&oracle, &gpu.chunks[1..1], &gpu_world().blocks, &gpu_world().voxels),
        Ok(4 * (64 + 32))
    );
}

#[test]
fn both_walks_agree_on_whether_worlds_differ() {
    let cpu = cpu_world();
    let mut variants = vec![gpu_world()];
    let mut v = gpu_world();
    v.voxels[35] = 7;
    variants.push(v);
    let mut v = gpu_world();
    v.chunks[2] = 9;
    variants.push(v);
    let mut v = gpu_world();
    v.blocks[70] = 0x4000_0001;
    v.chunks[1] = 0;
    variants.push(v);
    for gpu in &variants {
        let first = first_semantic_mismatch(&cpu, gpu, 3);
        let t = tally_semantic_mismatches(&cpu, gpu, 3, true);
        assert_eq!(first.mismatch.is_none(), t.total == 0);
        if let Some(f) = first.mismatch {
            let record = match f.kind {
                FindingKind::ChunkKind | FindingKind::ChunkValue => t.first_chunk,
                FindingKind::BlockKind | FindingKind::BlockValue => t.first_block,
                FindingKind::Voxel => t.voxel,
            };
            assert_eq!(record, Some(f));
        }
    }
}

#[test]
fn shifting_keeps_the_cell_and_moves_the_pointer() {
    let oracle = CellBuffers {
        chunks: vec![0x8000_0010, 0x4000_0003, 0x0000_0005],
        blocks: vec![0x8000_0008, 0x4000_0002, 0x0000_0007],
        voxels: vec![],
    };
    let mut gpu_blocks = vec![0u32; 64];
    gpu_blocks.extend_from_slice(&[0x8000_0028, 0x4000_0002, 0x0000_0007]);
    let gpu_chunks = [0x8000_0050, 0x4000_0003, 0x0000_0005];
    assert_eq!(
        compare_with_shifted_oracle(&oracle, &gpu_chunks, &gpu_blocks, &[0u32; 32]),
        Ok(4 * (3 + 3))
    );
}
