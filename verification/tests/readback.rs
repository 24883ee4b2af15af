use naadf::segment::build_segment_voxel_buffer_for_region;
use naadf::volume::DenseVolume;
use naadf::voxel::{voxel_cell, VoxelTypeId};
use naadf::readback::{
    compare_checkpoints, count_full_cells, count_mismatches, finish_voxel, kind_name,
    oracle_half_in_chunk_segment, production_verdict, render_results_table, sample_chunk_index,
    step_after_block, step_after_chunk, ProductionVerdict, ReadbackStep, VoxelReadback,
};

fn done(step: ReadbackStep) -> VoxelReadback {
    match step {
        ReadbackStep::Done(r) => r,
        other => panic!("walk did not end: {other:?}"),
    }
}

fn readback(kind: u8, chunk: u32, block: u32, half: u16) -> VoxelReadback {
    VoxelReadback {
        gpu_chunk_u32: chunk,
        gpu_block_u32: block,
        gpu_voxel_pair_u32: half as u32,
        gpu_voxel_halfword: half,
        kind,
    }
}

#[test]
fn chunk_index_of_a_sample() {
    assert_eq!(sample_chunk_index([20, 40, 70], [4, 4, 4]), 1 + 2 * 4 + 4 * 16);
    assert_eq!(sample_chunk_index([15, 15, 15], [4, 4, 4]), 0);
}

#[test]
fn walk_stops_at_empty_and_uniform_chunks() {
    let e = done(step_after_chunk([1, 2, 3], 0x0000_1234));
    assert_eq!(e.kind, 0);
    assert_eq!(e.gpu_chunk_u32, 0x0000_1234);
    let u = done(step_after_chunk([1, 2, 3], 0x4000_0007));
    assert_eq!(u.kind, 1);
    assert_eq!((u.gpu_block_u32, u.gpu_voxel_pair_u32, u.gpu_voxel_halfword), (0, 0, 0));
}

#[test]
fn walk_follows_mixed_pointers_to_the_voxel() {
    let pos = [5, 6, 7];
    // Block (1,1,1) of the chunk: index 21.
    assert_eq!(step_after_chunk(pos, 0x8000_0100), ReadbackStep::ReadBlock(0x100 + 21));
    // Voxel (1,2,3) of the block: index 57, pair 28.
    assert_eq!(step_after_block(pos, 0x8000_0100, 0x8000_0200), ReadbackStep::ReadVoxel(0x200 + 28));
    let b = done(step_after_block(pos, 0x8000_0100, 0x4000_0003));
    assert_eq!(b.kind, 3);
    let e = done(step_after_block(pos, 0x8000_0100, 0x0000_0003));
    assert_eq!(e.kind, 2);
    // Odd voxel index: the high half.
    let v = finish_voxel(pos, 0x8000_0100, 0x8000_0200, 0x8009_0003);
    assert_eq!(v.gpu_voxel_halfword, 0x8009);
    assert_eq!(v.kind, 5);
    // Even voxel index (4,6,7) → (0,2,3) = 56: the low half.
    let w = finish_voxel([4, 6, 7], 0x8000_0100, 0x8000_0200, 0x8009_0003);
    assert_eq!(w.gpu_voxel_halfword, 0x0003);
    assert_eq!(w.kind, 4);
}

#[test]
fn oracle_match_rules() {
    assert!(readback(0, 0, 0, 0).matches_oracle(0x0000));
    assert!(readback(2, 0, 0, 0).matches_oracle(0x0005));
    assert!(readback(4, 0, 0, 0x0009).matches_oracle(0x0000));
    assert!(!readback(5, 0, 0, 0x8009).matches_oracle(0x0000));
    assert!(readback(5, 0, 0, 0x8009).matches_oracle(0x8009));
    assert!(!readback(5, 0, 0, 0x8009).matches_oracle(0x8008));
    assert!(readback(1, 0x4000_0009, 0, 0).matches_oracle(0x8009));
    assert!(readback(3, 0x8000_0000, 0x4000_0009, 0).matches_oracle(0x8009));
    assert!(!readback(3, 0x8000_0000, 0x4000_0008, 0).matches_oracle(0x8009));
    assert!(!readback(0, 0, 0, 0).matches_oracle(0x8009));
    assert!(!readback(7, 0, 0, 0).matches_oracle(0x8009));
}

#[test]
fn oracle_half_of_a_sample_in_its_chunk_segment() {
    let mut seg = vec![0u32; 2048];
    // Sample (5,6,7): block 21, voxel 57 → pair 21*32 + 28, high half.
    seg[21 * 32 + 28] = 0x8009_0000;
    assert_eq!(oracle_half_in_chunk_segment(&seg, [5, 6, 7]), 0x8009);
    assert_eq!(oracle_half_in_chunk_segment(&seg, [16 + 5, 32 + 6, 7]), 0x8009);
    assert_eq!(oracle_half_in_chunk_segment(&seg, [4, 6, 7]), 0);
}

#[test]
fn counts_of_full_cells_and_mismatches() {
    let oracle = [0x8001u16, 0x0000, 0x8002, 0x0003];
    assert_eq!(count_full_cells(&oracle), 2);
    assert_eq!(count_full_cells(&[]), 0);
    let results = [
        readback(5, 0, 0, 0x8001),
        readback(5, 0, 0, 0x8001),
        readback(1, 0x4000_0002, 0, 0),
        readback(0, 0, 0, 0),
    ];
    assert_eq!(count_mismatches(&oracle, &results), 1);
}

#[test]
fn checkpoint_comparison_buckets_each_sample() {
    let oracle = [0x8001u16, 0x8001, 0x8001, 0x8001];
    let good = readback(5, 1, 1, 0x8001);
    let bad = readback(5, 1, 1, 0x8002);
    let a = [good, good, bad, bad];
    let b = [good, bad, good, bad];
    let c = compare_checkpoints(&oracle, &a, &b);
    assert_eq!(c.changed, 2);
    assert_eq!(c.both_match, 1);
    assert_eq!(c.match_to_mismatch, 1);
    assert_eq!(c.mismatch_to_match, 1);
    assert_eq!(c.both_mismatch, 1);
    assert_eq!(c.both_match + c.both_mismatch + c.match_to_mismatch + c.mismatch_to_match, oracle.len());
}

#[test]
fn production_verdicts() {
    assert_eq!(production_verdict(0, 0), ProductionVerdict::ByteCorrect);
    assert_eq!(production_verdict(5, 0), ProductionVerdict::ByteCorrect);
    assert_eq!(production_verdict(0, 3), ProductionVerdict::DivergedAfterBounds);
    assert_eq!(production_verdict(2, 3), ProductionVerdict::CorruptedByProducer);
}

#[test]
fn kind_names() {
    assert_eq!(kind_name(0), "EMPTY-CHUNK");
    assert_eq!(kind_name(3), "MIXED-CHUNK / UNIFORM-FULL-BLOCK");
    assert_eq!(kind_name(5), "MIXED-CHUNK / MIXED-BLOCK / FULL-VOXEL");
    assert_eq!(kind_name(9), "?");
}

#[test]
fn results_table_has_a_header_and_one_row_per_sample() {
    let positions = [[5u32, 6, 7], [100, 20, 1000]];
    let oracle = [0x8009u16, 0x0000];
    let results = [
        VoxelReadback {
            gpu_chunk_u32: 0x8000_0100,
            gpu_block_u32: 0x8000_0200,
            gpu_voxel_pair_u32: 0x8009_0003,
            gpu_voxel_halfword: 0x8009,
            kind: 5,
        },
        readback(1, 0x4000_0002, 0, 0),
    ];
    let s = render_results_table("post-bounds", &positions, &oracle, &results);
    assert!(s.starts_with("\n[post-bounds table — voxel position | oracle half |"));
    let lines: Vec<&str> = s.lines().collect();
    assert_eq!(lines.len(), 4);
    assert_eq!(
        lines[2],
        "  (   5,  6,   7) | oracle=0x8009 FULL  (type=0x0009) | chunk=0x80000100 | block=0x80000200 | vpair=0x80090003 | vhalf=0x8009 (type=0x0009) | MIXED-CHUNK / MIXED-BLOCK / FULL-VOXEL | XOR-half=0x0000 | MATCH"
    );
    assert!(lines[3].starts_with("  ( 100, 20,1000) | oracle=0x0000 EMPTY (type=0x0000)"));
    assert!(lines[3].ends_with("| UNIFORM-FULL-CHUNK | XOR-half=0x0000 | MISMATCH"));
}

#[test]
fn oracle_half_of_a_chunk_segment_is_the_voxel_cell() {
    let mut v = DenseVolume::empty([2, 2, 1]);
    v.set([21, 22, 7], VoxelTypeId(0x42));
    for pos in [[21u32, 22, 7], [20, 22, 7], [3, 3, 3]] {
        let seg = build_segment_voxel_buffer_for_region(&v, [pos[0] / 16, pos[1] / 16, pos[2] / 16], 1);
        assert_eq!(oracle_half_in_chunk_segment(&seg, pos), voxel_cell(v.voxel_at(pos)));
    }
}
