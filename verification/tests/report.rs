use naadf::fixture::FixtureMode;
use naadf::readback::{CheckpointComparison, VoxelReadback};
use naadf::report::{
    push_fixture_heading, push_fixture_outcome, push_generator_diff, push_generator_heading,
    push_multiseg_heading, push_scaled_section, push_scaled_title, push_tiled_heading,
    push_tiled_outcome, push_verdict_section, ScaledSection, push_changed_sample, push_pattern_summary,
};

#[test]
fn fixture_headings_list_sizes_and_modes() {
    let mut r = String::new();
    push_fixture_heading(&mut r, "2x1x2-uniform", [2, 1, 2], FixtureMode::Uniform);
    push_multiseg_heading(&mut r, "64x16x64-seg16-mixed", [64, 16, 64], 16, FixtureMode::Mixed);
    push_generator_heading(&mut r, "model-1x1x1-seg-1x1x1", [1, 1, 1], [1, 1, 1], [0, 0, 0]);
    push_tiled_heading(&mut r, "model-2x1x2_world-4x1x4", [2, 1, 2], [4, 1, 4]);
    assert_eq!(
        r,
        "--- fixture 2x1x2-uniform: [2, 1, 2] chunks, mode=Uniform (single-dispatch) ---\n\
         --- fixture 64x16x64-seg16-mixed: [64, 16, 64] chunks, seg=16, mode=Mixed (multi-segment) ---\n\
         --- gen fixture model-1x1x1-seg-1x1x1: model=[1, 1, 1] seg=[1, 1, 1] off=[0, 0, 0] ---\n\
         --- tiled fixture model-2x1x2_world-4x1x4: model=[2, 1, 2] world=[4, 1, 4] ---\n"
    );
}

#[test]
fn the_heading_matches_the_debug_layout() {
    let mut r = String::new();
    push_fixture_heading(&mut r, "32x2x32-diverse", [32, 2, 32], FixtureMode::Diverse);
    let expected = format!(
        "--- fixture 32x2x32-diverse: {:?} chunks, mode={:?} (single-dispatch) ---\n",
        [32u32, 2, 32],
        FixtureMode::Diverse
    );
    assert_eq!(r, expected);
}

#[test]
fn a_failed_fixture_is_reported_with_its_error() {
    let mut r = String::from("head\n");
    push_fixture_outcome(&mut r, &Ok("all equal".to_string()));
    push_fixture_outcome(&mut r, &Err("no adapter".to_string()));
    assert_eq!(r, "head\nall equal\nFIXTURE FAILED: no adapter\n\n");
}

#[test]
fn a_failed_tiled_run_is_reported_with_its_error() {
    let mut r = String::new();
    push_tiled_outcome(&mut r, &Ok("tiles equal".to_string()));
    push_tiled_outcome(&mut r, &Err("timeout".to_string()));
    assert_eq!(r, "tiles equal\nFAILED: timeout\n\n");
}

#[test]
fn the_scaled_report_titles_its_sections() {
    let mut r = String::new();
    push_scaled_title(&mut r);
    push_scaled_section(&mut r, ScaledSection::Generator);
    push_scaled_section(&mut r, ScaledSection::Tiled);
    push_scaled_section(&mut r, ScaledSection::Oasis);
    assert_eq!(
        r,
        "=== vox-gpu-rewrite scaled byte-diff diagnostic ===\n\n\
         \n=== Generator_model.wgsl GPU vs CPU oracle byte-diff ===\n\
         \n=== Tiled ModelData (small model, large world) generator+chunk_calc byte-diff ===\n\
         \n=== Real Oasis ModelData + per-segment generator+chunk_calc byte-diff ===\n"
    );
}

#[test]
fn a_diverging_generator_word_is_reported_with_its_xor() {
    let mut r = String::new();
    push_generator_diff(&mut r, Some((1234, 0x8042_0000, 0x0042_0001)));
    push_generator_diff(&mut r, None);
    assert_eq!(
        r,
        "  GENERATOR DIVERGED @ u32[1234]: cpu=0x80420000 gpu=0x00420001 XOR=0x80000001\n\
         \x20 generator: byte-equal ({} u32s)\n"
    );
    let expected = format!(
        "  GENERATOR DIVERGED @ u32[{i}]: cpu={a:#010x} gpu={b:#010x} XOR={xor:#010x}\n",
        i = 7,
        a = 0xFu32,
        b = 0x10u32,
        xor = 0x1Fu32
    );
    let mut r2 = String::new();
    push_generator_diff(&mut r2, Some((7, 0xF, 0x10)));
    assert_eq!(r2, expected);
}

#[test]
fn the_verdict_section_counts_and_concludes() {
    let mut r = String::new();
    push_verdict_section(&mut r, 0, 0, 25);
    assert_eq!(
        r,
        "\n=== Verdict ===\n  Post-producer mismatches: 0 of 25\n  Post-bounds mismatches: 0 of 25\n\
         \x20 → voxels[] is byte-correct post-full-pipeline at every sampled position.\n\
         → Bug must be in the RENDERER's decode path (or elsewhere outside the producer/bounds chain).\n"
    );
    let mut r = String::new();
    push_verdict_section(&mut r, 0, 3, 25);
    assert!(r.ends_with("  Post-bounds mismatches: 3 of 25\n  → voxels[] was correct after the producer, but DIVERGED after bounds-calc ran.\n→ Bug is in `compute_voxel_bounds` / `compute_block_bounds` writeback.\n"));
    let mut r = String::new();
    push_verdict_section(&mut r, 2, 3, 25);
    assert!(r.contains("ALREADY corrupted after the producer (Stage 6 gap)"));
    let mut r = String::new();
    push_verdict_section(&mut r, 2, 0, 25);
    assert!(r.ends_with("  Post-bounds mismatches: 0 of 25\n  → voxels[] is byte-correct post-full-pipeline at every sampled position.\n→ Bug must be in the RENDERER's decode path (or elsewhere outside the producer/bounds chain).\n"));
}

#[test]
fn a_changed_sample_lists_its_words_before_and_after() {
    let a = VoxelReadback { gpu_chunk_u32: 0x8000_0040, gpu_block_u32: 0x8000_0020, gpu_voxel_pair_u32: 0, gpu_voxel_halfword: 0x8042, kind: 5 };
    let b = VoxelReadback { gpu_chunk_u32: 0x8000_0040, gpu_block_u32: 0, gpu_voxel_pair_u32: 0, gpu_voxel_halfword: 0, kind: 2 };
    let mut r = String::new();
    push_changed_sample(&mut r, [21, 22, 7], &a, &b);
    let expected = format!(
        "  pos=({},{},{}): A→B CHANGED  | chunk {:#010x}→{:#010x}  block {:#010x}→{:#010x}  voxel-half {:#06x}→{:#06x}\n",
        21, 22, 7, a.gpu_chunk_u32, b.gpu_chunk_u32, a.gpu_block_u32, b.gpu_block_u32, a.gpu_voxel_halfword, b.gpu_voxel_halfword,
    );
    assert_eq!(r, expected);
    assert_eq!(r, "  pos=(21,22,7): A→B CHANGED  | chunk 0x80000040→0x80000040  block 0x80000020→0x00000000  voxel-half 0x8042→0x0000\n");
}

#[test]
fn the_pattern_summary_gives_every_count() {
    let c = CheckpointComparison { changed: 2, both_match: 20, both_mismatch: 1, match_to_mismatch: 3, mismatch_to_match: 1 };
    let mut r = String::new();
    push_pattern_summary(&mut r, &c, 25);
    assert_eq!(r, "  Summary: A→B changed in 2 of 25 positions; both-match=20 both-mismatch=1 match→mismatch=3 mismatch→match=1\n");
}
