//! The text of the scaled byte-diff report: the heading of each fixture run
//! and how the run's outcome is written below it.

use vstd::prelude::*;

use crate::fixture::FixtureMode;
use crate::readback::{spec_production_verdict, CheckpointComparison, ProductionVerdict, VoxelReadback};
use crate::text::{decimal_digits, hex_field, push_decimal, push_hex_field};

verus! {

/// A size or offset as a list: `[x, y, z]` in decimal.
pub open spec fn dims_text(d: [u32; 3]) -> Seq<char> {
    "["@ + decimal_digits(d[0] as nat) + ", "@ + decimal_digits(d[1] as nat) + ", "@ + decimal_digits(
        d[2] as nat,
    ) + "]"@
}

/// The name of a fixture mode.
pub open spec fn mode_name(mode: FixtureMode) -> Seq<char> {
    match mode {
        FixtureMode::Uniform => "Uniform"@,
        FixtureMode::Diverse => "Diverse"@,
        FixtureMode::Mixed => "Mixed"@,
    }
}

/// The heading of a single-dispatch fixture run.
pub open spec fn fixture_heading(label: Seq<char>, dims: [u32; 3], mode: FixtureMode) -> Seq<char> {
    "--- fixture "@ + label + ": "@ + dims_text(dims) + " chunks, mode="@ + mode_name(mode)
        + " (single-dispatch) ---\n"@
}

/// The heading of a multi-segment fixture run.
pub open spec fn multiseg_heading(label: Seq<char>, dims: [u32; 3], seg_size: u32, mode: FixtureMode) -> Seq<
    char,
> {
    "--- fixture "@ + label + ": "@ + dims_text(dims) + " chunks, seg="@ + decimal_digits(seg_size as nat)
        + ", mode="@ + mode_name(mode) + " (multi-segment) ---\n"@
}

/// The heading of a generator fixture run.
pub open spec fn generator_heading(label: Seq<char>, model: [u32; 3], seg: [u32; 3], off: [u32; 3]) -> Seq<
    char,
> {
    "--- gen fixture "@ + label + ": model="@ + dims_text(model) + " seg="@ + dims_text(seg) + " off="@
        + dims_text(off) + " ---\n"@
}

/// The heading of a tiled fixture run.
pub open spec fn tiled_heading(label: Seq<char>, model: [u32; 3], world: [u32; 3]) -> Seq<char> {
    "--- tiled fixture "@ + label + ": model="@ + dims_text(model) + " world="@ + dims_text(world)
        + " ---\n"@
}

/// What a fixture run adds below its heading: its report and a blank line,
/// or `FIXTURE FAILED: ` and the error, then a blank line.
pub open spec fn fixture_outcome_text(outcome: Result<String, String>) -> Seq<char> {
    match outcome {
        Ok(s) => s@ + "\n"@,
        Err(e) => "FIXTURE FAILED: "@ + e@ + "\n\n"@,
    }
}

/// What a tiled run adds below its heading: its report, or `FAILED: ` and
/// the error and a newline; then a newline either way.
pub open spec fn tiled_outcome_text(outcome: Result<String, String>) -> Seq<char> {
    match outcome {
        Ok(s) => s@ + "\n"@,
        Err(e) => "FAILED: "@ + e@ + "\n"@ + "\n"@,
    }
}

fn push_dims(report: &mut String, d: [u32; 3])
    ensures
        final(report)@ == old(report)@ + dims_text(d),
{
    let ghost start = report@;
    report.append("[");
    push_decimal(report, d[0] as u64);
    report.append(", ");
    push_decimal(report, d[1] as u64);
    report.append(", ");
    push_decimal(report, d[2] as u64);
    report.append("]");
    proof {
        assert(report@ =~= start + dims_text(d));
    }
}

fn mode_str(mode: FixtureMode) -> (s: &'static str)
    ensures
        s@ == mode_name(mode),
{
    match mode {
        FixtureMode::Uniform => "Uniform",
        FixtureMode::Diverse => "Diverse",
        FixtureMode::Mixed => "Mixed",
    }
}

/// Append the heading of a single-dispatch fixture run.
pub fn push_fixture_heading(report: &mut String, label: &str, dims: [u32; 3], mode: FixtureMode)
    ensures
        final(report)@ == old(report)@ + fixture_heading(label@, dims, mode),
{
    let ghost start = report@;
    report.append("--- fixture ");
    report.append(label);
    report.append(": ");
    push_dims(report, dims);
    report.append(" chunks, mode=");
    report.append(mode_str(mode));
    report.append(" (single-dispatch) ---\n");
    proof {
        assert(report@ =~= start + fixture_heading(label@, dims, mode));
    }
}

/// Append the heading of a multi-segment fixture run.
pub fn push_multiseg_heading(report: &mut String, label: &str, dims: [u32; 3], seg_size: u32, mode: FixtureMode)
    ensures
        final(report)@ == old(report)@ + multiseg_heading(label@, dims, seg_size, mode),
{
    let ghost start = report@;
    report.append("--- fixture ");
    report.append(label);
    report.append(": ");
    push_dims(report, dims);
    report.append(" chunks, seg=");
    push_decimal(report, seg_size as u64);
    report.append(", mode=");
    report.append(mode_str(mode));
    report.append(" (multi-segment) ---\n");
    proof {
        assert(report@ =~= start + multiseg_heading(label@, dims, seg_size, mode));
    }
}

/// Append the heading of a generator fixture run.
pub fn push_generator_heading(report: &mut String, label: &str, model: [u32; 3], seg: [u32; 3], off: [u32; 3])
    ensures
        final(report)@ == old(report)@ + generator_heading(label@, model, seg, off),
{
    let ghost start = report@;
    report.append("--- gen fixture ");
    report.append(label);
    report.append(": model=");
    push_dims(report, model);
    report.append(" seg=");
    push_dims(report, seg);
    report.append(" off=");
    push_dims(report, off);
    report.append(" ---\n");
    proof {
        assert(report@ =~= start + generator_heading(label@, model, seg, off));
    }
}

/// Append the heading of a tiled fixture run.
pub fn push_tiled_heading(report: &mut String, label: &str, model: [u32; 3], world: [u32; 3])
    ensures
        final(report)@ == old(report)@ + tiled_heading(label@, model, world),
{
    let ghost start = report@;
    report.append("--- tiled fixture ");
    report.append(label);
    report.append(": model=");
    push_dims(report, model);
    report.append(" world=");
    push_dims(report, world);
    report.append(" ---\n");
    proof {
        assert(report@ =~= start + tiled_heading(label@, model, world));
    }
}

/// Append what a fixture run (single-dispatch, multi-segment or generator)
/// gave.
pub fn push_fixture_outcome(report: &mut String, outcome: &Result<String, String>)
    ensures
        final(report)@ == old(report)@ + fixture_outcome_text(*outcome),
{
    let ghost start = report@;
    match outcome {
        Ok(s) => {
            report.append(s.as_str());
            report.append("\n");
        },
        Err(e) => {
            report.append("FIXTURE FAILED: ");
            report.append(e.as_str());
            report.append("\n\n");
        },
    }
    proof {
        assert(report@ =~= start + fixture_outcome_text(*outcome));
    }
}

/// Append what a tiled run gave.
pub fn push_tiled_outcome(report: &mut String, outcome: &Result<String, String>)
    ensures
        final(report)@ == old(report)@ + tiled_outcome_text(*outcome),
{
    let ghost start = report@;
    match outcome {
        Ok(s) => {
            report.append(s.as_str());
        },
        Err(e) => {
            report.append("FAILED: ");
            report.append(e.as_str());
            report.append("\n");
        },
    }
    report.append("\n");
    proof {
        assert(report@ =~= start + tiled_outcome_text(*outcome));
    }
}

/// The sections of the scaled byte-diff report, after its title and the
/// fixture sweeps.
#[derive(Clone, Copy, Debug, PartialEq, Eq, Structural)]
pub enum ScaledSection {
    /// The generator pass against its CPU oracle.
    Generator,
    /// A small model tiled across a larger world.
    Tiled,
    /// The real Oasis model, segment by segment.
    Oasis,
}

/// The title line (and blank line) the scaled byte-diff report starts with.
pub open spec fn scaled_title_text() -> Seq<char> {
    "=== vox-gpu-rewrite scaled byte-diff diagnostic ===\n\n"@
}

/// The heading of a later section of the scaled report.
pub open spec fn scaled_section_text(section: ScaledSection) -> Seq<char> {
    match section {
        ScaledSection::Generator => "\n=== Generator_model.wgsl GPU vs CPU oracle byte-diff ===\n"@,
        ScaledSection::Tiled => "\n=== Tiled ModelData (small model, large world) generator+chunk_calc byte-diff ===\n"@,
        ScaledSection::Oasis => "\n=== Real Oasis ModelData + per-segment generator+chunk_calc byte-diff ===\n"@,
    }
}

/// Append the scaled report's title.
pub fn push_scaled_title(report: &mut String)
    ensures
        final(report)@ == old(report)@ + scaled_title_text(),
{
    report.append("=== vox-gpu-rewrite scaled byte-diff diagnostic ===\n\n");
}

/// Append the heading of a later section of the scaled report.
pub fn push_scaled_section(report: &mut String, section: ScaledSection)
    ensures
        final(report)@ == old(report)@ + scaled_section_text(section),
{
    match section {
        ScaledSection::Generator => report.append("\n=== Generator_model.wgsl GPU vs CPU oracle byte-diff ===\n"),
        ScaledSection::Tiled => report.append(
            "\n=== Tiled ModelData (small model, large world) generator+chunk_calc byte-diff ===\n",
        ),
        ScaledSection::Oasis => report.append(
            "\n=== Real Oasis ModelData + per-segment generator+chunk_calc byte-diff ===\n",
        ),
    }
}

/// The line on the generator pass of an Oasis segment: where its output
/// first differs from the oracle's (word index, oracle word, GPU word and
/// their XOR, words as `0x` and 8 hex digits), or that it is byte-equal.
pub open spec fn generator_diff_text(first: Option<(u64, u32, u32)>) -> Seq<char> {
    match first {
        Some((i, a, b)) => "  GENERATOR DIVERGED @ u32["@ + decimal_digits(i as nat) + "]: cpu="@ + hex_field(a, 8)
            + " gpu="@ + hex_field(b, 8) + " XOR="@ + hex_field(a ^ b, 8) + "\n"@,
        None => "  generator: byte-equal ({} u32s)\n"@,
    }
}

/// Append the generator line of an Oasis segment; `first` is the first
/// differing word as (index, oracle word, GPU word).
pub fn push_generator_diff(report: &mut String, first: Option<(u64, u32, u32)>)
    ensures
        final(report)@ == old(report)@ + generator_diff_text(first),
{
    let ghost start = report@;
    match first {
        Some((i, a, b)) => {
            report.append("  GENERATOR DIVERGED @ u32[");
            push_decimal(report, i);
            report.append("]: cpu=");
            push_hex_field(report, a, 8);
            report.append(" gpu=");
            push_hex_field(report, b, 8);
            report.append(" XOR=");
            push_hex_field(report, a ^ b, 8);
            report.append("\n");
        },
        None => {
            report.append("  generator: byte-equal ({} u32s)\n");
        },
    }
    proof {
        assert(report@ =~= start + generator_diff_text(first));
    }
}

/// What the production-scale report concludes for each verdict.
pub open spec fn verdict_text(v: ProductionVerdict) -> Seq<char> {
    match v {
        ProductionVerdict::ByteCorrect => "  → voxels[] is byte-correct post-full-pipeline at every sampled position.\n→ Bug must be in the RENDERER's decode path (or elsewhere outside the producer/bounds chain).\n"@,
        ProductionVerdict::DivergedAfterBounds => "  → voxels[] was correct after the producer, but DIVERGED after bounds-calc ran.\n→ Bug is in `compute_voxel_bounds` / `compute_block_bounds` writeback.\n"@,
        ProductionVerdict::CorruptedByProducer => "  → voxels[] was ALREADY corrupted after the producer (Stage 6 gap).\n→ Bug is in W5 producer chain when run at full production shape (512 segments + shared hash_map).\n"@,
        ProductionVerdict::RestoredByBounds => "  → Producer broke voxels[] but bounds-calc somehow restored them?? Inspect per-position rows above.\n"@,
    }
}

/// The closing section of the production-scale report: the mismatch counts
/// after the producer (`n_mismatch_a`) and after the bounds passes
/// (`n_mismatch_b`) out of `total` samples, then the conclusion.
pub open spec fn verdict_section_text(n_mismatch_a: u64, n_mismatch_b: u64, total: u64) -> Seq<char> {
    "\n=== Verdict ===\n"@ + "  Post-producer mismatches: "@ + decimal_digits(n_mismatch_a as nat) + " of "@
        + decimal_digits(total as nat) + "\n"@ + "  Post-bounds mismatches: "@ + decimal_digits(
        n_mismatch_b as nat,
    ) + " of "@ + decimal_digits(total as nat) + "\n"@ + verdict_text(
        spec_production_verdict(n_mismatch_a as usize, n_mismatch_b as usize),
    )
}

/// Append the closing section of the production-scale report.
pub fn push_verdict_section(report: &mut String, n_mismatch_a: usize, n_mismatch_b: usize, total: usize)
    ensures
        final(report)@ == old(report)@ + verdict_section_text(n_mismatch_a as u64, n_mismatch_b as u64, total as u64),
{
    let ghost start = report@;
    report.append("\n=== Verdict ===\n");
    report.append("  Post-producer mismatches: ");
    push_decimal(report, n_mismatch_a as u64);
    report.append(" of ");
    push_decimal(report, total as u64);
    report.append("\n");
    report.append("  Post-bounds mismatches: ");
    push_decimal(report, n_mismatch_b as u64);
    report.append(" of ");
    push_decimal(report, total as u64);
    report.append("\n");
    let v = crate::readback::production_verdict(n_mismatch_a, n_mismatch_b);
    match v {
        ProductionVerdict::ByteCorrect => report.append(
            "  → voxels[] is byte-correct post-full-pipeline at every sampled position.\n→ Bug must be in the RENDERER's decode path (or elsewhere outside the producer/bounds chain).\n",
        ),
        ProductionVerdict::DivergedAfterBounds => report.append(
            "  → voxels[] was correct after the producer, but DIVERGED after bounds-calc ran.\n→ Bug is in `compute_voxel_bounds` / `compute_block_bounds` writeback.\n",
        ),
        ProductionVerdict::CorruptedByProducer => report.append(
            "  → voxels[] was ALREADY corrupted after the producer (Stage 6 gap).\n→ Bug is in W5 producer chain when run at full production shape (512 segments + shared hash_map).\n",
        ),
        ProductionVerdict::RestoredByBounds => report.append(
            "  → Producer broke voxels[] but bounds-calc somehow restored them?? Inspect per-position rows above.\n",
        ),
    }
    proof {
        assert(report@ =~= start + verdict_section_text(n_mismatch_a as u64, n_mismatch_b as u64, total as u64));
    }
}

/// The start of a changed sample's line: its position.
pub open spec fn changed_pos_text(pos: [u32; 3]) -> Seq<char> {
    "  pos=("@ + decimal_digits(pos[0] as nat) + ","@ + decimal_digits(pos[1] as nat) + ","@ + decimal_digits(
        pos[2] as nat,
    ) + "): A→B CHANGED  |"@
}

/// The rest of a changed sample's line: its chunk word, block word and
/// voxel half before and after (words as `0x` and 8 hex digits, the half as
/// `0x` and 4).
pub open spec fn changed_words_text(a: VoxelReadback, b: VoxelReadback) -> Seq<char> {
    " chunk "@ + hex_field(a.gpu_chunk_u32, 8) + "→"@ + hex_field(b.gpu_chunk_u32, 8) + "  block "@ + hex_field(
        a.gpu_block_u32,
        8,
    ) + "→"@ + hex_field(b.gpu_block_u32, 8) + "  voxel-half "@ + hex_field(a.gpu_voxel_halfword as u32, 4)
        + "→"@ + hex_field(b.gpu_voxel_halfword as u32, 4) + "\n"@
}

/// The line for a sample whose walk changed between the two checkpoints.
pub open spec fn changed_sample_text(pos: [u32; 3], a: VoxelReadback, b: VoxelReadback) -> Seq<char> {
    changed_pos_text(pos) + changed_words_text(a, b)
}

fn push_changed_pos(report: &mut String, pos: [u32; 3])
    ensures
        final(report)@ == old(report)@ + changed_pos_text(pos),
{
    let ghost start = report@;
    report.append("  pos=(");
    push_decimal(report, pos[0] as u64);
    report.append(",");
    push_decimal(report, pos[1] as u64);
    report.append(",");
    push_decimal(report, pos[2] as u64);
    report.append("): A→B CHANGED  |");
    proof {
        assert(report@ =~= start + changed_pos_text(pos));
    }
}

fn push_changed_words(report: &mut String, a: &VoxelReadback, b: &VoxelReadback)
    ensures
        final(report)@ == old(report)@ + changed_words_text(*a, *b),
{
    let ghost start = report@;
    report.append(" chunk ");
    push_hex_field(report, a.gpu_chunk_u32, 8);
    report.append("→");
    push_hex_field(report, b.gpu_chunk_u32, 8);
    report.append("  block ");
    push_hex_field(report, a.gpu_block_u32, 8);
    report.append("→");
    push_hex_field(report, b.gpu_block_u32, 8);
    report.append("  voxel-half ");
    push_hex_field(report, a.gpu_voxel_halfword as u32, 4);
    report.append("→");
    push_hex_field(report, b.gpu_voxel_halfword as u32, 4);
    report.append("\n");
    proof {
        assert(report@ =~= start + changed_words_text(*a, *b));
    }
}

/// Append the line for a sample whose walk changed between the checkpoints.
pub fn push_changed_sample(report: &mut String, pos: [u32; 3], a: &VoxelReadback, b: &VoxelReadback)
    ensures
        final(report)@ == old(report)@ + changed_sample_text(pos, *a, *b),
{
    let ghost start = report@;
    push_changed_pos(report, pos);
    push_changed_words(report, a, b);
    proof {
        assert(report@ =~= start + changed_sample_text(pos, *a, *b));
    }
}

/// The summary line of the checkpoint comparison over `total` samples.
pub open spec fn pattern_summary_text(c: CheckpointComparison, total: u64) -> Seq<char> {
    "  Summary: A→B changed in "@ + decimal_digits(c.changed as nat) + " of "@ + decimal_digits(total as nat)
        + " positions; both-match="@ + decimal_digits(c.both_match as nat) + " both-mismatch="@
        + decimal_digits(c.both_mismatch as nat) + " match→mismatch="@ + decimal_digits(
        c.match_to_mismatch as nat,
    ) + " mismatch→match="@ + decimal_digits(c.mismatch_to_match as nat) + "\n"@
}

/// Append the summary line of the checkpoint comparison.
pub fn push_pattern_summary(report: &mut String, c: &CheckpointComparison, total: usize)
    ensures
        final(report)@ == old(report)@ + pattern_summary_text(*c, total as u64),
{
    let ghost start = report@;
    report.append("  Summary: A→B changed in ");
    push_decimal(report, c.changed as u64);
    report.append(" of ");
    push_decimal(report, total as u64);
    report.append(" positions; both-match=");
    push_decimal(report, c.both_match as u64);
    report.append(" both-mismatch=");
    push_decimal(report, c.both_mismatch as u64);
    report.append(" match→mismatch=");
    push_decimal(report, c.match_to_mismatch as u64);
    report.append(" mismatch→match=");
    push_decimal(report, c.mismatch_to_match as u64);
    report.append("\n");
    proof {
        assert(report@ =~= start + pattern_summary_text(*c, total as u64));
    }
}

} // verus!
