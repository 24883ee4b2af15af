//! Per-frame counters of the temporal passes: the TAA history slot, the GI
//! accumulation slot, the two RNG salts, and the 8×8 bucket grid.

use vstd::prelude::*;

verus! {

/// Depth of the camera-history ring.
pub const CAMERA_HISTORY_DEPTH: usize = 128;

/// A pair of `u32`s: a viewport or grid size in x and y.
#[derive(Clone, Copy, Debug, PartialEq, Eq, Structural)]
pub struct UVec2 {
    /// Extent along x.
    pub x: u32,
    /// Extent along y.
    pub y: u32,
}

impl UVec2 {
    /// The pair `(x, y)`.
    pub fn new(x: u32, y: u32) -> (v: UVec2)
        ensures
            v.x == x,
            v.y == y,
    {
        UVec2 { x, y }
    }
}

/// The slot `max_accum - (frame_count % max_accum) - 1` of a descending ring
/// of `max_accum` slots.
pub open spec fn spec_accum_index(frame_count: u32, max_accum: u32) -> int {
    max_accum - (frame_count % max_accum) - 1
}

/// The camera-history slot of a frame.
pub open spec fn spec_taa_index(frame_count: u32) -> int {
    CAMERA_HISTORY_DEPTH - (frame_count % (CAMERA_HISTORY_DEPTH as u32)) - 1
}

/// The GI accumulation-ring slot for a frame:
/// `max_accum - (frame_count % max_accum) - 1`, a descending index that wraps
/// every `max_accum` frames.
pub fn accum_index_of(frame_count: u32, max_accum: u32) -> (i: u32)
    requires
        max_accum > 0,
    ensures
        i == spec_accum_index(frame_count, max_accum),
{
    max_accum - (frame_count % max_accum) - 1
}

/// The two per-frame RNG salts: the frame counter itself, and the counter
/// xor-ed with the golden-ratio constant `0x9E37_79B9`.
pub fn rand_salts_of(frame_count: u32) -> (salts: (u32, u32))
    ensures
        salts.0 == frame_count,
        salts.1 == frame_count ^ 0x9E37_79B9,
{
    (frame_count, frame_count ^ 0x9E37_79B9)
}

/// The 8×8 bucket grid of a viewport: its size in buckets, `ceil(viewport /
/// 8)` per axis, and its bucket count.
pub fn bucket_grid_of(viewport: UVec2) -> (grid: (UVec2, u32))
    requires
        viewport.x + 7 <= u32::MAX,
        viewport.y + 7 <= u32::MAX,
        ((viewport.x + 7) / 8) * ((viewport.y + 7) / 8) <= u32::MAX,
    ensures
        grid.0.x == (viewport.x + 7) / 8,
        grid.0.y == (viewport.y + 7) / 8,
        grid.1 == grid.0.x * grid.0.y,
{
    let bucket_size = UVec2 { x: (viewport.x + 7) / 8, y: (viewport.y + 7) / 8 };
    let bucket_count = bucket_size.x * bucket_size.y;
    (bucket_size, bucket_count)
}

/// The camera-history ring slot for a frame:
/// `CAMERA_HISTORY_DEPTH - (frame_count % CAMERA_HISTORY_DEPTH) - 1`.
pub fn taa_index_of(frame_count: u32) -> (i: u32)
    ensures
        i == spec_taa_index(frame_count),
{
    (CAMERA_HISTORY_DEPTH as u32) - (frame_count % CAMERA_HISTORY_DEPTH as u32) - 1
}

/// The camera-history slot and the GI accumulation slot follow one formula:
/// with a 128-deep accumulation ring they name the same slot every frame.
pub proof fn lemma_taa_index_is_accum_index(frame_count: u32)
    ensures
        spec_taa_index(frame_count) == spec_accum_index(frame_count, CAMERA_HISTORY_DEPTH as u32),
{
}

/// The accumulation slot lies in the ring and walks it downward, one slot per
/// frame, wrapping from 0 back to `max_accum - 1`.
pub proof fn lemma_accum_index_walks_ring(frame_count: u32, max_accum: u32)
    requires
        max_accum > 0,
        frame_count < u32::MAX,
    ensures
        0 <= spec_accum_index(frame_count, max_accum) < max_accum,
        spec_accum_index((frame_count + 1) as u32, max_accum) == if spec_accum_index(frame_count, max_accum) == 0 {
            max_accum - 1
        } else {
            spec_accum_index(frame_count, max_accum) - 1
        },
{
    let f = frame_count as int;
    let m = max_accum as int;
    vstd::arithmetic::div_mod::lemma_fundamental_div_mod(f, m);
    vstd::arithmetic::div_mod::lemma_mod_pos_bound(f, m);
    let q = f / m;
    let r = f % m;
    assert(f == q * m + r) by (nonlinear_arith)
        requires
            f == m * q + r,
    ;
    if r == m - 1 {
        assert(f + 1 == (q + 1) * m + 0) by (nonlinear_arith)
            requires
                f == q * m + r,
                r == m - 1,
        ;
        vstd::arithmetic::div_mod::lemma_fundamental_div_mod_converse(f + 1, m, q + 1, 0);
    } else {
        vstd::arithmetic::div_mod::lemma_fundamental_div_mod_converse(f + 1, m, q, r + 1);
    }
}

/// The two salts of a frame never collide, and different frames get different
/// salts.
pub proof fn lemma_rand_salts_distinct(frame_a: u32, frame_b: u32)
    ensures
        frame_a != frame_a ^ 0x9E37_79B9,
        frame_a != frame_b ==> (frame_a ^ 0x9E37_79B9) != (frame_b ^ 0x9E37_79B9),
{
    assert(frame_a != frame_a ^ 0x9E37_79B9 && (frame_a != frame_b ==> (frame_a ^ 0x9E37_79B9) != (frame_b
        ^ 0x9E37_79B9))) by (bit_vector);
}

/// The bucket grid covers the viewport with whole 8×8 buckets and no spare
/// row or column: `8 * (n - 1) < v <= 8 * n` on each axis of a non-empty
/// viewport.
pub proof fn lemma_bucket_grid_covers(v: u32)
    requires
        v + 7 <= u32::MAX,
    ensures
        v <= 8 * ((v + 7) / 8),
        v > 0 ==> 8 * ((v + 7) / 8 - 1) < v,
        v == 0 ==> (v + 7) / 8 == 0,
{
}

} // verus!
