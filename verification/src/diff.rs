//! Comparing two constructed worlds: the CPU oracle and what the GPU passes
//! wrote back.
//!
//! Pointers differ between the two builds (the GPU hands out block and voxel
//! slots in whatever order its atomics settle), so the semantic comparison
//! follows each side's own pointers and compares what they lead to: the kind
//! of every chunk, the kind and content of every block of a mixed chunk, and
//! the 32 voxel-pair words of every mixed block. The raw comparisons look for
//! the first differing word of two buffers.

use vstd::prelude::*;

use crate::cell::{
    block_kind, chunk_kind, lemma_cell_word_round_trip, spec_block_kind, spec_chunk_kind, BlockCell, ChunkCell,
};

verus! {

/// The three word buffers of a constructed world.
pub struct CellBuffers {
    /// One word per chunk.
    pub chunks: Vec<u32>,
    /// 64 words per mixed chunk.
    pub blocks: Vec<u32>,
    /// 32 voxel-pair words per mixed block.
    pub voxels: Vec<u32>,
}

/// Word `i` of `s`, or 0 past either end.
pub open spec fn word_or_zero(s: Seq<u32>, i: int) -> u32 {
    if 0 <= i < s.len() {
        s[i]
    } else {
        0
    }
}

/// Word `i` of `s`, or 0 past its end.
pub fn get_or_zero(s: &[u32], i: usize) -> (w: u32)
    ensures
        w == word_or_zero(s@, i as int),
{
    if i < s.len() {
        s[i]
    } else {
        0
    }
}

/// Whether word `k` of the group at `a` in `sa` differs from word `k` of the
/// group at `b` in `sb`.
pub open spec fn words_differ(sa: Seq<u32>, a: int, sb: Seq<u32>, b: int, k: int) -> bool {
    word_or_zero(sa, a + k) != word_or_zero(sb, b + k)
}

/// The first `k < n` at which the groups at `a` and `b` differ, or `n` when
/// their first `n` words agree.
pub open spec fn first_word_diff(sa: Seq<u32>, a: int, sb: Seq<u32>, b: int, n: nat) -> int
    decreases n,
{
    if n == 0 {
        0
    } else {
        let f = first_word_diff(sa, a, sb, b, (n - 1) as nat);
        if f < n - 1 {
            f
        } else if words_differ(sa, a, sb, b, n - 1) {
            n - 1
        } else {
            n as int
        }
    }
}

/// `first_word_diff` is the least differing index below `n`, or `n`.
pub proof fn lemma_first_word_diff(sa: Seq<u32>, a: int, sb: Seq<u32>, b: int, n: nat)
    ensures
        0 <= first_word_diff(sa, a, sb, b, n) <= n,
        forall|k: int|
            0 <= k < first_word_diff(sa, a, sb, b, n) ==> !#[trigger] words_differ(sa, a, sb, b, k),
        first_word_diff(sa, a, sb, b, n) < n ==> words_differ(
            sa,
            a,
            sb,
            b,
            first_word_diff(sa, a, sb, b, n),
        ),
    decreases n,
{
    if n > 0 {
        lemma_first_word_diff(sa, a, sb, b, (n - 1) as nat);
    }
}

/// The first of the 32 voxel-pair words at which the mixed block at `a` of
/// `sa` and the one at `b` of `sb` differ, or 32 when all agree.
pub fn voxel_group_diff(sa: &[u32], a: u32, sb: &[u32], b: u32) -> (k: usize)
    requires
        a < 0x4000_0000,
        b < 0x4000_0000,
    ensures
        k == first_word_diff(sa@, a as int, sb@, b as int, 32),
{
    let mut k: usize = 0;
    while k < 32
        invariant
            k <= 32,
            a < 0x4000_0000,
            b < 0x4000_0000,
            forall|j: int| 0 <= j < k ==> !#[trigger] words_differ(sa@, a as int, sb@, b as int, j),
        decreases 32 - k,
    {
        let wa = get_or_zero(sa, a as usize + k);
        let wb = get_or_zero(sb, b as usize + k);
        if wa != wb {
            proof {
                assert(words_differ(sa@, a as int, sb@, b as int, k as int));
                lemma_first_word_diff(sa@, a as int, sb@, b as int, 32);
            }
            return k;
        }
        k = k + 1;
    }
    proof {
        lemma_first_word_diff(sa@, a as int, sb@, b as int, 32);
    }
    32
}

/// What a finding found different.
#[derive(Clone, Copy, Debug, PartialEq, Eq, Structural)]
pub enum FindingKind {
    /// The two chunk words are of different kinds (empty, uniform, mixed).
    ChunkKind,
    /// Two uniform chunks of different types, or two empty chunks with
    /// different AADF distances.
    ChunkValue,
    /// The two block words are of different kinds.
    BlockKind,
    /// Two uniform blocks of different types, or two empty blocks with
    /// different AADF distances.
    BlockValue,
    /// A voxel-pair word of two mixed blocks differs.
    Voxel,
}

/// One difference between two worlds, with the words that differ.
#[derive(Clone, Copy, Debug, PartialEq, Eq, Structural)]
pub struct Finding {
    /// What differs.
    pub kind: FindingKind,
    /// The chunk index.
    pub chunk: usize,
    /// The block within the chunk (0 for a chunk finding).
    pub block: usize,
    /// The voxel-pair word within the block (0 unless a voxel finding).
    pub word: usize,
    /// The CPU side's differing word.
    pub cpu: u32,
    /// The GPU side's differing word.
    pub gpu: u32,
}

/// The finding of kind `kind` at `(chunk, block, word)` with words `cpu`,
/// `gpu`.
pub open spec fn finding(kind: FindingKind, chunk: int, block: int, word: int, cpu: u32, gpu: u32) -> Finding {
    Finding { kind, chunk: chunk as usize, block: block as usize, word: word as usize, cpu, gpu }
}

/// What comparing block `bi` of mixed chunk `ci` finds, the CPU chunk's
/// blocks starting at `cp` and the GPU chunk's at `gp`: a kind mismatch, a
/// type or AADF mismatch, the first differing voxel-pair word of two mixed
/// blocks, or nothing.
pub open spec fn block_finding(cpu: &CellBuffers, gpu: &CellBuffers, ci: int, cp: int, gp: int, bi: int) -> Option<Finding> {
    let cw = word_or_zero(cpu.blocks@, cp + bi);
    let gw = word_or_zero(gpu.blocks@, gp + bi);
    match (BlockCell::spec_decode(cw), BlockCell::spec_decode(gw)) {
        (BlockCell::Mixed(a), BlockCell::Mixed(b)) => {
            let k = first_word_diff(cpu.voxels@, a as int, gpu.voxels@, b as int, 32);
            if k < 32 {
                Some(
                    finding(
                        FindingKind::Voxel,
                        ci,
                        bi,
                        k,
                        word_or_zero(cpu.voxels@, a + k),
                        word_or_zero(gpu.voxels@, b + k),
                    ),
                )
            } else {
                None
            }
        },
        (BlockCell::UniformFull(a), BlockCell::UniformFull(b)) => {
            if a != b {
                Some(finding(FindingKind::BlockValue, ci, bi, 0, cw, gw))
            } else {
                None
            }
        },
        (BlockCell::Empty(a), BlockCell::Empty(b)) => {
            if a != b {
                Some(finding(FindingKind::BlockValue, ci, bi, 0, cw, gw))
            } else {
                None
            }
        },
        _ => Some(finding(FindingKind::BlockKind, ci, bi, 0, cw, gw)),
    }
}

/// How comparing block `bi` depends on its two words `cw` (CPU) and `gw`
/// (GPU): words of different kinds (bits 31..30) give a kind finding; two
/// empty words give a value finding exactly when their AADF payloads differ,
/// two uniformly full words exactly when their types differ, each carrying
/// both words; equal words never give a kind or value finding.
pub proof fn lemma_block_finding_by_words(cpu: &CellBuffers, gpu: &CellBuffers, ci: int, cp: int, gp: int, bi: int)
    ensures
        ({
            let cw = word_or_zero(cpu.blocks@, cp + bi);
            let gw = word_or_zero(gpu.blocks@, gp + bi);
            let f = block_finding(cpu, gpu, ci, cp, gp, bi);
            let value = Some(finding(FindingKind::BlockValue, ci, bi, 0, cw, gw));
            &&& cw / 0x4000_0000 != gw / 0x4000_0000 && !(cw >= 0x8000_0000 && gw >= 0x8000_0000) ==> f == Some(
                finding(FindingKind::BlockKind, ci, bi, 0, cw, gw),
            )
            &&& cw < 0x4000_0000 && gw < 0x4000_0000 ==> (if cw == gw {
                f is None
            } else {
                f == value
            })
            &&& 0x4000_0000 <= cw < 0x8000_0000 && 0x4000_0000 <= gw < 0x8000_0000 ==> (if cw % 0x8000
                == gw % 0x8000 {
                f is None
            } else {
                f == value
            })
            &&& cw == gw ==> (f is None || f.unwrap().kind == FindingKind::Voxel)
        }),
{
}

/// Compare block `bi` of mixed chunk `ci`.
pub fn block_finding_at(cpu: &CellBuffers, gpu: &CellBuffers, ci: usize, cp: u32, gp: u32, bi: usize) -> (f: Option<Finding>)
    requires
        cp < 0x4000_0000,
        gp < 0x4000_0000,
        bi < 64,
    ensures
        f == block_finding(cpu, gpu, ci as int, cp as int, gp as int, bi as int),
{
    let cw = get_or_zero(cpu.blocks.as_slice(), cp as usize + bi);
    let gw = get_or_zero(gpu.blocks.as_slice(), gp as usize + bi);
    let cb = BlockCell::decode(cw);
    let gb = BlockCell::decode(gw);
    if block_kind(&cb) != block_kind(&gb) {
        return Some(Finding { kind: FindingKind::BlockKind, chunk: ci, block: bi, word: 0, cpu: cw, gpu: gw });
    }
    match (cb, gb) {
        (BlockCell::Mixed(a), BlockCell::Mixed(b)) => {
            let k = voxel_group_diff(cpu.voxels.as_slice(), a, gpu.voxels.as_slice(), b);
            if k < 32 {
                let vc = get_or_zero(cpu.voxels.as_slice(), a as usize + k);
                let vg = get_or_zero(gpu.voxels.as_slice(), b as usize + k);
                Some(Finding { kind: FindingKind::Voxel, chunk: ci, block: bi, word: k, cpu: vc, gpu: vg })
            } else {
                None
            }
        },
        (BlockCell::UniformFull(a), BlockCell::UniformFull(b)) => {
            if a != b {
                Some(Finding { kind: FindingKind::BlockValue, chunk: ci, block: bi, word: 0, cpu: cw, gpu: gw })
            } else {
                None
            }
        },
        (BlockCell::Empty(a), BlockCell::Empty(b)) => {
            if a != b {
                Some(Finding { kind: FindingKind::BlockValue, chunk: ci, block: bi, word: 0, cpu: cw, gpu: gw })
            } else {
                None
            }
        },
        _ => None,
    }
}

/// The one-element sequence of a finding, or the empty one.
pub open spec fn opt_seq(o: Option<Finding>) -> Seq<Finding> {
    match o {
        Some(f) => seq![f],
        None => Seq::empty(),
    }
}

/// Whether the walk so far stopped at a differing voxel word.
pub open spec fn ends_in_voxel(s: Seq<Finding>) -> bool {
    s.len() > 0 && s.last().kind == FindingKind::Voxel
}

/// The findings of blocks `0..n` of mixed chunk `ci`, in order, cut off after
/// the first voxel finding: the walk stops there.
pub open spec fn blocks_walk(cpu: &CellBuffers, gpu: &CellBuffers, ci: int, cp: int, gp: int, n: nat) -> Seq<Finding>
    decreases n,
{
    if n == 0 {
        Seq::empty()
    } else {
        let w = blocks_walk(cpu, gpu, ci, cp, gp, (n - 1) as nat);
        if ends_in_voxel(w) {
            w
        } else {
            w + opt_seq(block_finding(cpu, gpu, ci, cp, gp, n - 1))
        }
    }
}

/// The findings of chunk `ci`: a chunk mismatch, or the walk over the blocks
/// of two mixed chunks. Empty chunks' AADF distances count only when
/// `compare_empty` holds.
pub open spec fn chunk_walk(cpu: &CellBuffers, gpu: &CellBuffers, ci: int, compare_empty: bool) -> Seq<Finding> {
    let cw = cpu.chunks@[ci];
    let gw = gpu.chunks@[ci];
    match (ChunkCell::spec_decode(cw), ChunkCell::spec_decode(gw)) {
        (ChunkCell::Mixed(a), ChunkCell::Mixed(b)) => blocks_walk(cpu, gpu, ci, a as int, b as int, 64),
        (ChunkCell::UniformFull(a), ChunkCell::UniformFull(b)) => {
            if a != b {
                seq![finding(FindingKind::ChunkValue, ci, 0, 0, cw, gw)]
            } else {
                Seq::empty()
            }
        },
        (ChunkCell::Empty(a), ChunkCell::Empty(b)) => {
            if compare_empty && a != b {
                seq![finding(FindingKind::ChunkValue, ci, 0, 0, cw, gw)]
            } else {
                Seq::empty()
            }
        },
        _ => seq![finding(FindingKind::ChunkKind, ci, 0, 0, cw, gw)],
    }
}

/// How comparing chunk `ci` depends on its two words: words of different
/// kinds give one kind finding; two empty words give one value finding
/// exactly when empty chunks are compared and their AADF payloads differ;
/// two uniformly full words give one value finding exactly when their types
/// differ; findings carry both words.
pub proof fn lemma_chunk_walk_by_words(cpu: &CellBuffers, gpu: &CellBuffers, ci: int, compare_empty: bool)
    ensures
        ({
            let cw = cpu.chunks@[ci];
            let gw = gpu.chunks@[ci];
            let w = chunk_walk(cpu, gpu, ci, compare_empty);
            let value = seq![finding(FindingKind::ChunkValue, ci, 0, 0, cw, gw)];
            &&& cw / 0x4000_0000 != gw / 0x4000_0000 && !(cw >= 0x8000_0000 && gw >= 0x8000_0000) ==> w
                == seq![finding(FindingKind::ChunkKind, ci, 0, 0, cw, gw)]
            &&& cw < 0x4000_0000 && gw < 0x4000_0000 ==> (if compare_empty && cw != gw {
                w == value
            } else {
                w.len() == 0
            })
            &&& 0x4000_0000 <= cw < 0x8000_0000 && 0x4000_0000 <= gw < 0x8000_0000 ==> (if cw % 0x8000
                == gw % 0x8000 {
                w.len() == 0
            } else {
                w == value
            })
        }),
{
}

/// The findings of chunks `0..n`, in order, cut off after the first voxel
/// finding.
pub open spec fn world_walk(cpu: &CellBuffers, gpu: &CellBuffers, n: nat, compare_empty: bool) -> Seq<Finding>
    decreases n,
{
    if n == 0 {
        Seq::empty()
    } else {
        let w = world_walk(cpu, gpu, (n - 1) as nat, compare_empty);
        if ends_in_voxel(w) {
            w
        } else {
            w + chunk_walk(cpu, gpu, n - 1, compare_empty)
        }
    }
}

/// Once the block walk has stopped at a voxel finding it stays as it is.
pub proof fn lemma_blocks_walk_stops(cpu: &CellBuffers, gpu: &CellBuffers, ci: int, cp: int, gp: int, m: nat, n: nat)
    requires
        m <= n,
        ends_in_voxel(blocks_walk(cpu, gpu, ci, cp, gp, m)),
    ensures
        blocks_walk(cpu, gpu, ci, cp, gp, n) == blocks_walk(cpu, gpu, ci, cp, gp, m),
    decreases n,
{
    if n > m {
        lemma_blocks_walk_stops(cpu, gpu, ci, cp, gp, m, (n - 1) as nat);
    }
}

/// Once the world walk has stopped at a voxel finding it stays as it is.
pub proof fn lemma_world_walk_stops(cpu: &CellBuffers, gpu: &CellBuffers, m: nat, n: nat, compare_empty: bool)
    requires
        m <= n,
        ends_in_voxel(world_walk(cpu, gpu, m, compare_empty)),
    ensures
        world_walk(cpu, gpu, n, compare_empty) == world_walk(cpu, gpu, m, compare_empty),
    decreases n,
{
    if n > m {
        lemma_world_walk_stops(cpu, gpu, m, (n - 1) as nat, compare_empty);
    }
}

/// A longer block walk starts with the same finding.
pub proof fn lemma_blocks_walk_first(cpu: &CellBuffers, gpu: &CellBuffers, ci: int, cp: int, gp: int, m: nat, n: nat)
    requires
        m <= n,
        blocks_walk(cpu, gpu, ci, cp, gp, m).len() > 0,
    ensures
        blocks_walk(cpu, gpu, ci, cp, gp, n).len() > 0,
        blocks_walk(cpu, gpu, ci, cp, gp, n)[0] == blocks_walk(cpu, gpu, ci, cp, gp, m)[0],
    decreases n,
{
    if n > m {
        lemma_blocks_walk_first(cpu, gpu, ci, cp, gp, m, (n - 1) as nat);
    }
}

/// A longer world walk starts with the same finding.
pub proof fn lemma_world_walk_first(cpu: &CellBuffers, gpu: &CellBuffers, m: nat, n: nat, compare_empty: bool)
    requires
        m <= n,
        world_walk(cpu, gpu, m, compare_empty).len() > 0,
    ensures
        world_walk(cpu, gpu, n, compare_empty).len() > 0,
        world_walk(cpu, gpu, n, compare_empty)[0] == world_walk(cpu, gpu, m, compare_empty)[0],
    decreases n,
{
    if n > m {
        lemma_world_walk_first(cpu, gpu, m, (n - 1) as nat, compare_empty);
    }
}

/// A block walk has at most one finding per block.
pub proof fn lemma_walk_lengths(cpu: &CellBuffers, gpu: &CellBuffers, ci: int, cp: int, gp: int, n: nat)
    ensures
        blocks_walk(cpu, gpu, ci, cp, gp, n).len() <= n,
    decreases n,
{
    if n > 0 {
        lemma_walk_lengths(cpu, gpu, ci, cp, gp, (n - 1) as nat);
    }
}

/// A world compared with itself: no group of voxel-pair words differs.
proof fn lemma_first_word_diff_same(s: Seq<u32>, a: int, n: nat)
    ensures
        first_word_diff(s, a, s, a, n) == n,
    decreases n,
{
    if n > 0 {
        lemma_first_word_diff_same(s, a, (n - 1) as nat);
    }
}

/// A world compared with itself: no block of a mixed chunk differs.
proof fn lemma_blocks_walk_self(w: &CellBuffers, ci: int, cp: int, n: nat)
    ensures
        blocks_walk(w, w, ci, cp, cp, n).len() == 0,
    decreases n,
{
    if n > 0 {
        lemma_blocks_walk_self(w, ci, cp, (n - 1) as nat);
        let bw = word_or_zero(w.blocks@, cp + n - 1);
        match BlockCell::spec_decode(bw) {
            BlockCell::Mixed(a) => {
                lemma_first_word_diff_same(w.voxels@, a as int, 32);
            },
            _ => {},
        }
        assert(blocks_walk(w, w, ci, cp, cp, n) =~= Seq::<Finding>::empty());
    }
}

/// Comparing a world with itself finds no difference: every chunk has the
/// same kind, every mixed chunk leads to the same blocks and every mixed
/// block to the same voxel words.
pub proof fn lemma_world_walk_self(w: &CellBuffers, n: nat, compare_empty: bool)
    requires
        n <= w.chunks@.len(),
    ensures
        world_walk(w, w, n, compare_empty).len() == 0,
    decreases n,
{
    if n > 0 {
        lemma_world_walk_self(w, (n - 1) as nat, compare_empty);
        let cw = w.chunks@[n - 1];
        match ChunkCell::spec_decode(cw) {
            ChunkCell::Mixed(a) => {
                lemma_blocks_walk_self(w, n - 1, a as int, 64);
            },
            _ => {},
        }
        assert(world_walk(w, w, n, compare_empty) =~= Seq::<Finding>::empty());
    }
}

/// A world walk has at most 65 findings per chunk.
pub proof fn lemma_world_walk_length(cpu: &CellBuffers, gpu: &CellBuffers, n: nat, compare_empty: bool)
    ensures
        world_walk(cpu, gpu, n, compare_empty).len() <= 65 * n,
    decreases n,
{
    if n > 0 {
        lemma_world_walk_length(cpu, gpu, (n - 1) as nat, compare_empty);
        let ci = n - 1;
        match (ChunkCell::spec_decode(cpu.chunks@[ci]), ChunkCell::spec_decode(gpu.chunks@[ci])) {
            (ChunkCell::Mixed(a), ChunkCell::Mixed(b)) => {
                lemma_walk_lengths(cpu, gpu, ci, a as int, b as int, 64);
            },
            _ => {},
        }
    }
}

/// The summary of a counting walk: how many findings it made, the first
/// chunk finding, the first block finding, the voxel finding it stopped at,
/// and the chunk of the first kind or voxel mismatch.
#[derive(Clone, Copy, Debug, PartialEq, Eq)]
pub struct DiffTally {
    /// Number of findings.
    pub total: u64,
    /// The first chunk-level finding.
    pub first_chunk: Option<Finding>,
    /// The first block-level finding.
    pub first_block: Option<Finding>,
    /// The voxel finding that ended the walk.
    pub voxel: Option<Finding>,
    /// The chunk of the first mismatch as the report counts it: a chunk-kind
    /// mismatch that is the first chunk finding sets it; a block-kind or
    /// voxel mismatch that is the first of its level sets it when unset.
    /// A value mismatch (a chunk's or block's type, or an AADF) never sets
    /// it, as in the tiled and segment drivers that print it.
    pub first_mismatch_chunk: Option<usize>,
}

/// `o`, or `Some(c)` when `o` is unset.
pub open spec fn or_chunk(o: Option<usize>, c: usize) -> Option<usize> {
    match o {
        Some(x) => Some(x),
        None => Some(c),
    }
}

/// The tally of a walk with no findings.
pub open spec fn empty_tally() -> DiffTally {
    DiffTally { total: 0, first_chunk: None, first_block: None, voxel: None, first_mismatch_chunk: None }
}

/// The tally after one more finding `f`. Only a kind mismatch or a voxel
/// mismatch can set `first_mismatch_chunk`; value mismatches leave it as it
/// was.
pub open spec fn tally_step(t: DiffTally, f: Finding) -> DiffTally {
    let total = (t.total + 1) as u64;
    match f.kind {
        FindingKind::ChunkKind => if t.first_chunk is None {
            DiffTally {
                total,
                first_chunk: Some(f),
                first_block: t.first_block,
                voxel: t.voxel,
                first_mismatch_chunk: Some(f.chunk),
            }
        } else {
            DiffTally { total, ..t }
        },
        FindingKind::ChunkValue => if t.first_chunk is None {
            DiffTally { total, first_chunk: Some(f), ..t }
        } else {
            DiffTally { total, ..t }
        },
        FindingKind::BlockKind => if t.first_block is None {
            DiffTally {
                total,
                first_block: Some(f),
                first_mismatch_chunk: or_chunk(t.first_mismatch_chunk, f.chunk),
                ..t
            }
        } else {
            DiffTally { total, ..t }
        },
        FindingKind::BlockValue => if t.first_block is None {
            DiffTally { total, first_block: Some(f), ..t }
        } else {
            DiffTally { total, ..t }
        },
        FindingKind::Voxel => if t.voxel is None {
            DiffTally {
                total,
                voxel: Some(f),
                first_mismatch_chunk: or_chunk(t.first_mismatch_chunk, f.chunk),
                ..t
            }
        } else {
            DiffTally { total, ..t }
        },
    }
}

/// The tally of the findings `s`, taken in order.
pub open spec fn tally(s: Seq<Finding>) -> DiffTally
    decreases s.len(),
{
    if s.len() == 0 {
        empty_tally()
    } else {
        tally_step(tally(s.drop_last()), s.last())
    }
}

/// Count one more finding.
fn tally_add(t: DiffTally, f: Finding) -> (r: DiffTally)
    requires
        t.total < u64::MAX,
    ensures
        r == tally_step(t, f),
{
    let total = t.total + 1;
    match f.kind {
        FindingKind::ChunkKind => if t.first_chunk.is_none() {
            DiffTally { total, first_chunk: Some(f), first_mismatch_chunk: Some(f.chunk), ..t }
        } else {
            DiffTally { total, ..t }
        },
        FindingKind::ChunkValue => if t.first_chunk.is_none() {
            DiffTally { total, first_chunk: Some(f), ..t }
        } else {
            DiffTally { total, ..t }
        },
        FindingKind::BlockKind => if t.first_block.is_none() {
            let fmc = match t.first_mismatch_chunk {
                Some(x) => Some(x),
                None => Some(f.chunk),
            };
            DiffTally { total, first_block: Some(f), first_mismatch_chunk: fmc, ..t }
        } else {
            DiffTally { total, ..t }
        },
        FindingKind::BlockValue => if t.first_block.is_none() {
            DiffTally { total, first_block: Some(f), ..t }
        } else {
            DiffTally { total, ..t }
        },
        FindingKind::Voxel => if t.voxel.is_none() {
            let fmc = match t.first_mismatch_chunk {
                Some(x) => Some(x),
                None => Some(f.chunk),
            };
            DiffTally { total, voxel: Some(f), first_mismatch_chunk: fmc, ..t }
        } else {
            DiffTally { total, ..t }
        },
    }
}

/// Appending one finding to a walk takes one tally step.
proof fn lemma_tally_push(s: Seq<Finding>, f: Finding)
    ensures
        tally(s.push(f)) == tally_step(tally(s), f),
{
    assert(s.push(f).drop_last() =~= s);
}

/// A tally counts every finding of the walk.
proof fn lemma_tally_total(s: Seq<Finding>)
    requires
        s.len() <= u64::MAX,
    ensures
        tally(s).total == s.len(),
    decreases s.len(),
{
    if s.len() > 0 {
        lemma_tally_total(s.drop_last());
    }
}

/// The record a tally keeps for findings of `kind`'s level.
pub open spec fn level_record(t: DiffTally, kind: FindingKind) -> Option<Finding> {
    match kind {
        FindingKind::ChunkKind | FindingKind::ChunkValue => t.first_chunk,
        FindingKind::BlockKind | FindingKind::BlockValue => t.first_block,
        FindingKind::Voxel => t.voxel,
    }
}

/// A tally keeps the walk's first finding as the record of its level.
proof fn lemma_tally_keeps_first(s: Seq<Finding>)
    requires
        s.len() > 0,
    ensures
        level_record(tally(s), s[0].kind) == Some(s[0]),
    decreases s.len(),
{
    let t0 = tally(s.drop_last());
    if s.len() > 1 {
        lemma_tally_keeps_first(s.drop_last());
        assert(s.drop_last()[0] == s[0]);
        assert(level_record(t0, s[0].kind) == Some(s[0]));
    } else {
        assert(t0 == empty_tally());
        assert(s.last() == s[0]);
    }
    assert(tally(s) == tally_step(t0, s.last()));
}

/// The level of a finding: 0 chunk, 1 block, 2 voxel.
pub open spec fn finding_level(k: FindingKind) -> int {
    match k {
        FindingKind::ChunkKind | FindingKind::ChunkValue => 0,
        FindingKind::BlockKind | FindingKind::BlockValue => 1,
        FindingKind::Voxel => 2,
    }
}

/// The record a tally keeps for level `lvl`.
pub open spec fn level_slot(t: DiffTally, lvl: int) -> Option<Finding> {
    if lvl == 0 {
        t.first_chunk
    } else if lvl == 1 {
        t.first_block
    } else {
        t.voxel
    }
}

/// One step of a tally fills the record of the finding's level when it is
/// still empty, and leaves every other record as it was.
proof fn lemma_step_slot(t: DiffTally, f: Finding, lvl: int)
    requires
        0 <= lvl < 3,
    ensures
        level_slot(tally_step(t, f), lvl) == if level_slot(t, lvl) is None && finding_level(f.kind) == lvl {
            Some(f)
        } else {
            level_slot(t, lvl)
        },
        (f.kind == FindingKind::ChunkValue || f.kind == FindingKind::BlockValue) ==> tally_step(
            t,
            f,
        ).first_mismatch_chunk == t.first_mismatch_chunk,
{
}

proof fn lemma_tally_slot_none(s: Seq<Finding>, lvl: int)
    requires
        0 <= lvl < 3,
        forall|k: int| 0 <= k < s.len() ==> finding_level(#[trigger] s[k].kind) != lvl,
    ensures
        level_slot(tally(s), lvl) is None,
    decreases s.len(),
{
    if s.len() > 0 {
        let p = s.drop_last();
        assert forall|j: int| 0 <= j < p.len() implies finding_level(#[trigger] p[j].kind) != lvl by {
            assert(p[j] == s[j]);
        }
        lemma_tally_slot_none(p, lvl);
        lemma_step_slot(tally(p), s.last(), lvl);
        assert(finding_level(s[s.len() - 1].kind) != lvl);
    }
}

proof fn lemma_tally_slot_first(s: Seq<Finding>, lvl: int, k: int)
    requires
        0 <= lvl < 3,
        0 <= k < s.len(),
        finding_level(s[k].kind) == lvl,
        forall|j: int| 0 <= j < k ==> finding_level(#[trigger] s[j].kind) != lvl,
    ensures
        level_slot(tally(s), lvl) == Some(s[k]),
    decreases s.len(),
{
    let p = s.drop_last();
    lemma_step_slot(tally(p), s.last(), lvl);
    if k < s.len() - 1 {
        assert(p[k] == s[k]);
        assert forall|j: int| 0 <= j < k implies finding_level(#[trigger] p[j].kind) != lvl by {
            assert(p[j] == s[j]);
        }
        lemma_tally_slot_first(p, lvl, k);
    } else {
        assert forall|j: int| 0 <= j < p.len() implies finding_level(#[trigger] p[j].kind) != lvl by {
            assert(p[j] == s[j]);
        }
        lemma_tally_slot_none(p, lvl);
    }
}

proof fn lemma_tally_values_only(s: Seq<Finding>)
    requires
        forall|k: int|
            0 <= k < s.len() ==> (#[trigger] s[k].kind == FindingKind::ChunkValue || s[k].kind
                == FindingKind::BlockValue),
    ensures
        tally(s).first_mismatch_chunk is None,
    decreases s.len(),
{
    if s.len() > 0 {
        let p = s.drop_last();
        assert forall|j: int| 0 <= j < p.len() implies (#[trigger] p[j].kind == FindingKind::ChunkValue
            || p[j].kind == FindingKind::BlockValue) by {
            assert(p[j] == s[j]);
        }
        lemma_tally_values_only(p);
        assert(s[s.len() - 1].kind == FindingKind::ChunkValue || s[s.len() - 1].kind == FindingKind::BlockValue);
        lemma_step_slot(tally(p), s.last(), 0);
    }
}

/// A tally counts every finding, and keeps for each level the earliest
/// finding of that level (nothing when there is none); a run of value
/// findings alone never sets the first mismatching chunk.
pub proof fn lemma_tally_records_first(s: Seq<Finding>, lvl: int)
    requires
        s.len() <= u64::MAX,
        0 <= lvl < 3,
    ensures
        tally(s).total == s.len(),
        (forall|k: int| 0 <= k < s.len() ==> finding_level(#[trigger] s[k].kind) != lvl) ==> level_slot(
            tally(s),
            lvl,
        ) is None,
        forall|k: int|
            0 <= k < s.len() && finding_level(#[trigger] s[k].kind) == lvl && (forall|j: int|
                0 <= j < k ==> finding_level(#[trigger] s[j].kind) != lvl) ==> level_slot(tally(s), lvl) == Some(
                s[k],
            ),
        (forall|k: int|
            0 <= k < s.len() ==> (#[trigger] s[k].kind == FindingKind::ChunkValue || s[k].kind
                == FindingKind::BlockValue)) ==> tally(s).first_mismatch_chunk is None,
{
    lemma_tally_total(s);
    if forall|k: int| 0 <= k < s.len() ==> finding_level(#[trigger] s[k].kind) != lvl {
        lemma_tally_slot_none(s, lvl);
    }
    assert forall|k: int|
        0 <= k < s.len() && finding_level(#[trigger] s[k].kind) == lvl && (forall|j: int|
            0 <= j < k ==> finding_level(#[trigger] s[j].kind) != lvl) implies level_slot(tally(s), lvl) == Some(
        s[k],
    ) by {
        lemma_tally_slot_first(s, lvl, k);
    }
    if forall|k: int|
        0 <= k < s.len() ==> (#[trigger] s[k].kind == FindingKind::ChunkValue || s[k].kind
            == FindingKind::BlockValue) {
        lemma_tally_values_only(s);
    }
}

/// The walk that stops at the first difference and the counting walk agree
/// when empty chunks are compared: the counting walk counts nothing exactly
/// when there is no difference, and otherwise keeps the first difference as
/// the first record of its level.
pub proof fn lemma_first_and_tally_agree(cpu: &CellBuffers, gpu: &CellBuffers, n: nat)
    requires
        n <= u32::MAX,
    ensures
        ({
            let w = world_walk(cpu, gpu, n, true);
            &&& (tally(w).total == 0) == (w.len() == 0)
            &&& w.len() > 0 ==> level_record(tally(w), w[0].kind) == Some(w[0])
        }),
{
    let w = world_walk(cpu, gpu, n, true);
    lemma_world_walk_length(cpu, gpu, n, true);
    lemma_tally_total(w);
    if w.len() > 0 {
        lemma_tally_keeps_first(w);
    }
}

/// Walk both worlds' first `chunk_count` chunks, following each side's own
/// pointers, and tally every difference: a chunk whose kind differs is
/// counted and skipped, a block whose kind differs is counted and skipped,
/// and the walk stops at the first differing voxel-pair word of two mixed
/// blocks. Empty chunks' AADF distances are compared only when
/// `compare_empty_chunks` is set (the chunk-bound pass may not have run).
#[verifier::rlimit(40)]
pub fn tally_semantic_mismatches(
    cpu: &CellBuffers,
    gpu: &CellBuffers,
    chunk_count: usize,
    compare_empty_chunks: bool,
) -> (t: DiffTally)
    requires
        chunk_count <= cpu.chunks@.len(),
        chunk_count <= gpu.chunks@.len(),
        chunk_count <= u32::MAX,
    ensures
        t == tally(world_walk(cpu, gpu, chunk_count as nat, compare_empty_chunks)),
        t.total == world_walk(cpu, gpu, chunk_count as nat, compare_empty_chunks).len(),
{
    let mut t = DiffTally { total: 0, first_chunk: None, first_block: None, voxel: None, first_mismatch_chunk: None };
    let ghost mut seen: Seq<Finding> = Seq::empty();
    let mut ci: usize = 0;
    while ci < chunk_count
        invariant
            ci <= chunk_count,
            chunk_count <= cpu.chunks@.len(),
            chunk_count <= gpu.chunks@.len(),
            chunk_count <= u32::MAX,
            seen == world_walk(cpu, gpu, ci as nat, compare_empty_chunks),
            !ends_in_voxel(seen),
            t == tally(seen),
            t.total == seen.len(),
        decreases chunk_count - ci,
    {
        proof {
            lemma_world_walk_length(cpu, gpu, ci as nat, compare_empty_chunks);
        }
        let cw = cpu.chunks[ci];
        let gw = gpu.chunks[ci];
        let cc = ChunkCell::decode(cw);
        let gc = ChunkCell::decode(gw);
        let ghost before = seen;
        if chunk_kind(&cc) != chunk_kind(&gc) {
            let f = Finding { kind: FindingKind::ChunkKind, chunk: ci, block: 0, word: 0, cpu: cw, gpu: gw };
            proof {
                lemma_tally_push(seen, f);
                seen = seen.push(f);
                assert(seen =~= before + chunk_walk(cpu, gpu, ci as int, compare_empty_chunks));
            }
            t = tally_add(t, f);
        } else {
            match (cc, gc) {
                (ChunkCell::Mixed(cp), ChunkCell::Mixed(gp)) => {
                    let mut bi: usize = 0;
                    while bi < 64
                        invariant
                            bi <= 64,
                            ci < chunk_count,
                            chunk_count <= u32::MAX,
                            cp < 0x4000_0000,
                            gp < 0x4000_0000,
                            before == world_walk(cpu, gpu, ci as nat, compare_empty_chunks),
                            !ends_in_voxel(before),
                            before.len() <= 65 * ci,
                            seen == before + blocks_walk(cpu, gpu, ci as int, cp as int, gp as int, bi as nat),
                            !ends_in_voxel(blocks_walk(cpu, gpu, ci as int, cp as int, gp as int, bi as nat)),
                            chunk_walk(cpu, gpu, ci as int, compare_empty_chunks) == blocks_walk(
                                cpu,
                                gpu,
                                ci as int,
                                cp as int,
                                gp as int,
                                64,
                            ),
                            t == tally(seen),
                            t.total == seen.len(),
                        decreases 64 - bi,
                    {
                        proof {
                            lemma_walk_lengths(cpu, gpu, ci as int, cp as int, gp as int, bi as nat);
                        }
                        let ghost bw = blocks_walk(cpu, gpu, ci as int, cp as int, gp as int, bi as nat);
                        match block_finding_at(cpu, gpu, ci, cp, gp, bi) {
                            Some(f) => {
                                proof {
                                    lemma_tally_push(seen, f);
                                    seen = seen.push(f);
                                    assert(seen =~= before + blocks_walk(
                                        cpu,
                                        gpu,
                                        ci as int,
                                        cp as int,
                                        gp as int,
                                        (bi + 1) as nat,
                                    ));
                                }
                                t = tally_add(t, f);
                                if f.kind == FindingKind::Voxel {
                                    proof {
                                        lemma_blocks_walk_stops(
                                            cpu,
                                            gpu,
                                            ci as int,
                                            cp as int,
                                            gp as int,
                                            (bi + 1) as nat,
                                            64,
                                        );
                                        assert(world_walk(cpu, gpu, (ci + 1) as nat, compare_empty_chunks) == seen);
                                        lemma_world_walk_stops(
                                            cpu,
                                            gpu,
                                            (ci + 1) as nat,
                                            chunk_count as nat,
                                            compare_empty_chunks,
                                        );
                                    }
                                    return t;
                                }
                            },
                            None => {
                                proof {
                                    assert(blocks_walk(cpu, gpu, ci as int, cp as int, gp as int, (bi + 1) as nat)
                                        =~= bw);
                                }
                            },
                        }
                        bi = bi + 1;
                    }
                    proof {
                        assert(seen == world_walk(cpu, gpu, (ci + 1) as nat, compare_empty_chunks));
                    }
                },
                (ChunkCell::UniformFull(a), ChunkCell::UniformFull(b)) => {
                    if a != b {
                        let f = Finding { kind: FindingKind::ChunkValue, chunk: ci, block: 0, word: 0, cpu: cw, gpu: gw };
                        proof {
                            lemma_tally_push(seen, f);
                            seen = seen.push(f);
                            assert(seen =~= before + chunk_walk(cpu, gpu, ci as int, compare_empty_chunks));
                        }
                        t = tally_add(t, f);
                    } else {
                        proof {
                            assert(seen =~= before + chunk_walk(cpu, gpu, ci as int, compare_empty_chunks));
                        }
                    }
                },
                (ChunkCell::Empty(a), ChunkCell::Empty(b)) => {
                    if compare_empty_chunks && a != b {
                        let f = Finding { kind: FindingKind::ChunkValue, chunk: ci, block: 0, word: 0, cpu: cw, gpu: gw };
                        proof {
                            lemma_tally_push(seen, f);
                            seen = seen.push(f);
                            assert(seen =~= before + chunk_walk(cpu, gpu, ci as int, compare_empty_chunks));
                        }
                        t = tally_add(t, f);
                    } else {
                        proof {
                            assert(seen =~= before + chunk_walk(cpu, gpu, ci as int, compare_empty_chunks));
                        }
                    }
                },
                _ => {},
            }
        }
        ci = ci + 1;
    }
    t
}

/// The pointer payload of a mixed chunk or block word.
pub open spec fn cell_pointer(w: u32) -> int {
    (w % 0x4000_0000) as int
}

/// Whether chunk `ci` is mixed in both worlds.
pub open spec fn mixed_chunk_pair(cpu: &CellBuffers, gpu: &CellBuffers, ci: int) -> bool {
    &&& ChunkCell::spec_decode(cpu.chunks@[ci]) is Mixed
    &&& ChunkCell::spec_decode(gpu.chunks@[ci]) is Mixed
}

/// Whether block `bi` of the chunks whose blocks start at `cp` and `gp` is
/// mixed in both worlds.
pub open spec fn mixed_block_pair(cpu: &CellBuffers, gpu: &CellBuffers, cp: int, gp: int, bi: int) -> bool {
    &&& BlockCell::spec_decode(word_or_zero(cpu.blocks@, cp + bi)) is Mixed
    &&& BlockCell::spec_decode(word_or_zero(gpu.blocks@, gp + bi)) is Mixed
}

/// How many of blocks `0..n` are mixed in both worlds.
pub open spec fn mixed_blocks_in(cpu: &CellBuffers, gpu: &CellBuffers, cp: int, gp: int, n: nat) -> nat
    decreases n,
{
    if n == 0 {
        0
    } else {
        mixed_blocks_in(cpu, gpu, cp, gp, (n - 1) as nat) + if mixed_block_pair(cpu, gpu, cp, gp, n - 1) {
            1nat
        } else {
            0nat
        }
    }
}

/// How many of blocks `0..n` of chunk `ci` are mixed in both worlds, when the
/// chunk is.
pub open spec fn mixed_blocks_of_chunk(cpu: &CellBuffers, gpu: &CellBuffers, ci: int, n: nat) -> nat {
    if mixed_chunk_pair(cpu, gpu, ci) {
        mixed_blocks_in(cpu, gpu, cell_pointer(cpu.chunks@[ci]), cell_pointer(gpu.chunks@[ci]), n)
    } else {
        0
    }
}

/// How many of chunks `0..n` are mixed in both worlds.
pub open spec fn mixed_chunk_count(cpu: &CellBuffers, gpu: &CellBuffers, n: nat) -> nat
    decreases n,
{
    if n == 0 {
        0
    } else {
        mixed_chunk_count(cpu, gpu, (n - 1) as nat) + if mixed_chunk_pair(cpu, gpu, n - 1) {
            1nat
        } else {
            0nat
        }
    }
}

/// How many blocks of chunks `0..n` are mixed in both worlds.
pub open spec fn mixed_block_count(cpu: &CellBuffers, gpu: &CellBuffers, n: nat) -> nat
    decreases n,
{
    if n == 0 {
        0
    } else {
        mixed_block_count(cpu, gpu, (n - 1) as nat) + mixed_blocks_of_chunk(cpu, gpu, n - 1, 64)
    }
}

/// At most one mixed block pair per block.
proof fn lemma_mixed_blocks_in_bound(cpu: &CellBuffers, gpu: &CellBuffers, cp: int, gp: int, n: nat)
    ensures
        mixed_blocks_in(cpu, gpu, cp, gp, n) <= n,
    decreases n,
{
    if n > 0 {
        lemma_mixed_blocks_in_bound(cpu, gpu, cp, gp, (n - 1) as nat);
    }
}

/// Whether a block word is mixed.
fn is_mixed_word(w: u32) -> (b: bool)
    ensures
        b == (BlockCell::spec_decode(w) is Mixed),
        b == (ChunkCell::spec_decode(w) is Mixed),
{
    w >= 0x8000_0000
}

/// The outcome of a walk that stops at the first difference: that
/// difference, and how many mixed chunk pairs and mixed block pairs the walk
/// entered up to it.
#[derive(Clone, Copy, Debug, PartialEq, Eq)]
pub struct FirstMismatch {
    /// The first difference, if any.
    pub mismatch: Option<Finding>,
    /// Mixed chunk pairs entered.
    pub mixed_chunks: u64,
    /// Mixed block pairs entered.
    pub mixed_blocks: u64,
}

/// Walk both worlds' first `chunk_count` chunks, following each side's own
/// pointers, and stop at the first difference of any kind (empty chunks'
/// AADF distances included), counting the mixed chunk and block pairs
/// entered on the way.
#[verifier::rlimit(40)]
pub fn first_semantic_mismatch(cpu: &CellBuffers, gpu: &CellBuffers, chunk_count: usize) -> (r: FirstMismatch)
    requires
        chunk_count <= cpu.chunks@.len(),
        chunk_count <= gpu.chunks@.len(),
        chunk_count <= u32::MAX,
    ensures
        ({
            let w = world_walk(cpu, gpu, chunk_count as nat, true);
            match r.mismatch {
                None => {
                    &&& w.len() == 0
                    &&& r.mixed_chunks == mixed_chunk_count(cpu, gpu, chunk_count as nat)
                    &&& r.mixed_blocks == mixed_block_count(cpu, gpu, chunk_count as nat)
                },
                Some(f) => {
                    &&& w.len() > 0
                    &&& f == w[0]
                    &&& r.mixed_chunks == mixed_chunk_count(cpu, gpu, (f.chunk + 1) as nat)
                    &&& r.mixed_blocks == mixed_block_count(cpu, gpu, f.chunk as nat)
                        + mixed_blocks_of_chunk(cpu, gpu, f.chunk as int, (f.block + 1) as nat)
                },
            }
        }),
{
    let mut mixed_chunks: u64 = 0;
    let mut mixed_blocks: u64 = 0;
    let mut ci: usize = 0;
    while ci < chunk_count
        invariant
            ci <= chunk_count,
            chunk_count <= cpu.chunks@.len(),
            chunk_count <= gpu.chunks@.len(),
            chunk_count <= u32::MAX,
            world_walk(cpu, gpu, ci as nat, true).len() == 0,
            mixed_chunks == mixed_chunk_count(cpu, gpu, ci as nat),
            mixed_blocks == mixed_block_count(cpu, gpu, ci as nat),
            mixed_chunks <= ci,
            mixed_blocks <= 64 * ci,
        decreases chunk_count - ci,
    {
        let cw = cpu.chunks[ci];
        let gw = gpu.chunks[ci];
        let cc = ChunkCell::decode(cw);
        let gc = ChunkCell::decode(gw);
        if chunk_kind(&cc) != chunk_kind(&gc) {
            let f = Finding { kind: FindingKind::ChunkKind, chunk: ci, block: 0, word: 0, cpu: cw, gpu: gw };
            proof {
                assert(world_walk(cpu, gpu, (ci + 1) as nat, true) =~= seq![f]);
                lemma_world_walk_first(cpu, gpu, (ci + 1) as nat, chunk_count as nat, true);
            }
            return FirstMismatch { mismatch: Some(f), mixed_chunks, mixed_blocks };
        }
        match (cc, gc) {
            (ChunkCell::Mixed(cp), ChunkCell::Mixed(gp)) => {
                mixed_chunks = mixed_chunks + 1;
                let ghost blocks_before = mixed_blocks as int;
                let mut bi: usize = 0;
                while bi < 64
                    invariant
                        bi <= 64,
                        ci < chunk_count,
                        chunk_count <= cpu.chunks@.len(),
                        chunk_count <= gpu.chunks@.len(),
                        chunk_count <= u32::MAX,
                        cp as int == cell_pointer(cpu.chunks@[ci as int]),
                        gp as int == cell_pointer(gpu.chunks@[ci as int]),
                        cp < 0x4000_0000,
                        gp < 0x4000_0000,
                        mixed_chunk_pair(cpu, gpu, ci as int),
                        world_walk(cpu, gpu, ci as nat, true).len() == 0,
                        chunk_walk(cpu, gpu, ci as int, true) == blocks_walk(
                            cpu,
                            gpu,
                            ci as int,
                            cp as int,
                            gp as int,
                            64,
                        ),
                        blocks_walk(cpu, gpu, ci as int, cp as int, gp as int, bi as nat).len() == 0,
                        mixed_chunks == mixed_chunk_count(cpu, gpu, (ci + 1) as nat),
                        blocks_before == mixed_block_count(cpu, gpu, ci as nat),
                        blocks_before <= 64 * ci,
                        mixed_blocks == blocks_before + mixed_blocks_in(cpu, gpu, cp as int, gp as int, bi as nat),
                    decreases 64 - bi,
                {
                    proof {
                        lemma_mixed_blocks_in_bound(cpu, gpu, cp as int, gp as int, bi as nat);
                    }
                    let cb = get_or_zero(cpu.blocks.as_slice(), cp as usize + bi);
                    let gb = get_or_zero(gpu.blocks.as_slice(), gp as usize + bi);
                    if is_mixed_word(cb) && is_mixed_word(gb) {
                        mixed_blocks = mixed_blocks + 1;
                    }
                    match block_finding_at(cpu, gpu, ci, cp, gp, bi) {
                        Some(f) => {
                            proof {
                                assert(blocks_walk(cpu, gpu, ci as int, cp as int, gp as int, (bi + 1) as nat)
                                    =~= seq![f]);
                                lemma_blocks_walk_first(
                                    cpu,
                                    gpu,
                                    ci as int,
                                    cp as int,
                                    gp as int,
                                    (bi + 1) as nat,
                                    64,
                                );
                                assert(world_walk(cpu, gpu, (ci + 1) as nat, true)[0] == f);
                                lemma_world_walk_first(cpu, gpu, (ci + 1) as nat, chunk_count as nat, true);
                            }
                            return FirstMismatch { mismatch: Some(f), mixed_chunks, mixed_blocks };
                        },
                        None => {
                            proof {
                                assert(blocks_walk(cpu, gpu, ci as int, cp as int, gp as int, (bi + 1) as nat)
                                    =~= Seq::<Finding>::empty());
                            }
                        },
                    }
                    bi = bi + 1;
                }
                proof {
                    lemma_mixed_blocks_in_bound(cpu, gpu, cp as int, gp as int, 64);
                }
            },
            (ChunkCell::UniformFull(a), ChunkCell::UniformFull(b)) => {
                if a != b {
                    let f = Finding { kind: FindingKind::ChunkValue, chunk: ci, block: 0, word: 0, cpu: cw, gpu: gw };
                    proof {
                        assert(world_walk(cpu, gpu, (ci + 1) as nat, true) =~= seq![f]);
                        lemma_world_walk_first(cpu, gpu, (ci + 1) as nat, chunk_count as nat, true);
                    }
                    return FirstMismatch { mismatch: Some(f), mixed_chunks, mixed_blocks };
                }
            },
            (ChunkCell::Empty(a), ChunkCell::Empty(b)) => {
                if a != b {
                    let f = Finding { kind: FindingKind::ChunkValue, chunk: ci, block: 0, word: 0, cpu: cw, gpu: gw };
                    proof {
                        assert(world_walk(cpu, gpu, (ci + 1) as nat, true) =~= seq![f]);
                        lemma_world_walk_first(cpu, gpu, (ci + 1) as nat, chunk_count as nat, true);
                    }
                    return FirstMismatch { mismatch: Some(f), mixed_chunks, mixed_blocks };
                }
            },
            _ => {},
        }
        proof {
            assert(world_walk(cpu, gpu, (ci + 1) as nat, true).len() == 0);
        }
        ci = ci + 1;
    }
    FirstMismatch { mismatch: None, mixed_chunks, mixed_blocks }
}

/// The length of the common prefix range of two buffers.
pub open spec fn common_len(a: Seq<u32>, b: Seq<u32>) -> int {
    if a.len() <= b.len() {
        a.len() as int
    } else {
        b.len() as int
    }
}

/// The first index at which two buffers differ, over the range both cover.
pub fn first_difference(a: &[u32], b: &[u32]) -> (r: Option<usize>)
    ensures
        match r {
            Some(i) => {
                &&& i < common_len(a@, b@)
                &&& a@[i as int] != b@[i as int]
                &&& forall|j: int| 0 <= j < i ==> a@[j] == b@[j]
            },
            None => forall|j: int| 0 <= j < common_len(a@, b@) ==> a@[j] == b@[j],
        },
{
    let n = if a.len() <= b.len() {
        a.len()
    } else {
        b.len()
    };
    let mut i: usize = 0;
    while i < n
        invariant
            n == common_len(a@, b@),
            i <= n,
            forall|j: int| 0 <= j < i ==> a@[j] == b@[j],
        decreases n - i,
    {
        if a[i] != b[i] {
            return Some(i);
        }
        i = i + 1;
    }
    None
}

/// How many of the first `n` indices hold different words in `a` and `b`.
pub open spec fn count_diff(a: Seq<u32>, b: Seq<u32>, n: nat) -> nat
    decreases n,
{
    if n == 0 {
        0
    } else {
        count_diff(a, b, (n - 1) as nat) + if a[n - 1] != b[n - 1] {
            1nat
        } else {
            0nat
        }
    }
}

/// How many indices, over the range both buffers cover, hold different
/// words.
pub fn count_differences(a: &[u32], b: &[u32]) -> (c: usize)
    ensures
        c == count_diff(a@, b@, common_len(a@, b@) as nat),
{
    let n = if a.len() <= b.len() {
        a.len()
    } else {
        b.len()
    };
    let mut c: usize = 0;
    let mut i: usize = 0;
    while i < n
        invariant
            n == common_len(a@, b@),
            i <= n,
            c <= i,
            c == count_diff(a@, b@, i as nat),
        decreases n - i,
    {
        if a[i] != b[i] {
            c = c + 1;
        }
        i = i + 1;
    }
    c
}

/// The first index `i` of `cpu` whose word differs from word `offset + i` of
/// `gpu` (0 past its end): the GPU buffers start with a seeded region that
/// the CPU oracle does not have.
pub fn first_difference_at(cpu: &[u32], gpu: &[u32], offset: usize) -> (r: Option<usize>)
    requires
        offset + cpu@.len() <= usize::MAX,
    ensures
        match r {
            Some(i) => {
                &&& i < cpu@.len()
                &&& cpu@[i as int] != word_or_zero(gpu@, offset + i)
                &&& forall|j: int| 0 <= j < i ==> cpu@[j] == word_or_zero(gpu@, offset + j)
            },
            None => forall|j: int| 0 <= j < cpu@.len() ==> cpu@[j] == word_or_zero(gpu@, offset + j),
        },
{
    let mut i: usize = 0;
    while i < cpu.len()
        invariant
            offset + cpu@.len() <= usize::MAX,
            i <= cpu@.len(),
            forall|j: int| 0 <= j < i ==> cpu@[j] == word_or_zero(gpu@, offset + j),
        decreases cpu@.len() - i,
    {
        if cpu[i] != get_or_zero(gpu, offset + i) {
            return Some(i);
        }
        i = i + 1;
    }
    None
}

/// Where a word of a generated segment buffer lies: the chunk of the group
/// (x, y, z), the block within the chunk, and the voxel-pair word within the
/// block.
#[derive(Clone, Copy, Debug, PartialEq, Eq)]
pub struct SegmentWordPos {
    /// The chunk of the group, x, y, z.
    pub group: [u32; 3],
    /// The block within the chunk.
    pub local_index: usize,
    /// The voxel-pair word within the block.
    pub pair_i: usize,
}

/// Locate word `i` of a segment buffer of a group `group_size_in_chunks`
/// chunks across: 2048 words per chunk, 32 per block.
pub fn locate_segment_word(i: usize, group_size_in_chunks: [u32; 3]) -> (p: SegmentWordPos)
    requires
        group_size_in_chunks[0] > 0,
        group_size_in_chunks[1] > 0,
        group_size_in_chunks[0] * group_size_in_chunks[1] <= u32::MAX,
    ensures
        ({
            let g = #[verifier::truncate] ((i / 2048) as u32);
            &&& p.group[0] == g % group_size_in_chunks[0]
            &&& p.group[1] == (g / group_size_in_chunks[0]) % group_size_in_chunks[1]
            &&& p.group[2] == g as int / (group_size_in_chunks[0] * group_size_in_chunks[1])
            &&& p.local_index == (i % 2048) / 32
            &&& p.pair_i == (i % 2048) % 32
        }),
{
    let group_index = i / 2048;
    let within = i % 2048;
    let g = #[verifier::truncate] (group_index as u32);
    let gx = g % group_size_in_chunks[0];
    let gy = (g / group_size_in_chunks[0]) % group_size_in_chunks[1];
    let layer = group_size_in_chunks[0] * group_size_in_chunks[1];
    assert(layer > 0) by (nonlinear_arith)
        requires
            layer == group_size_in_chunks[0] * group_size_in_chunks[1],
            group_size_in_chunks[0] > 0,
            group_size_in_chunks[1] > 0,
    ;
    let gz = g / layer;
    SegmentWordPos { group: [gx, gy, gz], local_index: within / 32, pair_i: within % 32 }
}

/// The word the GPU holds for oracle chunk word `w`: the same cell, with a
/// mixed chunk's block pointer moved past the GPU's 64 seeded block words.
pub open spec fn shifted_chunk_word(w: u32) -> u32 {
    match ChunkCell::spec_decode(w) {
        ChunkCell::Mixed(p) => ChunkCell::Mixed((p + 64) as u32).spec_encode(),
        c => c.spec_encode(),
    }
}

/// The word the GPU holds for oracle block word `w`: the same cell, with a
/// mixed block's voxel pointer moved past the GPU's 32 seeded voxel words.
pub open spec fn shifted_block_word(w: u32) -> u32 {
    match BlockCell::spec_decode(w) {
        BlockCell::Mixed(p) => BlockCell::Mixed((p + 32) as u32).spec_encode(),
        b => b.spec_encode(),
    }
}

/// The first word at which a GPU build differs from the CPU oracle moved
/// past the GPU's seeded words.
#[derive(Clone, Copy, Debug, PartialEq, Eq)]
pub enum OracleMismatch {
    /// Chunk word `index` differs from the expected word.
    Chunk { index: usize, gpu: u32, expected: u32 },
    /// Block word `index` (counted from the GPU buffer's start) differs.
    Block { index: usize, gpu: u32, expected: u32 },
    /// Voxel word `index` (counted from the GPU buffer's start) differs.
    Voxel { index: usize, gpu: u32, oracle: u32 },
}

/// Whether GPU chunk word `i` is the oracle's, shifted.
pub open spec fn chunk_agrees(oracle: &CellBuffers, gpu_chunks: Seq<u32>, i: int) -> bool {
    gpu_chunks[i] == shifted_chunk_word(oracle.chunks@[i])
}

/// Whether GPU block word `64 + i` is oracle block word `i`, shifted.
pub open spec fn block_agrees(oracle: &CellBuffers, gpu_blocks: Seq<u32>, i: int) -> bool {
    gpu_blocks[64 + i] == shifted_block_word(oracle.blocks@[i])
}

/// Whether GPU voxel word `32 + i` is oracle voxel word `i`.
pub open spec fn voxel_agrees(oracle: &CellBuffers, gpu_voxels: Seq<u32>, i: int) -> bool {
    gpu_voxels[32 + i] == oracle.voxels@[i]
}

/// The GPU word for an oracle chunk word.
fn shift_chunk_word(w: u32) -> (s: u32)
    ensures
        s == shifted_chunk_word(w),
{
    match ChunkCell::decode(w) {
        ChunkCell::Mixed(p) => ChunkCell::Mixed(p + 64).encode(),
        other => other.encode(),
    }
}

/// The GPU word for an oracle block word.
fn shift_block_word(w: u32) -> (s: u32)
    ensures
        s == shifted_block_word(w),
{
    match BlockCell::decode(w) {
        BlockCell::Mixed(p) => BlockCell::Mixed(p + 32).encode(),
        other => other.encode(),
    }
}

/// Moving an oracle word past the seeds keeps its cell: the kind is the
/// same, a non-mixed cell is unchanged, and a mixed cell points 64 block (or
/// 32 voxel) words further on, as long as the moved pointer fits 30 bits.
pub proof fn lemma_shift_keeps_cells(w: u32)
    ensures
        spec_chunk_kind(ChunkCell::spec_decode(shifted_chunk_word(w))) == spec_chunk_kind(
            ChunkCell::spec_decode(w),
        ),
        !(ChunkCell::spec_decode(w) is Mixed) ==> ChunkCell::spec_decode(shifted_chunk_word(w))
            == ChunkCell::spec_decode(w),
        ChunkCell::spec_decode(w) is Mixed && cell_pointer(w) + 64 < 0x4000_0000 ==> ChunkCell::spec_decode(
            shifted_chunk_word(w),
        ) == ChunkCell::Mixed((cell_pointer(w) + 64) as u32),
        spec_block_kind(BlockCell::spec_decode(shifted_block_word(w))) == spec_block_kind(
            BlockCell::spec_decode(w),
        ),
        !(BlockCell::spec_decode(w) is Mixed) ==> BlockCell::spec_decode(shifted_block_word(w))
            == BlockCell::spec_decode(w),
        BlockCell::spec_decode(w) is Mixed && cell_pointer(w) + 32 < 0x4000_0000 ==> BlockCell::spec_decode(
            shifted_block_word(w),
        ) == BlockCell::Mixed((cell_pointer(w) + 32) as u32),
{
    lemma_cell_word_round_trip(ChunkCell::spec_decode(w), BlockCell::spec_decode(w), w);
    match ChunkCell::spec_decode(w) {
        ChunkCell::Mixed(p) => {
            lemma_cell_word_round_trip(ChunkCell::Mixed((p + 64) as u32), BlockCell::Mixed((p + 32) as u32), w);
        },
        _ => {},
    }
}

/// Compare a GPU build of a world with its CPU oracle word for word, the
/// oracle moved past the GPU's seeds: every chunk word read back (mixed
/// chunks pointing 64 block words further), then every oracle block word
/// against the GPU's from word 64 on (mixed blocks pointing 32 voxel words
/// further), then every oracle voxel word against the GPU's from word 32 on.
/// The first difference is returned; otherwise the number of bytes compared.
pub fn compare_with_shifted_oracle(
    oracle: &CellBuffers,
    gpu_chunks: &[u32],
    gpu_blocks: &[u32],
    gpu_voxels: &[u32],
) -> (r: Result<usize, OracleMismatch>)
    requires
        gpu_chunks@.len() <= oracle.chunks@.len(),
        gpu_blocks@.len() >= oracle.blocks@.len() + 64,
        gpu_voxels@.len() >= oracle.voxels@.len() + 32,
        4 * (gpu_chunks@.len() + oracle.blocks@.len() + oracle.voxels@.len()) <= usize::MAX,
    ensures
        match r {
            Ok(n) => {
                &&& n == 4 * (gpu_chunks@.len() + oracle.blocks@.len() + oracle.voxels@.len())
                &&& forall|i: int| 0 <= i < gpu_chunks@.len() ==> chunk_agrees(oracle, gpu_chunks@, i)
                &&& forall|i: int| 0 <= i < oracle.blocks@.len() ==> block_agrees(oracle, gpu_blocks@, i)
                &&& forall|i: int| 0 <= i < oracle.voxels@.len() ==> voxel_agrees(oracle, gpu_voxels@, i)
            },
            Err(OracleMismatch::Chunk { index, gpu, expected }) => {
                &&& index < gpu_chunks@.len()
                &&& gpu == gpu_chunks@[index as int]
                &&& expected == shifted_chunk_word(oracle.chunks@[index as int])
                &&& gpu != expected
                &&& forall|i: int| 0 <= i < index ==> chunk_agrees(oracle, gpu_chunks@, i)
            },
            Err(OracleMismatch::Block { index, gpu, expected }) => {
                &&& 64 <= index < oracle.blocks@.len() + 64
                &&& gpu == gpu_blocks@[index as int]
                &&& expected == shifted_block_word(oracle.blocks@[index - 64])
                &&& gpu != expected
                &&& forall|i: int| 0 <= i < gpu_chunks@.len() ==> chunk_agrees(oracle, gpu_chunks@, i)
                &&& forall|i: int| 0 <= i < index - 64 ==> block_agrees(oracle, gpu_blocks@, i)
            },
            Err(OracleMismatch::Voxel { index, gpu, oracle: o }) => {
                &&& 32 <= index < oracle.voxels@.len() + 32
                &&& gpu == gpu_voxels@[index as int]
                &&& o == oracle.voxels@[index - 32]
                &&& gpu != o
                &&& forall|i: int| 0 <= i < gpu_chunks@.len() ==> chunk_agrees(oracle, gpu_chunks@, i)
                &&& forall|i: int| 0 <= i < oracle.blocks@.len() ==> block_agrees(oracle, gpu_blocks@, i)
                &&& forall|i: int| 0 <= i < index - 32 ==> voxel_agrees(oracle, gpu_voxels@, i)
            },
        },
{
    let mut i: usize = 0;
    while i < gpu_chunks.len()
        invariant
            i <= gpu_chunks@.len(),
            gpu_chunks@.len() <= oracle.chunks@.len(),
            forall|j: int| 0 <= j < i ==> chunk_agrees(oracle, gpu_chunks@, j),
        decreases gpu_chunks@.len() - i,
    {
        let expected = shift_chunk_word(oracle.chunks[i]);
        if gpu_chunks[i] != expected {
            return Err(OracleMismatch::Chunk { index: i, gpu: gpu_chunks[i], expected });
        }
        i = i + 1;
    }
    let gpu_block_count = gpu_blocks.len();
    let mut i: usize = 0;
    while i < oracle.blocks.len()
        invariant
            i <= oracle.blocks@.len(),
            gpu_block_count == gpu_blocks@.len(),
            gpu_blocks@.len() >= oracle.blocks@.len() + 64,
            forall|j: int| 0 <= j < gpu_chunks@.len() ==> chunk_agrees(oracle, gpu_chunks@, j),
            forall|j: int| 0 <= j < i ==> block_agrees(oracle, gpu_blocks@, j),
        decreases oracle.blocks@.len() - i,
    {
        let expected = shift_block_word(oracle.blocks[i]);
        let g = gpu_blocks[64 + i];
        if g != expected {
            return Err(OracleMismatch::Block { index: 64 + i, gpu: g, expected });
        }
        i = i + 1;
    }
    let gpu_voxel_count = gpu_voxels.len();
    let mut i: usize = 0;
    while i < oracle.voxels.len()
        invariant
            i <= oracle.voxels@.len(),
            gpu_voxel_count == gpu_voxels@.len(),
            gpu_voxels@.len() >= oracle.voxels@.len() + 32,
            forall|j: int| 0 <= j < gpu_chunks@.len() ==> chunk_agrees(oracle, gpu_chunks@, j),
            forall|j: int| 0 <= j < oracle.blocks@.len() ==> block_agrees(oracle, gpu_blocks@, j),
            forall|j: int| 0 <= j < i ==> voxel_agrees(oracle, gpu_voxels@, j),
        decreases oracle.voxels@.len() - i,
    {
        let g = gpu_voxels[32 + i];
        if g != oracle.voxels[i] {
            return Err(OracleMismatch::Voxel { index: 32 + i, gpu: g, oracle: oracle.voxels[i] });
        }
        i = i + 1;
    }
    Ok(4 * (gpu_chunks.len() + oracle.blocks.len() + oracle.voxels.len()))
}

} // verus!
