//! The regime-3 world-change node's dispatch plan: which of the four
//! `world_change` passes run this frame, in what order, and with how many
//! workgroups.

use vstd::prelude::*;

verus! {

/// One of the four world-change compute passes.
#[derive(Clone, Copy, Debug, PartialEq, Eq, Structural)]
pub enum WorldChangePass {
    /// `apply_chunk_change`: per-chunk cell edits.
    Chunk,
    /// `apply_block_change`: per-edit 64-block recompute.
    Block,
    /// `apply_voxel_change`: per-edit 64-voxel recompute.
    Voxel,
    /// `apply_group_change`: per-4³-group AADF reset and re-enqueue.
    Group,
}

/// One compute dispatch: a pass and its x workgroup count (y = z = 1).
#[derive(Clone, Copy, Debug, PartialEq, Eq, Structural)]
pub struct Dispatch {
    /// The pass.
    pub pass: WorldChangePass,
    /// Workgroups along x.
    pub workgroups: u32,
}

/// The per-frame edit counts the passes are dispatched for.
#[derive(Clone, Copy, Debug, PartialEq, Eq, Structural)]
pub struct ChangeCounts {
    /// Changed chunks.
    pub chunk: u32,
    /// 64-block edits.
    pub block: u32,
    /// 64-voxel edits.
    pub voxel: u32,
    /// Changed 4³-chunk groups.
    pub group: u32,
}

/// Workgroups for `apply_chunk_change`: one per 64 chunks, rounded up, and at
/// least one.
pub open spec fn spec_chunk_change_workgroups(count: u32) -> int {
    vstd::math::max((count + 63) / 64, 1)
}

/// Workgroups for `apply_chunk_change` over `count` chunks.
pub fn chunk_change_workgroups(count: u32) -> (w: u32)
    ensures
        w == spec_chunk_change_workgroups(count),
{
    let groups = count / 64 + if count % 64 != 0 {
        1
    } else {
        0
    };
    assert(groups == (count + 63) / 64);
    if groups < 1 {
        1
    } else {
        groups
    }
}

/// The passes a frame dispatches: none when GPU construction is off or no
/// edit is pending; otherwise chunk, block, voxel and group passes in that
/// order, each only when its count is non-zero — the chunk pass with one
/// workgroup per 64 chunks, the others with one workgroup per edit.
pub open spec fn spec_world_change_plan(enabled: bool, pending: bool, counts: ChangeCounts) -> Seq<Dispatch> {
    if !enabled || !pending {
        Seq::empty()
    } else {
        let c = if counts.chunk != 0 {
            seq![Dispatch { pass: WorldChangePass::Chunk, workgroups: spec_chunk_change_workgroups(counts.chunk) as u32 }]
        } else {
            Seq::empty()
        };
        let b = if counts.block != 0 {
            seq![Dispatch { pass: WorldChangePass::Block, workgroups: counts.block }]
        } else {
            Seq::empty()
        };
        let v = if counts.voxel != 0 {
            seq![Dispatch { pass: WorldChangePass::Voxel, workgroups: counts.voxel }]
        } else {
            Seq::empty()
        };
        let g = if counts.group != 0 {
            seq![Dispatch { pass: WorldChangePass::Group, workgroups: counts.group }]
        } else {
            Seq::empty()
        };
        c + b + v + g
    }
}

/// The dispatches of the world-change node for this frame.
pub fn world_change_plan(enabled: bool, pending: bool, counts: ChangeCounts) -> (plan: Vec<Dispatch>)
    ensures
        plan@ == spec_world_change_plan(enabled, pending, counts),
{
    let mut plan: Vec<Dispatch> = Vec::new();
    if !enabled || !pending {
        assert(plan@ =~= Seq::<Dispatch>::empty());
        return plan;
    }
    if counts.chunk != 0 {
        plan.push(Dispatch { pass: WorldChangePass::Chunk, workgroups: chunk_change_workgroups(counts.chunk) });
    }
    if counts.block != 0 {
        plan.push(Dispatch { pass: WorldChangePass::Block, workgroups: counts.block });
    }
    if counts.voxel != 0 {
        plan.push(Dispatch { pass: WorldChangePass::Voxel, workgroups: counts.voxel });
    }
    if counts.group != 0 {
        plan.push(Dispatch { pass: WorldChangePass::Group, workgroups: counts.group });
    }
    assert(plan@ =~= spec_world_change_plan(enabled, pending, counts));
    plan
}

/// The place of a pass in a frame: chunk, block, voxel, group.
pub open spec fn pass_rank(p: WorldChangePass) -> int {
    match p {
        WorldChangePass::Chunk => 0,
        WorldChangePass::Block => 1,
        WorldChangePass::Voxel => 2,
        WorldChangePass::Group => 3,
    }
}

/// The edit count a pass is dispatched for.
pub open spec fn pass_count(counts: ChangeCounts, p: WorldChangePass) -> u32 {
    match p {
        WorldChangePass::Chunk => counts.chunk,
        WorldChangePass::Block => counts.block,
        WorldChangePass::Voxel => counts.voxel,
        WorldChangePass::Group => counts.group,
    }
}

/// Whether the passes of `s` come in strictly increasing rank.
pub open spec fn passes_in_order(s: Seq<Dispatch>) -> bool {
    forall|i: int, j: int| 0 <= i < j < s.len() ==> pass_rank(#[trigger] s[i].pass) < pass_rank(#[trigger] s[j].pass)
}

proof fn lemma_in_order_concat(x: Seq<Dispatch>, y: Seq<Dispatch>, r: int)
    requires
        passes_in_order(x),
        passes_in_order(y),
        forall|i: int| 0 <= i < x.len() ==> pass_rank(#[trigger] x[i].pass) < r,
        forall|j: int| 0 <= j < y.len() ==> pass_rank(#[trigger] y[j].pass) >= r,
    ensures
        passes_in_order(x + y),
{
    let s = x + y;
    assert forall|i: int, j: int| 0 <= i < j < s.len() implies pass_rank(#[trigger] s[i].pass) < pass_rank(
        #[trigger] s[j].pass,
    ) by {
        if j < x.len() {
            assert(s[i] == x[i] && s[j] == x[j]);
        } else if i >= x.len() {
            assert(s[i] == y[i - x.len()] && s[j] == y[j - x.len()]);
        } else {
            assert(s[i] == x[i] && s[j] == y[j - x.len()]);
        }
    }
}

/// The world-change plan runs each pass at most once, in the order chunk,
/// block, voxel, group; it runs exactly the passes with a non-zero count
/// (none when construction is off or nothing is pending), each with its own
/// count as workgroups except the chunk pass, which takes one workgroup per
/// 64 chunks.
pub proof fn lemma_world_change_plan_order(enabled: bool, pending: bool, counts: ChangeCounts)
    ensures
        ({
            let plan = spec_world_change_plan(enabled, pending, counts);
            &&& passes_in_order(plan)
            &&& plan.len() == if enabled && pending {
                (if counts.chunk != 0 { 1int } else { 0int }) + (if counts.block != 0 { 1int } else { 0int }) + (
                if counts.voxel != 0 { 1int } else { 0int }) + (if counts.group != 0 { 1int } else { 0int })
            } else {
                0
            }
            &&& forall|i: int|
                0 <= i < plan.len() ==> pass_count(counts, #[trigger] plan[i].pass) != 0 && plan[i].workgroups == (
                if plan[i].pass == WorldChangePass::Chunk {
                    spec_chunk_change_workgroups(counts.chunk)
                } else {
                    pass_count(counts, plan[i].pass) as int
                })
        }),
{
    if enabled && pending {
        let c = if counts.chunk != 0 {
            seq![Dispatch { pass: WorldChangePass::Chunk, workgroups: spec_chunk_change_workgroups(counts.chunk) as u32 }]
        } else {
            Seq::empty()
        };
        let b = if counts.block != 0 {
            seq![Dispatch { pass: WorldChangePass::Block, workgroups: counts.block }]
        } else {
            Seq::empty()
        };
        let v = if counts.voxel != 0 {
            seq![Dispatch { pass: WorldChangePass::Voxel, workgroups: counts.voxel }]
        } else {
            Seq::empty()
        };
        let g = if counts.group != 0 {
            seq![Dispatch { pass: WorldChangePass::Group, workgroups: counts.group }]
        } else {
            Seq::empty()
        };
        assert(spec_chunk_change_workgroups(counts.chunk) <= u32::MAX);
        lemma_in_order_concat(c, b, 1);
        let cb = c + b;
        assert forall|i: int| 0 <= i < cb.len() implies pass_rank(#[trigger] cb[i].pass) < 2 by {
            if i < c.len() {
                assert(cb[i] == c[i]);
            } else {
                assert(cb[i] == b[i - c.len()]);
            }
        }
        lemma_in_order_concat(cb, v, 2);
        let cbv = cb + v;
        assert forall|i: int| 0 <= i < cbv.len() implies pass_rank(#[trigger] cbv[i].pass) < 3 by {
            if i < cb.len() {
                assert(cbv[i] == cb[i]);
            } else {
                assert(cbv[i] == v[i - cb.len()]);
            }
        }
        lemma_in_order_concat(cbv, g, 3);
        let plan = cbv + g;
        assert(plan == spec_world_change_plan(enabled, pending, counts));
        assert forall|i: int| 0 <= i < plan.len() implies pass_count(counts, #[trigger] plan[i].pass) != 0
            && plan[i].workgroups == (if plan[i].pass == WorldChangePass::Chunk {
            spec_chunk_change_workgroups(counts.chunk)
        } else {
            pass_count(counts, plan[i].pass) as int
        }) by {
            if i < c.len() {
                assert(plan[i] == c[i]);
            } else if i < cb.len() {
                assert(plan[i] == b[i - c.len()]);
            } else if i < cbv.len() {
                assert(plan[i] == v[i - cb.len()]);
            } else {
                assert(plan[i] == g[i - cbv.len()]);
            }
        }
    }
}

/// The chunk pass's workgroups of 64 threads cover every changed chunk with
/// no workgroup to spare, and there is always at least one.
pub proof fn lemma_chunk_workgroups_cover(count: u32)
    ensures
        spec_chunk_change_workgroups(count) >= 1,
        spec_chunk_change_workgroups(count) * 64 >= count,
        (spec_chunk_change_workgroups(count) - 1) * 64 < vstd::math::max(count as int, 1),
{
}

} // verus!
