//! What the editor's overlays show: grid lines, reference blocks, pivots and
//! bones.

use vstd::prelude::*;

use crate::editor::parts::{live_parts, part_at, refs_view, Arena, PartModel, PartTree, Pivot};
use crate::editor::volume::VoxelModel;
use crate::editor::voxel_map::PartId;

verus! {

/// The fine lines among the first `n`: those not on a block border.
pub open spec fn fine_among(resolution: int, n: nat) -> Seq<i32> {
    Seq::new(n, |i: int| i as i32).filter(|i: i32| i as int % resolution != 0)
}

/// The lines of the fine platform grid, in sub-voxels from the edge. Lines on
/// block borders are drawn bolder and are not among them.
pub fn fine_lines(model: &VoxelModel) -> (v: Vec<i32>)
    requires
        model.wf(),
    ensures
        v@ == fine_among(model.spec_resolution() as int, (model.spec_extent() + 1) as nat),
{
    proof {
        model.lemma_extent();
    }
    let res: i32 = model.resolution() as i32;
    let end: i32 = model.extent();
    let mut v: Vec<i32> = Vec::new();
    let mut i: i32 = 0;
    proof {
        reveal(Seq::filter);
        assert(v@ =~= fine_among(res as int, 0));
    }
    while i <= end
        invariant
            0 <= i <= end + 1,
            4 <= end <= 128,
            4 <= res <= 32,
            v@ == fine_among(res as int, i as nat),
        decreases end + 1 - i,
    {
        let ghost before = Seq::new(i as nat, |k: int| k as i32);
        let ghost with = Seq::new((i + 1) as nat, |k: int| k as i32);
        proof {
            reveal(Seq::filter);
            assert(with.last() == i);
            assert(with.drop_last() =~= before);
        }
        if crate::grid::floor_mod(i, res) != 0 {
            v.push(i);
        }
        i += 1;
        assert(v@ =~= fine_among(res as int, i as nat));
    }
    v
}

/// The reference blocks with index below `n`, in x, y, z order; the first one is
/// the anchor.
pub open spec fn blocks_among(edge: int, n: nat) -> Seq<(u32, u32, u32)> {
    Seq::new(
        n,
        |k: int| ((k / (edge * edge)) as u32, (k / edge % edge) as u32, (k % edge) as u32),
    )
}

/// The min corners of the reference blocks of the build volume, in blocks.
pub fn reference_blocks(model: &VoxelModel) -> (v: Vec<(u32, u32, u32)>)
    requires
        model.wf(),
    ensures
        v@ == blocks_among(
            model.spec_blocks() as int,
            (model.spec_blocks() * model.spec_blocks() * model.spec_blocks()) as nat,
        ),
{
    proof {
        model.lemma_extent();
    }
    let e: u32 = model.blocks();
    assert(1 <= e * e <= 16 && 1 <= e * e * e <= 64) by (nonlinear_arith)
        requires
            1 <= e <= 4,
    ;
    let count: u32 = e * e * e;
    let mut v: Vec<(u32, u32, u32)> = Vec::new();
    let mut k: u32 = 0;
    assert(v@ =~= blocks_among(e as int, 0));
    while k < count
        invariant
            k <= count,
            1 <= e <= 4,
            1 <= e * e <= 16,
            v@ == blocks_among(e as int, k as nat),
        decreases count - k,
    {
        v.push((k / (e * e), k / e % e, k % e));
        k += 1;
        assert(v@ =~= blocks_among(e as int, k as nat));
    }
    v
}

/// A pivot to mark: where, whether it is the active part's, and the pivot of its
/// parent, to which a bone is drawn.
pub type PivotMark = (Pivot, bool, Option<Pivot>);

pub open spec fn mark_of(arena: Arena, p: PartModel, active: PartId) -> PivotMark {
    (
        p.pivot,
        p.id == active,
        match p.parent {
            Some(q) => match part_at(arena, q) {
                Some(parent) => Some(parent.pivot),
                None => None,
            },
            None => None,
        },
    )
}

/// The pivots of the live parts, in id order.
pub fn pivot_marks(tree: &PartTree, active: PartId) -> (v: Vec<PivotMark>)
    ensures
        v@ == live_parts(tree@).map_values(|p: PartModel| mark_of(tree@, p, active)),
{
    let parts = tree.iter();
    let ghost all = live_parts(tree@);
    let mut v: Vec<PivotMark> = Vec::new();
    let mut i: usize = 0;
    while i < parts.len()
        invariant
            i <= parts@.len(),
            all == refs_view(parts@),
            v@.len() == i,
            forall|k: int| 0 <= k < i ==> #[trigger] v@[k] == mark_of(tree@, all[k], active),
        decreases parts@.len() - i,
    {
        let p = parts[i];
        assert(all[i as int] == p@);
        let parent = match p.parent {
            Some(q) => match tree.get(q) {
                Some(parent) => Some(parent.pivot),
                None => None,
            },
            None => None,
        };
        v.push((p.pivot, p.id == active, parent));
        i += 1;
    }
    assert(v@ =~= all.map_values(|p: PartModel| mark_of(tree@, p, active)));
    v
}

/// The fine grid has a line at every step across the volume, edge to edge, but on the
/// borders of the blocks, in ascending order.
pub proof fn fine_lines_skip_block_borders(resolution: int, n: nat, line: i32)
    requires
        resolution > 0,
        n <= i32::MAX,
    ensures
        fine_among(resolution, n).contains(line) <==> 0 <= line < n && line as int % resolution
            != 0,
        forall|i: int, j: int|
            0 <= i < j < fine_among(resolution, n).len() ==> (#[trigger] fine_among(
                resolution,
                n,
            )[i]) < (#[trigger] fine_among(resolution, n)[j]),
    decreases n,
{
    reveal(Seq::filter);
    if n > 0 {
        let m = (n - 1) as nat;
        fine_lines_skip_block_borders(resolution, m, line);
        fine_lines_skip_block_borders(resolution, m, (n - 1) as i32);
        let with = Seq::new(n, |k: int| k as i32);
        assert(with.drop_last() =~= Seq::new(m, |k: int| k as i32));
        assert(with.last() == n - 1);
        let before = fine_among(resolution, m);
        let after = fine_among(resolution, n);
        assert(after == if (n - 1) % resolution != 0 {
            before.push((n - 1) as i32)
        } else {
            before
        });
        assert forall|i: int| 0 <= i < before.len() implies #[trigger] before[i] < n - 1 by {
            fine_lines_skip_block_borders(resolution, m, before[i]);
            assert(before.contains(before[i]));
        }
        if before.contains(line) {
            let k = before.index_of(line);
            assert(after[k] == line);
        }
        if line == n - 1 && (n - 1) % resolution != 0 {
            assert(after.last() == line);
        }
        if after.contains(line) {
            let k = after.index_of(line);
            if k < before.len() {
                assert(before[k] == line);
            }
        }
    }
}

/// The reference blocks fill the volume: each corner of the cube of blocks occurs, at
/// its own place, and nothing else does.
pub proof fn reference_blocks_fill_the_volume(edge: int, x: int, y: int, z: int)
    requires
        1 <= edge <= 4,
        0 <= x < edge,
        0 <= y < edge,
        0 <= z < edge,
    ensures
        0 <= (x * edge + y) * edge + z < edge * edge * edge,
        blocks_among(edge, (edge * edge * edge) as nat)[(x * edge + y) * edge + z] == (
            x as u32,
            y as u32,
            z as u32,
        ),
        blocks_among(edge, (edge * edge * edge) as nat).len() == edge * edge * edge,
{
    let k = (x * edge + y) * edge + z;
    assert(0 <= k < edge * edge * edge && k / (edge * edge) == x && k / edge % edge == y && k % edge
        == z) by (nonlinear_arith)
        requires
            k == (x * edge + y) * edge + z,
            edge == 1 || edge == 2 || edge == 3 || edge == 4,
            0 <= x < edge,
            0 <= y < edge,
            0 <= z < edge,
    ;
}

/// A mark shows a part's own pivot, is bold for the active part alone, and has a bone
/// to the pivot of the parent if there is a live one.
pub proof fn marks_show_pivots_and_bones(arena: Arena, p: PartModel, active: PartId)
    ensures
        mark_of(arena, p, active).0 == p.pivot,
        mark_of(arena, p, active).1 <==> p.id == active,
        p.parent is None ==> mark_of(arena, p, active).2 is None,
        p.parent matches Some(q) ==> match part_at(arena, q) {
            Some(parent) => mark_of(arena, p, active).2 == Some(parent.pivot),
            None => mark_of(arena, p, active).2 is None,
        },
{
}

} // verus!
