//! The editable sub-voxel data model.
//!
//! A [`VoxelModel`] is a sparse grid of colored sub-voxels spread across an
//! `N×N×N` arrangement of reference blocks, where each block is one in-game
//! `1×1×1` world voxel subdivided into `resolution³` sub-voxels. Each sub-voxel
//! records the palette color that paints it and the body part it belongs to.

use vstd::prelude::*;

use crate::editor::voxel_map::{Cell, PartId, Voxel, VoxelMap};
use crate::grid_map::lists;

verus! {

/// Lowest sub-voxel resolution offered (sub-voxels per block edge).
pub const RESOLUTION_MIN: u32 = 4;

/// Highest sub-voxel resolution offered.
pub const RESOLUTION_MAX: u32 = 32;

/// Default sub-voxel resolution for a fresh model.
pub const DEFAULT_RESOLUTION: u32 = 16;

/// The smallest multi-block extent (a single reference block).
pub const BLOCKS_MIN: u32 = 1;

/// The largest multi-block extent offered.
pub const BLOCKS_MAX: u32 = 4;

/// The resolutions the UI lets the user pick (sub-voxels per block edge).
pub fn resolution_choices() -> (c: [u32; 4])
    ensures
        c@ == seq![8u32, 16u32, 24u32, 32u32],
{
    let c: [u32; 4] = [8, 16, 24, 32];
    assert(c@ =~= seq![8u32, 16u32, 24u32, 32u32]);
    c
}

/// `v` limited to `lo..=hi`.
pub open spec fn clamped(v: int, lo: int, hi: int) -> int {
    if v < lo {
        lo
    } else if v > hi {
        hi
    } else {
        v
    }
}

pub fn clamp_u32(v: u32, lo: u32, hi: u32) -> (r: u32)
    requires
        lo <= hi,
    ensures
        r == clamped(v as int, lo as int, hi as int),
{
    if v < lo {
        lo
    } else if v > hi {
        hi
    } else {
        v
    }
}

/// `cell` lies in a cube of `extent` cells per edge.
pub open spec fn inside(cell: Cell, extent: int) -> bool {
    0 <= cell.x < extent && 0 <= cell.y < extent && 0 <= cell.z < extent
}

/// Every voxel lies in a cube of `extent` cells per edge.
pub open spec fn all_inside(m: Map<Cell, Voxel>, extent: int) -> bool {
    forall|c: Cell| #[trigger] m.contains_key(c) ==> inside(c, extent)
}

/// `min` and `max` are the least and the greatest coordinates that occur.
pub open spec fn tight_bounds(m: Map<Cell, Voxel>, min: Cell, max: Cell) -> bool {
    &&& forall|c: Cell| #[trigger]
        m.contains_key(c) ==> min.x <= c.x <= max.x && min.y <= c.y <= max.y && min.z <= c.z
            <= max.z
    &&& exists|c: Cell| #[trigger] m.contains_key(c) && c.x == min.x
    &&& exists|c: Cell| #[trigger] m.contains_key(c) && c.y == min.y
    &&& exists|c: Cell| #[trigger] m.contains_key(c) && c.z == min.z
    &&& exists|c: Cell| #[trigger] m.contains_key(c) && c.x == max.x
    &&& exists|c: Cell| #[trigger] m.contains_key(c) && c.y == max.y
    &&& exists|c: Cell| #[trigger] m.contains_key(c) && c.z == max.z
}

/// The voxels that satisfy a test on their cell and value.
pub open spec fn selected(m: Map<Cell, Voxel>, keep: spec_fn(Cell, Voxel) -> bool) -> Map<
    Cell,
    Voxel,
> {
    Map::new(|c: Cell| m.contains_key(c) && keep(c, m[c]), |c: Cell| m[c])
}

/// The voxels that belong to a part.
pub open spec fn of_part(m: Map<Cell, Voxel>, part: PartId) -> Map<Cell, Voxel> {
    selected(m, |c: Cell, v: Voxel| v.part == part)
}

/// The voxels that do not belong to a part.
pub open spec fn without_part(m: Map<Cell, Voxel>, part: PartId) -> Map<Cell, Voxel> {
    selected(m, |c: Cell, v: Voxel| v.part != part)
}

/// The voxels that lie in a cube of `extent` cells per edge.
pub open spec fn cropped(m: Map<Cell, Voxel>, extent: int) -> Map<Cell, Voxel> {
    selected(m, |c: Cell, v: Voxel| inside(c, extent))
}

/// The full editable model: a sparse sub-voxel grid plus the extent metadata
/// that defines its coordinate space.
#[derive(Debug)]
pub struct VoxelModel {
    /// Sub-voxels per reference-block edge (uniform on all axes).
    resolution: u32,
    /// Reference-block count per edge.
    blocks: u32,
    /// Sparse placed sub-voxels.
    voxels: VoxelMap,
}

impl View for VoxelModel {
    type V = Map<Cell, Voxel>;

    closed spec fn view(&self) -> Map<Cell, Voxel> {
        self.voxels@
    }
}

impl VoxelModel {
    pub closed spec fn spec_resolution(&self) -> u32 {
        self.resolution
    }

    pub closed spec fn spec_blocks(&self) -> u32 {
        self.blocks
    }

    pub open spec fn spec_extent(&self) -> int {
        self.spec_resolution() * self.spec_blocks()
    }

    /// Resolution and extent are in the supported ranges, and every voxel lies
    /// in the build volume.
    pub closed spec fn wf(&self) -> bool {
        &&& RESOLUTION_MIN <= self.resolution <= RESOLUTION_MAX
        &&& BLOCKS_MIN <= self.blocks <= BLOCKS_MAX
        &&& self.voxels.wf()
        &&& all_inside(self.voxels@, self.resolution * self.blocks)
    }

    /// Every voxel lies in the build volume.
    pub(crate) proof fn lemma_all_inside(&self)
        requires
            self.wf(),
        ensures
            all_inside(self@, self.spec_extent()),
    {
    }

    /// The extent is between one coarse block and four fine ones.
    pub(crate) proof fn lemma_extent(&self)
        requires
            self.wf(),
        ensures
            RESOLUTION_MIN <= self.spec_resolution() <= RESOLUTION_MAX,
            BLOCKS_MIN <= self.spec_blocks() <= BLOCKS_MAX,
            4 <= self.spec_extent() <= 128,
    {
        assert(4 <= self.resolution * self.blocks <= 128) by (nonlinear_arith)
            requires
                4 <= self.resolution <= 32,
                1 <= self.blocks <= 4,
        ;
    }

    /// Create an empty model at the given resolution and block extent, clamped
    /// to the supported ranges.
    pub fn new(resolution: u32, blocks: u32) -> (m: VoxelModel)
        ensures
            m.wf(),
            m@ == Map::<Cell, Voxel>::empty(),
            m.spec_resolution() == clamped(
                resolution as int,
                RESOLUTION_MIN as int,
                RESOLUTION_MAX as int,
            ),
            m.spec_blocks() == clamped(blocks as int, BLOCKS_MIN as int, BLOCKS_MAX as int),
    {
        VoxelModel {
            resolution: clamp_u32(resolution, RESOLUTION_MIN, RESOLUTION_MAX),
            blocks: clamp_u32(blocks, BLOCKS_MIN, BLOCKS_MAX),
            voxels: VoxelMap::new(),
        }
    }

    /// Sub-voxels per reference-block edge.
    pub fn resolution(&self) -> (r: u32)
        ensures
            r == self.spec_resolution(),
    {
        self.resolution
    }

    /// Reference-block count per edge.
    pub fn blocks(&self) -> (b: u32)
        ensures
            b == self.spec_blocks(),
    {
        self.blocks
    }

    /// Total sub-voxel cells per axis (`resolution * blocks`); the exclusive
    /// upper bound for a valid [`Cell`] component.
    pub fn extent(&self) -> (e: i32)
        requires
            self.wf(),
        ensures
            e == self.spec_extent(),
            4 <= e <= 128,
    {
        proof {
            self.lemma_extent();
        }
        (self.resolution * self.blocks) as i32
    }

    /// `true` if `cell` lies inside the build volume on every axis.
    pub fn in_bounds(&self, cell: Cell) -> (r: bool)
        requires
            self.wf(),
        ensures
            r == inside(cell, self.spec_extent()),
    {
        let e: i32 = self.extent();
        0 <= cell.x && cell.x < e && 0 <= cell.y && cell.y < e && 0 <= cell.z && cell.z < e
    }

    /// Read the sub-voxel at `cell`, if any.
    pub fn get(&self, cell: Cell) -> (v: Option<Voxel>)
        ensures
            v == (if self@.contains_key(cell) {
                Some(self@[cell])
            } else {
                None
            }),
    {
        self.voxels.get(cell)
    }

    /// `true` if a sub-voxel is present at `cell`.
    pub fn is_solid(&self, cell: Cell) -> (r: bool)
        ensures
            r == self@.contains_key(cell),
    {
        self.voxels.get(cell).is_some()
    }

    /// Place (or overwrite) a sub-voxel. Out-of-bounds cells are ignored so the
    /// caller never has to pre-validate. Returns `true` if the grid changed.
    pub fn set(&mut self, cell: Cell, voxel: Voxel) -> (changed: bool)
        requires
            old(self).wf(),
        ensures
            final(self).wf(),
            final(self).spec_resolution() == old(self).spec_resolution(),
            final(self).spec_blocks() == old(self).spec_blocks(),
            final(self)@ == (if inside(cell, old(self).spec_extent()) {
                old(self)@.insert(cell, voxel)
            } else {
                old(self)@
            }),
            changed == (final(self)@ != old(self)@),
    {
        if !self.in_bounds(cell) {
            return false;
        }
        let before = self.voxels.insert(cell, voxel);
        match before {
            Some(v) => {
                let same = v.color == voxel.color && v.part.0 == voxel.part.0;
                proof {
                    if same {
                        assert(self@ =~= old(self)@);
                    } else {
                        assert(self@[cell] != old(self)@[cell]);
                    }
                }
                !same
            },
            None => {
                assert(self@.contains_key(cell));
                true
            },
        }
    }

    /// Erase the sub-voxel at `cell`. Returns `true` if one was removed.
    pub fn clear(&mut self, cell: Cell) -> (removed: bool)
        requires
            old(self).wf(),
        ensures
            final(self).wf(),
            final(self).spec_resolution() == old(self).spec_resolution(),
            final(self).spec_blocks() == old(self).spec_blocks(),
            final(self)@ == old(self)@.remove(cell),
            removed == old(self)@.contains_key(cell),
    {
        self.voxels.remove(cell)
    }

    /// Every placed sub-voxel as `(cell, voxel)` pairs, in no particular order.
    pub fn iter(&self) -> (list: Vec<(Cell, Voxel)>)
        requires
            self.wf(),
        ensures
            lists(list@, self@),
    {
        self.voxels.to_vec()
    }

    /// Number of placed sub-voxels in the whole model.
    pub fn voxel_count(&self) -> (n: usize)
        requires
            self.wf(),
        ensures
            n == self@.dom().len(),
    {
        self.voxels.len()
    }

    /// Number of placed sub-voxels belonging to one body part.
    pub fn part_voxel_count(&self, part: PartId) -> (n: usize)
        requires
            self.wf(),
        ensures
            n == of_part(self@, part).dom().len(),
    {
        let list = self.voxels.to_vec();
        let mut n: usize = 0;
        let mut i: usize = 0;
        let ghost mut seen: Set<Cell> = Set::empty();
        while i < list.len()
            invariant
                i <= list@.len(),
                lists(list@, self@),
                n <= i,
                seen.finite(),
                seen.len() == n,
                forall|c: Cell|
                    seen.contains(c) <==> exists|k: int|
                        0 <= k < i && (#[trigger] list@[k]).0 == c && list@[k].1.part == part,
            decreases list@.len() - i,
        {
            let ghost was = seen;
            if list[i].1.part == part {
                assert(!seen.contains(list@[i as int].0));
                proof {
                    seen = seen.insert(list@[i as int].0);
                }
                n += 1;
            }
            i += 1;
            proof {
                assert forall|c: Cell|
                    seen.contains(c) <==> exists|k: int|
                        0 <= k < i && (#[trigger] list@[k]).0 == c && list@[k].1.part == part by {
                    if seen.contains(c) {
                        if was.contains(c) {
                            let k = choose|k: int|
                                0 <= k < i - 1 && (#[trigger] list@[k]).0 == c && list@[k].1.part
                                    == part;
                            assert(list@[k].0 == c);
                        } else {
                            assert(list@[i - 1].0 == c);
                        }
                    }
                }
            }
        }
        assert(of_part(self@, part).dom() =~= seen);
        n
    }

    /// Drop every sub-voxel tagged with `part` (used when a part is deleted from
    /// the rig so the geometry can't outlive its owner).
    pub fn remove_part(&mut self, part: PartId)
        requires
            old(self).wf(),
        ensures
            final(self).wf(),
            final(self).spec_resolution() == old(self).spec_resolution(),
            final(self).spec_blocks() == old(self).spec_blocks(),
            final(self)@ == without_part(old(self)@, part),
    {
        let list = self.voxels.to_vec();
        let mut kept = VoxelMap::new();
        let mut i: usize = 0;
        while i < list.len()
            invariant
                i <= list@.len(),
                lists(list@, self@),
                kept.wf(),
                forall|c: Cell| #[trigger]
                    kept@.contains_key(c) ==> without_part(self@, part).contains_key(c) && kept@[c]
                        == self@[c],
                forall|k: int|
                    0 <= k < i && (#[trigger] list@[k]).1.part != part ==> kept@.contains_key(
                        list@[k].0,
                    ),
            decreases list@.len() - i,
        {
            if list[i].1.part != part {
                kept.insert(list[i].0, list[i].1);
            }
            i += 1;
        }
        assert(kept@ =~= without_part(self@, part));
        self.voxels = kept;
    }

    /// Erase all geometry, keeping the resolution/extent.
    pub fn clear_all(&mut self)
        requires
            old(self).wf(),
        ensures
            final(self).wf(),
            final(self).spec_resolution() == old(self).spec_resolution(),
            final(self).spec_blocks() == old(self).spec_blocks(),
            final(self)@ == Map::<Cell, Voxel>::empty(),
    {
        self.voxels = VoxelMap::new();
    }

    /// Replace the whole sub-voxel set (used on load) by one that fits the
    /// build volume.
    pub fn replace_voxels(&mut self, voxels: VoxelMap)
        requires
            old(self).wf(),
            voxels.wf(),
            all_inside(voxels@, old(self).spec_extent()),
        ensures
            final(self).wf(),
            final(self).spec_resolution() == old(self).spec_resolution(),
            final(self).spec_blocks() == old(self).spec_blocks(),
            final(self)@ == voxels@,
    {
        self.voxels = voxels;
    }

    /// The inclusive min/max occupied cell on each axis, or `None` if empty.
    pub fn occupied_bounds(&self) -> (b: Option<(Cell, Cell)>)
        requires
            self.wf(),
        ensures
            match b {
                Some((min, max)) => tight_bounds(self@, min, max),
                None => self@ == Map::<Cell, Voxel>::empty(),
            },
    {
        let list = self.voxels.to_vec();
        if list.len() == 0 {
            assert(self@ =~= Map::<Cell, Voxel>::empty());
            return None;
        }
        let first = list[0].0;
        let mut min = first;
        let mut max = first;
        let mut i: usize = 1;
        let ghost mut w: (Cell, Cell, Cell, Cell, Cell, Cell) = (
            first,
            first,
            first,
            first,
            first,
            first,
        );
        while i < list.len()
            invariant
                1 <= i <= list@.len(),
                lists(list@, self@),
                forall|k: int|
                    0 <= k < i ==> {
                        let c = (#[trigger] list@[k]).0;
                        min.x <= c.x <= max.x && min.y <= c.y <= max.y && min.z <= c.z <= max.z
                    },
                self@.contains_key(w.0) && w.0.x == min.x,
                self@.contains_key(w.1) && w.1.y == min.y,
                self@.contains_key(w.2) && w.2.z == min.z,
                self@.contains_key(w.3) && w.3.x == max.x,
                self@.contains_key(w.4) && w.4.y == max.y,
                self@.contains_key(w.5) && w.5.z == max.z,
            decreases list@.len() - i,
        {
            let c = list[i].0;
            if c.x < min.x {
                min.x = c.x;
                proof {
                    w.0 = c;
                }
            }
            if c.y < min.y {
                min.y = c.y;
                proof {
                    w.1 = c;
                }
            }
            if c.z < min.z {
                min.z = c.z;
                proof {
                    w.2 = c;
                }
            }
            if c.x > max.x {
                max.x = c.x;
                proof {
                    w.3 = c;
                }
            }
            if c.y > max.y {
                max.y = c.y;
                proof {
                    w.4 = c;
                }
            }
            if c.z > max.z {
                max.z = c.z;
                proof {
                    w.5 = c;
                }
            }
            i += 1;
        }
        Some((min, max))
    }

    /// A model of `blocks` per edge with every voxel of `self` that fits it.
    pub fn resized(&self, blocks: u32) -> (m: VoxelModel)
        requires
            self.wf(),
        ensures
            m.wf(),
            m.spec_resolution() == self.spec_resolution(),
            m.spec_blocks() == clamped(blocks as int, BLOCKS_MIN as int, BLOCKS_MAX as int),
            m@ == cropped(self@, m.spec_extent()),
    {
        let mut m = VoxelModel::new(self.resolution, blocks);
        let list = self.voxels.to_vec();
        let ghost e = m.spec_extent();
        let mut i: usize = 0;
        while i < list.len()
            invariant
                i <= list@.len(),
                lists(list@, self@),
                m.wf(),
                e == m.spec_extent(),
                m.spec_resolution() == self.spec_resolution(),
                m.spec_blocks() == clamped(blocks as int, BLOCKS_MIN as int, BLOCKS_MAX as int),
                forall|c: Cell| #[trigger]
                    m@.contains_key(c) ==> cropped(self@, e).contains_key(c) && m@[c] == self@[c],
                forall|k: int|
                    0 <= k < i && inside((#[trigger] list@[k]).0, e) ==> m@.contains_key(
                        list@[k].0,
                    ),
            decreases list@.len() - i,
        {
            m.set(list[i].0, list[i].1);
            i += 1;
        }
        assert(m@ =~= cropped(self@, e));
        m
    }
}

impl Default for VoxelModel {
    fn default() -> (m: VoxelModel)
        ensures
            m.wf(),
            m@ == Map::<Cell, Voxel>::empty(),
            m.spec_resolution() == DEFAULT_RESOLUTION,
            m.spec_blocks() == BLOCKS_MIN,
            m.spec_extent() == 16,
    {
        VoxelModel::new(DEFAULT_RESOLUTION, BLOCKS_MIN)
    }
}

/// Deleting a part leaves none of its voxels and all of the others'.
pub proof fn remove_part_leaves_none(m: Map<Cell, Voxel>, part: PartId, other: PartId)
    ensures
        of_part(without_part(m, part), part) == Map::<Cell, Voxel>::empty(),
        other != part ==> of_part(without_part(m, part), other) == of_part(m, other),
{
    assert(of_part(without_part(m, part), part) =~= Map::<Cell, Voxel>::empty());
    if other != part {
        assert(of_part(without_part(m, part), other) =~= of_part(m, other));
    }
}

/// A limited value lies between the limits, is the value itself where that does,
/// and is otherwise the nearer limit.
pub proof fn limits_move_values_least(v: int, lo: int, hi: int, other: int)
    requires
        lo <= hi,
        lo <= other <= hi,
    ensures
        lo <= clamped(v, lo, hi) <= hi,
        lo <= v <= hi ==> clamped(v, lo, hi) == v,
        v < lo ==> clamped(v, lo, hi) == lo,
        v > hi ==> clamped(v, lo, hi) == hi,
{
}

/// A smaller build volume keeps every voxel that still fits as it was, and drops the
/// rest.
pub proof fn cropping_keeps_what_fits(m: Map<Cell, Voxel>, extent: int, c: Cell)
    ensures
        cropped(m, extent).contains_key(c) <==> m.contains_key(c) && 0 <= c.x < extent && 0 <= c.y
            < extent && 0 <= c.z < extent,
        cropped(m, extent).contains_key(c) ==> cropped(m, extent)[c] == m[c],
{
}

/// The voxels of a part and the others split the model: each voxel is in one of the
/// two, unchanged.
pub proof fn parts_split_the_model(m: Map<Cell, Voxel>, part: PartId, c: Cell)
    ensures
        of_part(m, part).contains_key(c) <==> m.contains_key(c) && m[c].part == part,
        without_part(m, part).contains_key(c) <==> m.contains_key(c) && m[c].part != part,
        of_part(m, part).contains_key(c) ==> of_part(m, part)[c] == m[c],
        without_part(m, part).contains_key(c) ==> without_part(m, part)[c] == m[c],
        m == of_part(m, part).union_prefer_right(without_part(m, part)),
{
    assert(m =~= of_part(m, part).union_prefer_right(without_part(m, part)));
}

/// The bounds of the occupied cells are unique: no smaller box holds every voxel.
pub proof fn bounds_are_the_smallest_box(
    m: Map<Cell, Voxel>,
    min: Cell,
    max: Cell,
    lo: Cell,
    hi: Cell,
)
    requires
        tight_bounds(m, min, max),
        forall|c: Cell| #[trigger]
            m.contains_key(c) ==> lo.x <= c.x <= hi.x && lo.y <= c.y <= hi.y && lo.z <= c.z <= hi.z,
    ensures
        lo.x <= min.x <= max.x <= hi.x,
        lo.y <= min.y <= max.y <= hi.y,
        lo.z <= min.z <= max.z <= hi.z,
        forall|c: Cell| #[trigger]
            m.contains_key(c) ==> min.x <= c.x <= max.x && min.y <= c.y <= max.y && min.z <= c.z
                <= max.z,
{
}

/// The build volume of a model is from 4 to 128 cells per edge, and holds every
/// voxel.
pub proof fn volumes_hold_their_voxels(model: VoxelModel, c: Cell)
    requires
        model.wf(),
    ensures
        4 <= model.spec_extent() <= 128,
        4 <= model.spec_resolution() <= 32,
        1 <= model.spec_blocks() <= 4,
        model@.contains_key(c) ==> 0 <= c.x < model.spec_extent() && 0 <= c.y < model.spec_extent()
            && 0 <= c.z < model.spec_extent(),
{
    model.lemma_extent();
}

} // verus!
