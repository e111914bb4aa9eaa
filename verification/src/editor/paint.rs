//! Click-to-paint interaction: turn a cursor click into a sub-voxel edit.
//!
//! The cursor ray is marched through the sub-voxel grid cell by cell. The
//! caller says in which cell the ray starts, which way it runs along each axis,
//! and the axis of each border it crosses; the march finds the first solid cell.

use vstd::prelude::*;

use crate::editor::state::{
    brush, same_project, same_selection, same_view, EditorState, Tool,
};
use crate::editor::volume::{inside, VoxelModel};
use crate::editor::voxel_map::{Cell, Voxel};
use crate::grid::IVec3;

verus! {

/// An axis of the grid.
#[derive(Clone, Copy, Debug, PartialEq, Eq, Structural)]
pub enum Axis {
    X,
    Y,
    Z,
}

/// Result of a successful grid raycast: the first solid cell hit and the empty
/// cell adjacent to the face that was crossed (where a paint would go).
#[derive(Clone, Copy, Debug, PartialEq, Eq, Structural)]
pub struct RayHit {
    /// The first solid sub-voxel the ray entered.
    pub solid_cell: Cell,
    /// The empty neighbor across the entered face: the paint target. `None` if
    /// that neighbor lies outside the build volume, or the ray starts inside a
    /// solid and so enters no face.
    pub place_cell: Option<Cell>,
}

/// A position on the way of a ray.
pub type Place = (int, int, int);

/// The position after the first `k` borders were crossed.
pub open spec fn place_after(start: IVec3, step: IVec3, axes: Seq<Axis>, k: int) -> Place
    decreases k,
{
    if k <= 0 {
        (start.x as int, start.y as int, start.z as int)
    } else {
        let p = place_after(start, step, axes, k - 1);
        match axes[k - 1] {
            Axis::X => (p.0 + step.x, p.1, p.2),
            Axis::Y => (p.0, p.1 + step.y, p.2),
            Axis::Z => (p.0, p.1, p.2 + step.z),
        }
    }
}

pub open spec fn place_inside(p: Place, extent: int) -> bool {
    0 <= p.0 < extent && 0 <= p.1 < extent && 0 <= p.2 < extent
}

/// The cell of a position in the build volume.
pub open spec fn cell_of(p: Place) -> Cell {
    Cell { x: p.0 as i32, y: p.1 as i32, z: p.2 as i32 }
}

/// The position holds a voxel of the build volume.
pub open spec fn solid_at(m: Map<Cell, Voxel>, extent: int, p: Place) -> bool {
    place_inside(p, extent) && m.contains_key(cell_of(p))
}

/// The position has left the volume on an axis along which it moves away.
pub open spec fn gone_past(p: Place, step: IVec3, extent: int) -> bool {
    ||| step.x > 0 && p.0 >= extent
    ||| step.x < 0 && p.0 < 0
    ||| step.y > 0 && p.1 >= extent
    ||| step.y < 0 && p.1 < 0
    ||| step.z > 0 && p.2 >= extent
    ||| step.z < 0 && p.2 < 0
}

/// The `k`-th position is the first solid one.
pub open spec fn first_solid(
    m: Map<Cell, Voxel>,
    extent: int,
    start: IVec3,
    step: IVec3,
    axes: Seq<Axis>,
    k: int,
) -> bool {
    &&& 0 <= k < axes.len()
    &&& solid_at(m, extent, place_after(start, step, axes, k))
    &&& forall|j: int| 0 <= j < k ==> !solid_at(m, extent, #[trigger] place_after(start, step, axes, j))
}

/// What the march returns when the `k`-th position is the first solid one.
pub open spec fn hit_at(start: IVec3, step: IVec3, axes: Seq<Axis>, extent: int, k: int) -> RayHit {
    let before = place_after(start, step, axes, k - 1);
    RayHit {
        solid_cell: cell_of(place_after(start, step, axes, k)),
        place_cell: if k > 0 && place_inside(before, extent) {
            Some(cell_of(before))
        } else {
            None
        },
    }
}

/// The components of a step direction.
pub open spec fn is_step(step: IVec3) -> bool {
    -1 <= step.x <= 1 && -1 <= step.y <= 1 && -1 <= step.z <= 1
}

/// `true` if `cell` is inside `[0, extent)` on every axis.
pub fn in_bounds(cell: IVec3, extent: i32) -> (r: bool)
    ensures
        r == place_inside((cell.x as int, cell.y as int, cell.z as int), extent as int),
{
    0 <= cell.x && cell.x < extent && 0 <= cell.y && cell.y < extent && 0 <= cell.z && cell.z
        < extent
}

/// `true` once the marching cell has receded past the volume on an axis whose
/// step moves away from `[0, extent)`, so that it can never re-enter.
pub fn past_volume(cell: IVec3, step: IVec3, extent: i32) -> (r: bool)
    ensures
        r == gone_past((cell.x as int, cell.y as int, cell.z as int), step, extent as int),
{
    (step.x > 0 && cell.x >= extent) || (step.x < 0 && cell.x < 0) || (step.y > 0 && cell.y
        >= extent) || (step.y < 0 && cell.y < 0) || (step.z > 0 && cell.z >= extent) || (step.z < 0
        && cell.z < 0)
}

/// Once past the volume, the ray stays past it.
pub proof fn past_is_forever(
    start: IVec3,
    step: IVec3,
    axes: Seq<Axis>,
    extent: int,
    k: int,
    later: int,
)
    requires
        0 <= k <= later <= axes.len(),
        gone_past(place_after(start, step, axes, k), step, extent),
    ensures
        gone_past(place_after(start, step, axes, later), step, extent),
        !place_inside(place_after(start, step, axes, later), extent),
    decreases later,
{
    if later > k {
        past_is_forever(start, step, axes, extent, k, later - 1);
    }
}

/// March a ray through the sub-voxel grid and return the first solid cell, with
/// the empty cell in front of the face through which the ray enters it.
pub fn raycast(model: &VoxelModel, start: IVec3, step: IVec3, axes: &[Axis]) -> (hit: Option<RayHit>)
    requires
        model.wf(),
        is_step(step),
    ensures
        match hit {
            Some(h) => exists|k: int| #[trigger]
                first_solid(model@, model.spec_extent(), start, step, axes@, k) && h == hit_at(
                    start,
                    step,
                    axes@,
                    model.spec_extent(),
                    k,
                ),
            None => forall|k: int|
                0 <= k < axes@.len() ==> !solid_at(
                    model@,
                    model.spec_extent(),
                    #[trigger] place_after(start, step, axes@, k),
                ),
        },
{
    let extent: i32 = model.extent();
    let ghost e = extent as int;
    let mut cell = start;
    let mut last = start;
    let mut i: usize = 0;
    while i < axes.len()
        invariant
            i <= axes@.len(),
            model.wf(),
            is_step(step),
            e == extent,
            e == model.spec_extent(),
            4 <= e <= 128,
            (cell.x as int, cell.y as int, cell.z as int) == place_after(
                start,
                step,
                axes@,
                i as int,
            ),
            i > 0 ==> (last.x as int, last.y as int, last.z as int) == place_after(
                start,
                step,
                axes@,
                i - 1,
            ),
            forall|j: int|
                0 <= j < i ==> !solid_at(
                    model@,
                    e,
                    #[trigger] place_after(start, step, axes@, j),
                ),
        decreases axes@.len() - i,
    {
        if in_bounds(cell, extent) {
            let c = Cell { x: cell.x, y: cell.y, z: cell.z };
            if model.is_solid(c) {
                let place = if i > 0 && in_bounds(last, extent) {
                    Some(Cell { x: last.x, y: last.y, z: last.z })
                } else {
                    None
                };
                assert(first_solid(model@, e, start, step, axes@, i as int));
                return Some(RayHit { solid_cell: c, place_cell: place });
            }
        } else if past_volume(cell, step, extent) {
            proof {
                assert forall|k: int| 0 <= k < axes@.len() implies !solid_at(
                    model@,
                    e,
                    #[trigger] place_after(start, step, axes@, k),
                ) by {
                    if k >= i {
                        past_is_forever(start, step, axes@, e, i as int, k);
                    }
                }
            }
            return None;
        }
        last = cell;
        match axes[i] {
            Axis::X => {
                cell.x = cell.x + step.x;
            },
            Axis::Y => {
                cell.y = cell.y + step.y;
            },
            Axis::Z => {
                cell.z = cell.z + step.z;
            },
        }
        i += 1;
    }
    None
}

/// One axis differs, by one.
pub open spec fn face_to_face(a: Cell, b: Cell) -> bool {
    let (dx, dy, dz) = (a.x - b.x, a.y - b.y, a.z - b.z);
    ||| (dx == 1 || dx == -1) && dy == 0 && dz == 0
    ||| dx == 0 && (dy == 1 || dy == -1) && dz == 0
    ||| dx == 0 && dy == 0 && (dz == 1 || dz == -1)
}

/// The cell in front of the hit is inside the volume, empty, and shares a face with
/// the cell that was hit.
pub proof fn paint_target_is_free(
    m: Map<Cell, Voxel>,
    extent: int,
    start: IVec3,
    step: IVec3,
    axes: Seq<Axis>,
    k: int,
)
    requires
        extent <= i32::MAX,
        is_step(step),
        first_solid(m, extent, start, step, axes, k),
        hit_at(start, step, axes, extent, k).place_cell is Some,
    ensures
        face_to_face(
            hit_at(start, step, axes, extent, k).place_cell->0,
            hit_at(start, step, axes, extent, k).solid_cell,
        ),
        inside(hit_at(start, step, axes, extent, k).place_cell->0, extent),
        !m.contains_key(hit_at(start, step, axes, extent, k).place_cell->0),
{
    let before = place_after(start, step, axes, k - 1);
    assert(!solid_at(m, extent, before));
}

/// The distance from `v` to the nearest of `0..extent`.
pub open spec fn approach(v: int, extent: int) -> int {
    if v < 0 {
        -v
    } else if v >= extent {
        v - extent + 1
    } else {
        0
    }
}

/// Number of borders after which a ray from `start` that moves at each of them
/// has left the build volume for good: every cell on the way to the volume, and
/// every cell along its diagonal, plus slack.
pub fn march_cap(start: IVec3, extent: i32) -> (n: u64)
    requires
        0 < extent <= 128,
    ensures
        n == approach(start.x as int, extent as int) + approach(start.y as int, extent as int)
            + approach(start.z as int, extent as int) + 3 * extent + 8,
{
    let x: u64 = approach_of(start.x, extent);
    let y: u64 = approach_of(start.y, extent);
    let z: u64 = approach_of(start.z, extent);
    x + y + z + 3 * (extent as u64) + 8
}

fn approach_of(v: i32, extent: i32) -> (d: u64)
    requires
        0 < extent <= 128,
    ensures
        d == approach(v as int, extent as int),
        d <= 0x8000_0000,
{
    if v < 0 {
        (-(v as i64)) as u64
    } else if v >= extent {
        (v - extent + 1) as u64
    } else {
        0
    }
}

/// How often each axis was crossed among the first `k` borders.
spec fn crossings(axes: Seq<Axis>, axis: Axis, k: int) -> int
    decreases k,
{
    if k <= 0 {
        0
    } else {
        crossings(axes, axis, k - 1) + (if axes[k - 1] == axis {
            1int
        } else {
            0
        })
    }
}

proof fn lemma_crossings(start: IVec3, step: IVec3, axes: Seq<Axis>, k: int)
    requires
        0 <= k <= axes.len(),
        is_step(step),
    ensures
        ({
            let p = place_after(start, step, axes, k);
            let (x, y, z) = (
                crossings(axes, Axis::X, k),
                crossings(axes, Axis::Y, k),
                crossings(axes, Axis::Z, k),
            );
            &&& x >= 0 && y >= 0 && z >= 0
            &&& x + y + z == k
            &&& p.0 == (if step.x > 0 {
                start.x + x
            } else if step.x < 0 {
                start.x - x
            } else {
                start.x as int
            })
            &&& p.1 == (if step.y > 0 {
                start.y + y
            } else if step.y < 0 {
                start.y - y
            } else {
                start.y as int
            })
            &&& p.2 == (if step.z > 0 {
                start.z + z
            } else if step.z < 0 {
                start.z - z
            } else {
                start.z as int
            })
        }),
    decreases k,
{
    if k > 0 {
        lemma_crossings(start, step, axes, k - 1);
    }
}

/// The axis moves at every border of the list.
pub open spec fn always_moves(step: IVec3, axes: Seq<Axis>) -> bool {
    forall|i: int|
        0 <= i < axes.len() ==> match #[trigger] axes[i] {
            Axis::X => step.x != 0,
            Axis::Y => step.y != 0,
            Axis::Z => step.z != 0,
        }
}

proof fn lemma_still_axis(step: IVec3, axes: Seq<Axis>, k: int)
    requires
        0 <= k <= axes.len(),
        always_moves(step, axes),
    ensures
        step.x == 0 ==> crossings(axes, Axis::X, k) == 0,
        step.y == 0 ==> crossings(axes, Axis::Y, k) == 0,
        step.z == 0 ==> crossings(axes, Axis::Z, k) == 0,
    decreases k,
{
    if k > 0 {
        lemma_still_axis(step, axes, k - 1);
        assert(match axes[k - 1] {
            Axis::X => step.x != 0,
            Axis::Y => step.y != 0,
            Axis::Z => step.z != 0,
        });
    }
}

/// A march of [`march_cap`] borders misses nothing: behind it, the ray never is
/// in the build volume again.
pub proof fn march_cap_is_enough(start: IVec3, step: IVec3, axes: Seq<Axis>, extent: int, k: int)
    requires
        0 < extent,
        is_step(step),
        always_moves(step, axes),
        approach(start.x as int, extent) + approach(start.y as int, extent) + approach(
            start.z as int,
            extent,
        ) + 3 * extent + 8 <= k <= axes.len(),
    ensures
        !place_inside(place_after(start, step, axes, k), extent),
{
    lemma_crossings(start, step, axes, k);
    lemma_still_axis(step, axes, k);
}

/// The cell right above the reference platform for a point of the platform's
/// plane, given by the cell column it falls in. The column is clamped into the
/// build footprint so a near-edge click still lands on the platform.
pub fn platform_cell(model: &VoxelModel, cx: i32, cz: i32) -> (c: Cell)
    requires
        model.wf(),
    ensures
        c.x == crate::editor::volume::clamped(cx as int, 0, model.spec_extent() - 1),
        c.y == 0,
        c.z == crate::editor::volume::clamped(cz as int, 0, model.spec_extent() - 1),
        inside(c, model.spec_extent()),
{
    let max: i32 = model.extent() - 1;
    Cell { x: clamp_i32(cx, max), y: 0, z: clamp_i32(cz, max) }
}

fn clamp_i32(v: i32, max: i32) -> (r: i32)
    requires
        0 <= max,
    ensures
        r == crate::editor::volume::clamped(v as int, 0, max as int),
{
    if v < 0 {
        0
    } else if v > max {
        max
    } else {
        v
    }
}

/// The tool that a left click applies: shift makes it erase.
pub open spec fn click_tool(tool: Tool, shift: bool) -> Tool {
    if shift {
        Tool::Erase
    } else {
        tool
    }
}

/// Where a click paints: in front of the face that was hit, or, with nothing
/// hit, on the platform.
pub open spec fn paint_target(hit: Option<RayHit>, floor: Option<Cell>) -> Option<Cell> {
    match hit {
        Some(h) => h.place_cell,
        None => floor,
    }
}

/// Resolve a left click into a paint / erase / pick edit on the editor state.
pub fn apply_click(state: &mut EditorState, shift: bool, hit: Option<RayHit>, floor: Option<Cell>)
    requires
        old(state).model.wf(),
    ensures
        final(state).model.wf(),
        final(state).model.spec_blocks() == old(state).model.spec_blocks(),
        same_project(*final(state), *old(state)),
        same_view(*final(state), *old(state)),
        final(state).status == old(state).status,
        match click_tool(old(state).tool, shift) {
            Tool::Paint => {
                &&& same_selection(*final(state), *old(state))
                &&& final(state).model@ == (match paint_target(hit, floor) {
                    Some(cell) if inside(cell, old(state).model.spec_extent()) => old(state).model@.insert(cell, brush(*old(state))),
                    _ => old(state).model@,
                })
                &&& final(state).dirty == (old(state).dirty || final(state).model@ != old(state).model@)
            },
            Tool::Erase => {
                &&& same_selection(*final(state), *old(state))
                &&& final(state).model@ == (match hit {
                    Some(h) => old(state).model@.remove(h.solid_cell),
                    None => old(state).model@,
                })
                &&& final(state).dirty == (old(state).dirty || (hit matches Some(h) && old(state).model@.contains_key(h.solid_cell)))
            },
            Tool::Pick => *final(state) == (match hit {
                Some(h) if old(state).model@.contains_key(h.solid_cell) => EditorState {
                    active_color: old(state).model@[h.solid_cell].color,
                    active_part: old(state).model@[h.solid_cell].part,
                    ..*old(state)
                },
                _ => *old(state),
            }),
        },
        shift || old(state).tool != Tool::Paint ==> forall|c: Cell| #[trigger]
            final(state).model@.contains_key(c) ==> old(state).model@.contains_key(c)
                && final(state).model@[c] == old(state).model@[c],
        !shift && old(state).tool != Tool::Erase ==> forall|c: Cell| #[trigger]
            old(state).model@.contains_key(c) ==> final(state).model@.contains_key(c),
        hit matches Some(h) ==> shift || old(state).tool == Tool::Erase
            ==> !final(state).model@.contains_key(h.solid_cell),
{
    let tool = if shift {
        Tool::Erase
    } else {
        state.tool
    };
    match tool {
        Tool::Paint => {
            let target = match hit {
                Some(h) => h.place_cell,
                None => floor,
            };
            if let Some(cell) = target {
                state.paint(cell);
            }
        },
        Tool::Erase => {
            if let Some(h) = hit {
                state.erase(h.solid_cell);
            }
        },
        Tool::Pick => {
            if let Some(h) = hit {
                state.pick(h.solid_cell);
            }
        },
    }
}

/// What a hit is, whatever the ray: the cell that was hit holds a voxel and lies in
/// the volume, the ray passes it, and it passes no voxel before; a ray that starts in
/// a voxel has no face to paint on, and otherwise the paint goes where the ray was
/// one border before, if that is in the volume.
pub proof fn hits_are_the_first_solid(
    m: Map<Cell, Voxel>,
    extent: int,
    start: IVec3,
    step: IVec3,
    axes: Seq<Axis>,
    k: int,
)
    requires
        extent <= i32::MAX,
        is_step(step),
        first_solid(m, extent, start, step, axes, k),
    ensures
        ({
            let h = hit_at(start, step, axes, extent, k);
            let p = place_after(start, step, axes, k);
            let before = place_after(start, step, axes, k - 1);
            &&& m.contains_key(h.solid_cell)
            &&& inside(h.solid_cell, extent)
            &&& (h.solid_cell.x as int, h.solid_cell.y as int, h.solid_cell.z as int) == p
            &&& k == 0 ==> h.place_cell is None && h.solid_cell == (Cell {
                x: start.x,
                y: start.y,
                z: start.z,
            })
            &&& k > 0 ==> {
                &&& h.place_cell is Some <==> 0 <= before.0 < extent && 0 <= before.1 < extent && 0
                    <= before.2 < extent
                &&& h.place_cell matches Some(c) ==> (c.x as int, c.y as int, c.z as int) == before
            }
        }),
        forall|j: int, c: Cell|
            0 <= j < k && #[trigger] place_after(start, step, axes, j) == (
                c.x as int,
                c.y as int,
                c.z as int,
            ) && #[trigger] inside(c, extent) ==> !m.contains_key(c),
{
    assert forall|j: int, c: Cell|
        0 <= j < k && #[trigger] place_after(start, step, axes, j) == (
            c.x as int,
            c.y as int,
            c.z as int,
        ) && #[trigger] inside(c, extent) implies !m.contains_key(c) by {
        assert(!solid_at(m, extent, place_after(start, step, axes, j)));
        assert(cell_of(place_after(start, step, axes, j)) == c);
    }
}

/// The ray starts in its first cell, and at each border moves by the step along the
/// border's axis, and along no other.
pub proof fn rays_move_one_axis_at_a_time(start: IVec3, step: IVec3, axes: Seq<Axis>, k: int)
    requires
        0 <= k < axes.len(),
    ensures
        place_after(start, step, axes, 0) == (start.x as int, start.y as int, start.z as int),
        ({
            let p = place_after(start, step, axes, k);
            let q = place_after(start, step, axes, k + 1);
            &&& q.0 - p.0 == (if axes[k] == Axis::X {
                step.x as int
            } else {
                0
            })
            &&& q.1 - p.1 == (if axes[k] == Axis::Y {
                step.y as int
            } else {
                0
            })
            &&& q.2 - p.2 == (if axes[k] == Axis::Z {
                step.z as int
            } else {
                0
            })
        }),
{
}

/// A click with shift erases whatever the tool, and without it applies the tool. A
/// paint goes in front of what was hit, and on the platform only when nothing was.
pub proof fn clicks_follow_the_tool(tool: Tool, shift: bool, h: RayHit, floor: Option<Cell>)
    ensures
        click_tool(tool, true) == Tool::Erase,
        click_tool(tool, false) == tool,
        paint_target(Some(h), floor) == h.place_cell,
        paint_target(None, floor) == floor,
{
}

/// A position is solid exactly if it lies in the volume and a voxel is placed there.
pub proof fn only_placed_voxels_stop_the_ray(m: Map<Cell, Voxel>, extent: int, c: Cell)
    ensures
        solid_at(m, extent, (c.x as int, c.y as int, c.z as int)) <==> m.contains_key(c) && 0 <= c.x
            < extent && 0 <= c.y < extent && 0 <= c.z < extent,
{
}

/// A ray is past the volume exactly if it has left it on an axis along which it moves on
/// away; on an axis on which it stands still or comes nearer, it may yet enter.
pub proof fn rays_are_past_when_moving_away(p: Place, step: IVec3, extent: int)
    requires
        extent > 0,
    ensures
        step.x == 0 && step.y == 0 && step.z == 0 ==> !gone_past(p, step, extent),
        step.x > 0 && p.0 >= extent || step.x < 0 && p.0 < 0 ==> gone_past(p, step, extent),
        step.y > 0 && p.1 >= extent || step.y < 0 && p.1 < 0 ==> gone_past(p, step, extent),
        step.z > 0 && p.2 >= extent || step.z < 0 && p.2 < 0 ==> gone_past(p, step, extent),
        gone_past(p, step, extent) ==> !(0 <= p.0 < extent && 0 <= p.1 < extent && 0 <= p.2
            < extent),
        (step.x >= 0 && p.0 < 0 || step.x <= 0 && p.0 >= extent || 0 <= p.0 < extent) && (step.y
            >= 0 && p.1 < 0 || step.y <= 0 && p.1 >= extent || 0 <= p.1 < extent) && (step.z >= 0
            && p.2 < 0 || step.z <= 0 && p.2 >= extent || 0 <= p.2 < extent) ==> !gone_past(
            p,
            step,
            extent,
        ),
{
}

/// The way to the volume is none from inside it, and otherwise the number of cells to
/// its nearest one.
pub proof fn approaches_lead_to_the_nearest_cell(v: int, extent: int, w: int)
    requires
        0 <= w < extent,
    ensures
        approach(v, extent) == 0 <==> 0 <= v < extent,
        approach(v, extent) <= v - w || approach(v, extent) <= w - v,
        v < 0 ==> approach(v, extent) == 0 - v,
        v >= extent ==> approach(v, extent) == v - (extent - 1),
{
}

} // verus!
