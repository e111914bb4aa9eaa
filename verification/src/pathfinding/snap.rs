//! Outward ring searches for a column to stand on.

use vstd::prelude::*;

use crate::columns::ColumnSet;
use crate::grid::IVec2;
use crate::pathfinding::ground::{distance, SurfaceOracle};

verus! {

/// Max ring radius (in cells) the goal-snap spiral searches before giving up.
pub const MAX_GOAL_SNAP: i32 = 32;

/// Max ring radius (in cells) the search for a dry spawn column covers.
pub const MAX_LAND_SEARCH: i32 = 255;

/// The ring around `center` on which `c` lies.
pub open spec fn ring_of(center: IVec2, c: IVec2) -> int {
    let dx = distance(center.x as int, c.x as int);
    let dz = distance(center.y as int, c.y as int);
    if dx < dz {
        dz
    } else {
        dx
    }
}

/// `c` comes before the column at offset `(dx, dz)` on ring `r`: by ring, then
/// by offset along x, then by offset along z.
pub open spec fn scanned_before(center: IVec2, c: IVec2, r: int, dx: int, dz: int) -> bool {
    ||| ring_of(center, c) < r
    ||| ring_of(center, c) == r && c.x - center.x < dx
    ||| ring_of(center, c) == r && c.x - center.x == dx && c.y - center.y < dz
}

/// Walkable land that is not blocked.
pub open spec fn suitable<O: SurfaceOracle>(terrain: &O, blocked: Set<IVec2>, c: IVec2) -> bool {
    terrain.land(c) && !blocked.contains(c)
}

/// `found` is the first suitable column in the order of the rings up to `max`.
pub open spec fn first_suitable<O: SurfaceOracle>(
    terrain: &O,
    blocked: Set<IVec2>,
    center: IVec2,
    max: int,
    found: Option<IVec2>,
) -> bool {
    match found {
        Some(c) => {
            &&& suitable(terrain, blocked, c)
            &&& ring_of(center, c) <= max
            &&& forall|d: IVec2|
                scanned_before(
                    center,
                    d,
                    ring_of(center, c),
                    c.x - center.x,
                    c.y - center.y,
                ) ==> !#[trigger] suitable(terrain, blocked, d)
        },
        None => forall|d: IVec2|
            ring_of(center, d) <= max ==> !#[trigger] suitable(terrain, blocked, d),
    }
}

/// All rings up to `max` lie on the grid.
pub open spec fn rings_fit(center: IVec2, max: int) -> bool {
    &&& i32::MIN + max <= center.x <= i32::MAX - max
    &&& i32::MIN + max <= center.y <= i32::MAX - max
}

fn is_suitable<O: SurfaceOracle>(terrain: &O, blocked: &ColumnSet, c: IVec2) -> (r: bool)
    ensures
        r == suitable(terrain, blocked@, c),
{
    terrain.is_land(c.x, c.y) && !blocked.contains(c)
}

/// The first suitable column on ring `r`, by ascending `dx`, then `dz`.
fn scan_ring<O: SurfaceOracle>(terrain: &O, blocked: &ColumnSet, center: IVec2, r: i32) -> (found:
    Option<IVec2>)
    requires
        1 <= r <= 0x1000,
        rings_fit(center, r as int),
    ensures
        match found {
            Some(c) => {
                &&& suitable(terrain, blocked@, c)
                &&& ring_of(center, c) == r
                &&& forall|d: IVec2|
                    ring_of(center, d) == r && scanned_before(
                        center,
                        d,
                        r as int,
                        c.x - center.x,
                        c.y - center.y,
                    ) ==> !#[trigger] suitable(terrain, blocked@, d)
            },
            None => forall|d: IVec2|
                ring_of(center, d) == r ==> !#[trigger] suitable(terrain, blocked@, d),
        },
{
    let mut dx: i32 = -r;
    while dx <= r
        invariant
            1 <= r <= 0x1000,
            rings_fit(center, r as int),
            -r <= dx <= r + 1,
            forall|d: IVec2|
                ring_of(center, d) == r && d.x - center.x < dx ==> !#[trigger] suitable(
                    terrain,
                    blocked@,
                    d,
                ),
        decreases r + 1 - dx,
    {
        let side: bool = dx == -r || dx == r;
        let stride: i32 = if side {
            1
        } else {
            2 * r
        };
        let mut dz: i32 = -r;
        while dz <= r
            invariant
                1 <= r <= 0x1000,
                rings_fit(center, r as int),
                -r <= dx <= r,
                -r <= dz <= 3 * r,
                side == (dx == -r || dx == r),
                stride == (if side {
                    1int
                } else {
                    2 * r
                }),
                !side ==> dz == -r || dz == r || dz == 3 * r,
                side ==> dz <= r + 1,
                forall|d: IVec2|
                    ring_of(center, d) == r && (d.x - center.x < dx || (d.x - center.x == dx && d.y
                        - center.y < dz)) ==> !#[trigger] suitable(terrain, blocked@, d),
            decreases 3 * r - dz,
        {
            let c = IVec2 { x: center.x + dx, y: center.y + dz };
            if is_suitable(terrain, blocked, c) {
                return Some(c);
            }
            assert forall|d: IVec2|
                ring_of(center, d) == r && (d.x - center.x < dx || (d.x - center.x == dx && d.y
                    - center.y < dz + stride)) implies !#[trigger] suitable(
                terrain,
                blocked@,
                d,
            ) by {
                if d.x - center.x == dx && d.y - center.y >= dz {
                    assert(d.y - center.y == dz);
                    assert(d == c);
                }
            }
            dz += stride;
        }
        dx += 1;
    }
    None
}

/// The first suitable column in the order of the rings up to `max`.
fn ring_search<O: SurfaceOracle>(
    terrain: &O,
    blocked: &ColumnSet,
    center: IVec2,
    max: i32,
) -> (found: Option<IVec2>)
    requires
        0 <= max < 0x1000,
        suitable(terrain, blocked@, center) || rings_fit(center, max as int),
    ensures
        first_suitable(terrain, blocked@, center, max as int, found),
{
    if is_suitable(terrain, blocked, center) {
        return Some(center);
    }
    let mut r: i32 = 1;
    while r <= max
        invariant
            0 <= max < 0x1000,
            rings_fit(center, max as int),
            1 <= r <= max + 1,
            forall|d: IVec2|
                ring_of(center, d) < r ==> !#[trigger] suitable(terrain, blocked@, d),
        decreases max + 1 - r,
    {
        let found = scan_ring(terrain, blocked, center, r);
        if found.is_some() {
            return found;
        }
        r += 1;
    }
    None
}

/// Snap a requested goal to the nearest cell that is both walkable and not
/// `blocked`. Returns `goal` unchanged when it is already suitable, otherwise
/// the nearest suitable cell found by a bounded outward ring search, or `None`
/// if none lies within [`MAX_GOAL_SNAP`] cells. Equidistant ties go to the
/// lowest `dx`, then the lowest `dz`.
pub fn snap_goal<O: SurfaceOracle>(terrain: &O, goal: IVec2, blocked: &ColumnSet) -> (found: Option<
    IVec2,
>)
    requires
        suitable(terrain, blocked@, goal) || rings_fit(goal, MAX_GOAL_SNAP as int),
    ensures
        first_suitable(terrain, blocked@, goal, MAX_GOAL_SNAP as int, found),
        suitable(terrain, blocked@, goal) ==> found == Some(goal),
{
    ring_search(terrain, blocked, goal, MAX_GOAL_SNAP)
}

/// The land column nearest to `start`, by rings, or `start` itself if there is
/// none within [`MAX_LAND_SEARCH`].
pub open spec fn is_nearest_land<O: SurfaceOracle>(terrain: &O, start: IVec2, c: IVec2) -> bool {
    let max = MAX_LAND_SEARCH as int;
    ||| first_suitable(terrain, Set::empty(), start, max, Some(c))
    ||| c == start && first_suitable(terrain, Set::empty(), start, max, None)
}

/// Nearest land column to `start` (spiral ring search), so entities never spawn
/// in the water. Falls back to `start` if nothing is found nearby.
pub fn nearest_land<O: SurfaceOracle>(terrain: &O, start: IVec2) -> (c: IVec2)
    requires
        terrain.land(start) || rings_fit(start, MAX_LAND_SEARCH as int),
    ensures
        is_nearest_land(terrain, start, c),
        terrain.land(start) ==> c == start,
{
    let none_blocked = ColumnSet::new();
    assert(terrain.land(start) ==> suitable(terrain, none_blocked@, start));
    match ring_search(terrain, &none_blocked, start, MAX_LAND_SEARCH) {
        Some(c) => c,
        None => start,
    }
}

/// Snapping gives a unique answer: two first suitable columns are the same.
pub proof fn snapping_is_deterministic<O: SurfaceOracle>(
    terrain: &O,
    blocked: Set<IVec2>,
    center: IVec2,
    max: int,
    a: Option<IVec2>,
    b: Option<IVec2>,
)
    requires
        first_suitable(terrain, blocked, center, max, a),
        first_suitable(terrain, blocked, center, max, b),
    ensures
        a == b,
{
    match a {
        Some(c) => {
            assert(suitable(terrain, blocked, c));
            match b {
                Some(d) => {
                    assert(suitable(terrain, blocked, d));
                    assert(c == d);
                },
                None => {},
            }
        },
        None => {
            match b {
                Some(d) => {
                    assert(suitable(terrain, blocked, d));
                },
                None => {},
            }
        },
    }
}

/// A snapped column is the nearest one that is land and not blocked, by the greater
/// of the distances along the two axes; among equals it has the lowest `x`, then the
/// lowest `y`. Without one, nothing within `max` is land that is not blocked.
pub proof fn snapping_finds_the_nearest<O: SurfaceOracle>(
    terrain: &O,
    blocked: Set<IVec2>,
    center: IVec2,
    max: int,
    found: Option<IVec2>,
    d: IVec2,
)
    requires
        first_suitable(terrain, blocked, center, max, found),
        max >= 0,
    ensures
        found matches Some(c) ==> {
            &&& terrain.land(c)
            &&& !blocked.contains(c)
            &&& -max <= c.x - center.x <= max
            &&& -max <= c.y - center.y <= max
        },
        found matches Some(c) ==> terrain.land(d) && !blocked.contains(d) ==> {
            let r = ring_of(center, c);
            ||| !(-r <= d.x - center.x <= r && -r <= d.y - center.y <= r)
            ||| c.x < d.x
            ||| c.x == d.x && c.y <= d.y
        },
        found is None && -max <= d.x - center.x <= max && -max <= d.y - center.y <= max
            ==> !terrain.land(d) || blocked.contains(d),
{
    assert(suitable(terrain, blocked, d) || true);
    if terrain.land(d) && !blocked.contains(d) {
        assert(suitable(terrain, blocked, d));
    }
}

/// The ring of a column is the side of the smallest square around the centre that
/// holds it, counted from the centre.
pub proof fn rings_are_squares(center: IVec2, c: IVec2, r: int)
    ensures
        ring_of(center, c) <= r <==> -r <= c.x - center.x <= r && -r <= c.y - center.y <= r,
        ring_of(center, c) == 0 <==> c == center,
{
}

/// A dry spawn is found when there is one within 255 columns; else the start is kept.
pub proof fn spawns_are_dry<O: SurfaceOracle>(terrain: &O, start: IVec2, c: IVec2, d: IVec2)
    requires
        is_nearest_land(terrain, start, c),
        terrain.land(d),
        -255 <= d.x - start.x <= 255,
        -255 <= d.y - start.y <= 255,
    ensures
        terrain.land(c),
        ring_of(start, c) <= ring_of(start, d),
        !(exists|e: IVec2|
            -255 <= e.x - start.x <= 255 && -255 <= e.y - start.y <= 255 && #[trigger] terrain.land(
                e,
            )) ==> c == start,
{
    assert(suitable(terrain, Set::empty(), d));
}

/// A dry spawn lies within 255 columns of the start, and is the start if that is dry.
pub proof fn spawns_stay_near<O: SurfaceOracle>(terrain: &O, start: IVec2, c: IVec2)
    requires
        is_nearest_land(terrain, start, c),
    ensures
        -255 <= c.x - start.x <= 255,
        -255 <= c.y - start.y <= 255,
        terrain.land(start) ==> c == start,
        !terrain.land(c) ==> c == start,
{
    assert(suitable(terrain, Set::empty(), start) == terrain.land(start));
}

} // verus!
