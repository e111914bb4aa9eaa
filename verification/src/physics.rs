//! The ground under the player: which surface supports the body, and whether a
//! step follows it, falls, or lands.

use vstd::prelude::*;

use crate::grid::IVec2;
use crate::ieee::Single;
use crate::pathfinding::ground::SurfaceOracle;

verus! {

/// The cells that a footprint overlaps (inclusive ranges) and the one under its
/// centre.
#[derive(Clone, Copy, Debug, PartialEq, Eq, Structural)]
pub struct Footprint {
    pub x_min: i32,
    pub x_max: i32,
    pub z_min: i32,
    pub z_max: i32,
    pub center_x: i32,
    pub center_z: i32,
}

/// The height of the top face of a column.
pub open spec fn top_face<O: SurfaceOracle>(terrain: &O, x: i32, z: i32) -> int {
    terrain.height(IVec2 { x, y: z }) + 1
}

pub open spec fn overlaps(f: Footprint, x: i32, z: i32) -> bool {
    f.x_min <= x <= f.x_max && f.z_min <= z <= f.z_max
}

/// The top face can be climbed onto; without a ceiling, every one can.
pub open spec fn climbable(top: int, ceiling: Option<i64>) -> bool {
    match ceiling {
        Some(c) => top <= c,
        None => true,
    }
}

/// `s` is the highest climbable top face that the footprint overlaps, or the
/// centre column's if there is none.
pub open spec fn is_support<O: SurfaceOracle>(
    terrain: &O,
    f: Footprint,
    ceiling: Option<i64>,
    s: int,
) -> bool {
    if exists|x: i32, z: i32| #[trigger]
        overlaps(f, x, z) && climbable(top_face(terrain, x, z), ceiling) {
        &&& exists|x: i32, z: i32| #[trigger]
            overlaps(f, x, z) && climbable(top_face(terrain, x, z), ceiling) && top_face(
                terrain,
                x,
                z,
            ) == s
        &&& forall|x: i32, z: i32| #[trigger]
            overlaps(f, x, z) && climbable(top_face(terrain, x, z), ceiling) ==> top_face(
                terrain,
                x,
                z,
            ) <= s
    } else {
        s == top_face(terrain, f.center_x, f.center_z)
    }
}

/// Sample the terrain's top faces under the footprint and return the highest
/// climbable one. `ceiling` is the greatest whole height that can be climbed
/// onto; `None` is no limit. A taller neighbour is a wall, not support; if every
/// overlapped cell is a wall, fall back to the centre column.
pub fn footprint_surface<O: SurfaceOracle>(terrain: &O, f: Footprint, ceiling: Option<i64>) -> (s:
    i64)
    ensures
        is_support(terrain, f, ceiling, s as int),
{
    let mut best: Option<i64> = None;
    let ghost mut at: (i32, i32) = (0, 0);
    let mut x: i64 = f.x_min as i64;
    while x <= f.x_max as i64
        invariant
            f.x_min <= x,
            x <= f.x_max + 1 || x == f.x_min,
            match best {
                Some(b) => overlaps(f, at.0, at.1) && b == top_face(terrain, at.0, at.1)
                    && climbable(b as int, ceiling),
                None => true,
            },
            forall|cx: i32, cz: i32| #[trigger]
                overlaps(f, cx, cz) && cx < x && climbable(top_face(terrain, cx, cz), ceiling)
                    ==> (best matches Some(b) && top_face(terrain, cx, cz) <= b),
        decreases f.x_max + 1 - x,
    {
        let mut z: i64 = f.z_min as i64;
        while z <= f.z_max as i64
            invariant
                f.x_min <= x <= f.x_max,
                f.z_min <= z,
                z <= f.z_max + 1 || z == f.z_min,
                match best {
                    Some(b) => overlaps(f, at.0, at.1) && b == top_face(terrain, at.0, at.1)
                        && climbable(b as int, ceiling),
                    None => true,
                },
                forall|cx: i32, cz: i32| #[trigger]
                    overlaps(f, cx, cz) && (cx < x || (cx == x && cz < z)) && climbable(
                        top_face(terrain, cx, cz),
                        ceiling,
                    ) ==> (best matches Some(b) && top_face(terrain, cx, cz) <= b),
            decreases f.z_max + 1 - z,
        {
            let top: i64 = terrain.surface_y(x as i32, z as i32) as i64 + 1;
            assert(overlaps(f, x as i32, z as i32));
            let can_climb = match ceiling {
                Some(c) => top <= c,
                None => true,
            };
            if can_climb {
                let higher = match best {
                    Some(b) => top > b,
                    None => true,
                };
                if higher {
                    best = Some(top);
                    proof {
                        at = (x as i32, z as i32);
                    }
                }
            }
            z += 1;
        }
        x += 1;
    }
    match best {
        Some(b) => b,
        None => terrain.surface_y(f.center_x, f.center_z) as i64 + 1,
    }
}

/// What a step comes from: the support and the reaches around the feet, and the
/// two candidates for the new centre height.
#[derive(Clone, Copy, Debug, PartialEq, Eq, Structural)]
pub struct GroundStep {
    /// Vertical velocity before the step.
    pub velocity: Single,
    /// Height of the supporting surface.
    pub support: Single,
    /// Highest surface that can be stepped up onto.
    pub step_limit: Single,
    /// Lowest surface that still holds the feet.
    pub snap_limit: Single,
    /// Centre height at rest on the support.
    pub rest: Single,
    /// Centre height after easing towards rest.
    pub eased: Single,
    /// Centre height after a step of free fall.
    pub fallen: Single,
    /// Vertical velocity after a step of free fall.
    pub fall_velocity: Single,
}

/// The body follows the ground: it is not falling and the surface is in the grab
/// band.
pub open spec fn follows(s: GroundStep) -> bool {
    Single(0).at_most(s.velocity) && s.support.at_most(s.step_limit) && s.snap_limit.at_most(
        s.support,
    )
}

/// The new centre height, whether the body is grounded, and the new vertical
/// velocity: ease onto a surface in reach; else fall, and land the moment the
/// fall reaches the rest height.
pub open spec fn resolved(s: GroundStep) -> (Single, bool, Single) {
    if follows(s) {
        (s.eased, true, Single(0))
    } else if s.fallen.at_most(s.rest) {
        (s.rest, true, Single(0))
    } else {
        (s.fallen, false, s.fall_velocity)
    }
}

/// Decide a step's new centre height, whether the body is grounded, and the new
/// vertical velocity.
pub fn resolve_ground(s: GroundStep) -> (r: (Single, bool, Single))
    ensures
        r == resolved(s),
{
    if Single(0).le(s.velocity) && s.support.le(s.step_limit) && s.snap_limit.le(s.support) {
        (s.eased, true, Single(0))
    } else if s.fallen.le(s.rest) {
        (s.rest, true, Single(0))
    } else {
        (s.fallen, false, s.fall_velocity)
    }
}

/// A body that does not follow the ground never ends a step below its rest
/// height: it lands exactly on it, or is still above it.
pub proof fn falling_never_sinks(s: GroundStep)
    requires
        !s.fallen.nan(),
        !s.rest.nan(),
        !follows(s),
    ensures
        s.rest.at_most(resolved(s).0),
        resolved(s).1 <==> resolved(s).0.rank() == s.rest.rank(),
{
}

/// A grounded body has no vertical velocity left, whatever it came with.
pub proof fn grounded_is_at_rest(s: GroundStep)
    ensures
        resolved(s).1 ==> resolved(s).2 == Single(0),
{
}

/// A body that is moving down and has reached the rest height of its support
/// lands on it.
pub proof fn falling_body_lands(s: GroundStep)
    requires
        s.velocity.below(Single(0)),
        s.fallen.at_most(s.rest),
    ensures
        resolved(s) == (s.rest, true, Single(0)),
{
}

/// A step that leaves the body airborne is free fall: its height and its velocity.
pub proof fn airborne_is_free_fall(s: GroundStep)
    ensures
        !resolved(s).1 ==> resolved(s).0 == s.fallen && resolved(s).2 == s.fall_velocity,
{
}

/// A body that is not falling, with its support no higher than it can step and no
/// lower than the ground holds the feet, eases onto the support.
pub proof fn reachable_ground_is_followed(s: GroundStep)
    requires
        !s.velocity.nan() && !s.support.nan() && !s.step_limit.nan() && !s.snap_limit.nan(),
        s.velocity.rank() >= 0,
        s.snap_limit.rank() <= s.support.rank() <= s.step_limit.rank(),
    ensures
        resolved(s) == (s.eased, true, Single(0)),
{
}

/// A body that is falling, or whose support is out of reach, is grounded exactly when
/// free fall would take it down to its rest height or below, and then stands at
/// that height.
pub proof fn landing_is_decided_by_the_fall(s: GroundStep)
    requires
        !s.fallen.nan() && !s.rest.nan(),
        s.velocity.below(Single(0)) || s.step_limit.below(s.support) || s.support.below(
            s.snap_limit,
        ),
    ensures
        resolved(s).1 <==> s.fallen.rank() <= s.rest.rank(),
        resolved(s).1 ==> resolved(s).0 == s.rest && resolved(s).2 == Single(0),
{
}

/// The support is a top face under the footprint that can be climbed onto, and no
/// climbable one is higher; with none to climb onto, it is that of the centre. A top
/// face lies one above the surface.
pub proof fn support_is_the_highest_climbable<O: SurfaceOracle>(
    terrain: &O,
    f: Footprint,
    ceiling: Option<i64>,
    s: int,
    x: i32,
    z: i32,
)
    requires
        is_support(terrain, f, ceiling, s),
        f.x_min <= x <= f.x_max,
        f.z_min <= z <= f.z_max,
    ensures
        ({
            let top = terrain.height(IVec2 { x, y: z }) + 1;
            match ceiling {
                None => top <= s,
                Some(c) => top <= c ==> top <= s <= c,
            }
        }),
        s == terrain.height(IVec2 { x: f.center_x, y: f.center_z }) + 1 || exists|u: i32, v: i32|
            f.x_min <= u <= f.x_max && f.z_min <= v <= f.z_max && s == #[trigger] terrain.height(
                IVec2 { x: u, y: v },
            ) + 1,
        ceiling matches Some(c) && s > c ==> s == terrain.height(
            IVec2 { x: f.center_x, y: f.center_z },
        ) + 1,
{
    assert(overlaps(f, x, z));
    if exists|u: i32, v: i32| #[trigger]
        overlaps(f, u, v) && climbable(top_face(terrain, u, v), ceiling) {
        let (u, v) = choose|u: i32, v: i32| #[trigger]
            overlaps(f, u, v) && climbable(top_face(terrain, u, v), ceiling) && top_face(
                terrain,
                u,
                v,
            ) == s;
        assert(overlaps(f, u, v));
    }
}

} // verus!
