//! The rules of walking: which columns can be stood on, which steps can be
//! taken, and what a step costs.

use vstd::prelude::*;

use crate::columns::ColumnSet;
use crate::grid::IVec2;
use crate::pathfinding::toll::{lemma_toll_plus_le, surd_nonneg, toll_le, toll_plus, Cost, Toll};

verus! {

/// Max |Δheight| (in voxels) allowed between adjacent cells when walking.
pub const MAX_STEP: i32 = 1;

/// What the solver asks of the world.
pub trait SurfaceOracle {
    /// Height of the surface of a column.
    spec fn height(&self, c: IVec2) -> i32;

    /// Whether a column is walkable land.
    spec fn land(&self, c: IVec2) -> bool;

    fn surface_y(&self, x: i32, z: i32) -> (y: i32)
        ensures
            y == self.height(IVec2 { x, y: z }),
    ;

    fn is_land(&self, x: i32, z: i32) -> (r: bool)
        ensures
            r == self.land(IVec2 { x, y: z }),
    ;
}

/// A world whose every column is land of one height, as on the flat test map.
#[derive(Clone, Copy, Debug)]
pub struct FlatGround {
    pub surface: i32,
}

impl SurfaceOracle for FlatGround {
    open spec fn height(&self, c: IVec2) -> i32 {
        self.surface
    }

    open spec fn land(&self, c: IVec2) -> bool {
        true
    }

    fn surface_y(&self, x: i32, z: i32) -> (y: i32) {
        self.surface
    }

    fn is_land(&self, x: i32, z: i32) -> (r: bool) {
        true
    }
}

pub open spec fn distance(a: int, b: int) -> int {
    if a < b {
        b - a
    } else {
        a - b
    }
}

/// Land that is not blocked. `start` is never blocked: a player that stands on
/// a prop can step off it.
pub open spec fn standable<O: SurfaceOracle>(
    terrain: &O,
    blocked: Set<IVec2>,
    start: IVec2,
    c: IVec2,
) -> bool {
    terrain.land(c) && (!blocked.contains(c) || c == start)
}

/// The height difference between two columns.
pub open spec fn climb<O: SurfaceOracle>(terrain: &O, a: IVec2, b: IVec2) -> int {
    distance(terrain.height(a) as int, terrain.height(b) as int)
}

/// `c` can be stood on and lies within [`MAX_STEP`] of the height of `from`.
pub open spec fn passable<O: SurfaceOracle>(
    terrain: &O,
    blocked: Set<IVec2>,
    start: IVec2,
    from: IVec2,
    c: IVec2,
) -> bool {
    standable(terrain, blocked, start, c) && climb(terrain, from, c) <= MAX_STEP
}

/// The two columns touch, along a side or at a corner.
pub open spec fn adjacent(a: IVec2, b: IVec2) -> bool {
    distance(a.x as int, b.x as int) <= 1 && distance(a.y as int, b.y as int) <= 1 && a != b
}

pub open spec fn diagonal(a: IVec2, b: IVec2) -> bool {
    a.x != b.x && a.y != b.y
}

/// A single step `a -> b` that can be walked. A diagonal step needs both of the
/// columns that flank it, so it never cuts a corner.
pub open spec fn edge<O: SurfaceOracle>(
    terrain: &O,
    blocked: Set<IVec2>,
    start: IVec2,
    a: IVec2,
    b: IVec2,
) -> bool {
    &&& adjacent(a, b)
    &&& passable(terrain, blocked, start, a, b)
    &&& diagonal(a, b) ==> {
        &&& passable(terrain, blocked, start, a, IVec2 { x: b.x, y: a.y })
        &&& passable(terrain, blocked, start, a, IVec2 { x: a.x, y: b.y })
    }
}

/// Cost of a step: 1, or the square root of 2 for a diagonal, and a half for
/// each unit of height.
pub open spec fn fee<O: SurfaceOracle>(terrain: &O, a: IVec2, b: IVec2) -> Toll {
    if diagonal(a, b) {
        (climb(terrain, a, b), 2)
    } else {
        (2 + climb(terrain, a, b), 0)
    }
}

/// A sequence of columns whose every step can be walked.
pub open spec fn is_route<O: SurfaceOracle>(
    terrain: &O,
    blocked: Set<IVec2>,
    start: IVec2,
    q: Seq<IVec2>,
) -> bool {
    q.len() > 0 && forall|i: int|
        0 <= i < q.len() - 1 ==> edge(terrain, blocked, start, #[trigger] q[i], q[i + 1])
}

/// A route from `start` to `goal`, both included.
pub open spec fn leads_to<O: SurfaceOracle>(
    terrain: &O,
    blocked: Set<IVec2>,
    start: IVec2,
    goal: IVec2,
    q: Seq<IVec2>,
) -> bool {
    is_route(terrain, blocked, start, q) && q[0] == start && q.last() == goal
}

/// The sum of the costs of the steps of a route.
pub open spec fn route_cost<O: SurfaceOracle>(terrain: &O, q: Seq<IVec2>) -> Toll
    decreases q.len(),
{
    if q.len() <= 1 {
        (0, 0)
    } else {
        toll_plus(route_cost(terrain, q.drop_last()), fee(terrain, q[q.len() - 2], q.last()))
    }
}

/// The length of the shortest walk between two columns on open flat land.
pub open spec fn octile_toll(a: IVec2, b: IVec2) -> Toll {
    let dx = distance(a.x as int, b.x as int);
    let dz = distance(a.y as int, b.y as int);
    if dx < dz {
        (2 * (dz - dx), 2 * dx)
    } else {
        (2 * (dx - dz), 2 * dz)
    }
}

/// A step never shortens the remaining distance by more than it costs, so the
/// heuristic never overestimates.
pub proof fn octile_is_consistent<O: SurfaceOracle>(terrain: &O, a: IVec2, b: IVec2, goal: IVec2)
    requires
        adjacent(a, b),
    ensures
        toll_le(octile_toll(a, goal), toll_plus(fee(terrain, a, b), octile_toll(b, goal))),
{
    reveal(surd_nonneg);
    let h = climb(terrain, a, b);
    let u = octile_toll(a, goal);
    let v = octile_toll(b, goal);
    let base: Toll = if diagonal(a, b) {
        (0, 2)
    } else {
        (2, 0)
    };
    // without the climb, the slack is one of a few surds
    let p = base.0 + v.0 - u.0;
    let q = base.1 + v.1 - u.1;
    assert((p == 0 && q == 0) || (p == 4 && q == 0) || (p == 4 && q == -2) || (p == 0 && q == 2)
        || (p == -2 && q == 2) || (p == 2 && q == 0) || (p == 0 && q == 4) || (p == 2 && q == 2)
        || (p == -4 && q == 4) || (p == -2 && q == 4));
    assert(surd_nonneg(p, q)) by {
        assert(4int * 4 >= 2 * ((-2int) * (-2int))) by (nonlinear_arith);
        assert((-2int) * (-2int) <= 2 * (2int * 2)) by (nonlinear_arith);
        assert((-4int) * (-4int) <= 2 * (4int * 4)) by (nonlinear_arith);
        assert((-2int) * (-2int) <= 2 * (4int * 4)) by (nonlinear_arith);
    }
    let w: Toll = toll_plus(base, v);
    assert(toll_le(u, w)) by {
        assert(w.0 - u.0 == p && w.1 - u.1 == q);
    }
    assert(toll_le((0, 0), (h, 0)));
    lemma_toll_plus_le(u, w, (0, 0), (h, 0));
    assert(toll_plus(u, (0, 0)) == u);
    assert(toll_plus(w, (h, 0)) == toll_plus(fee(terrain, a, b), v));
}

/// Costs are not negative.
pub(crate) proof fn lemma_fee_positive<O: SurfaceOracle>(terrain: &O, a: IVec2, b: IVec2)
    ensures
        !toll_le(fee(terrain, a, b), (0, 0)),
        toll_le((0, 0), fee(terrain, a, b)),
{
    reveal(surd_nonneg);
    let f = fee(terrain, a, b);
    if diagonal(a, b) {
        assert(2 * ((-2int) * (-2int)) == 8) by (nonlinear_arith);
        if f.0 == 0 {
            assert((-f.0) * (-f.0) == 0) by (nonlinear_arith)
                requires
                    f.0 == 0,
            ;
        }
    }
}

/// The absolute difference of two coordinates.
fn abs_diff(a: i32, b: i32) -> (d: i64)
    ensures
        d == distance(a as int, b as int),
{
    if a < b {
        b as i64 - a as i64
    } else {
        a as i64 - b as i64
    }
}

/// Octile-distance heuristic between two grid cells. Admissible for 8-connected
/// movement with orthogonal cost 1 and diagonal cost the square root of 2.
pub fn octile(a: IVec2, b: IVec2) -> (h: Cost)
    ensures
        h@ == octile_toll(a, b),
        h.bounded(),
        0 <= h.ones <= 0x2_0000_0000,
        0 <= h.roots <= 0x2_0000_0000,
{
    let dx: i64 = abs_diff(a.x, b.x);
    let dz: i64 = abs_diff(a.y, b.y);
    if dx < dz {
        Cost { ones: 2 * (dz - dx), roots: 2 * dx }
    } else {
        Cost { ones: 2 * (dx - dz), roots: 2 * dz }
    }
}

/// Whether the capsule may stand on `c`.
pub fn can_stand<O: SurfaceOracle>(
    terrain: &O,
    blocked: &ColumnSet,
    start: IVec2,
    c: IVec2,
) -> (r: bool)
    ensures
        r == standable(terrain, blocked@, start, c),
{
    terrain.is_land(c.x, c.y) && (!blocked.contains(c) || c == start)
}

/// The height difference between two columns.
pub fn climb_between<O: SurfaceOracle>(terrain: &O, a: IVec2, b: IVec2) -> (d: i64)
    ensures
        d == climb(terrain, a, b),
        0 <= d <= 0xffff_ffff,
{
    abs_diff(terrain.surface_y(a.x, a.y), terrain.surface_y(b.x, b.y))
}

fn can_pass<O: SurfaceOracle>(
    terrain: &O,
    blocked: &ColumnSet,
    start: IVec2,
    from: IVec2,
    c: IVec2,
) -> (r: bool)
    ensures
        r == passable(terrain, blocked@, start, from, c),
{
    can_stand(terrain, blocked, start, c) && climb_between(terrain, from, c) <= MAX_STEP as i64
}

/// Whether the step from `a` to its neighbour `b` can be walked.
pub fn can_step<O: SurfaceOracle>(
    terrain: &O,
    blocked: &ColumnSet,
    start: IVec2,
    a: IVec2,
    b: IVec2,
) -> (r: bool)
    ensures
        r == edge(terrain, blocked@, start, a, b),
{
    if abs_diff(a.x, b.x) > 1 || abs_diff(a.y, b.y) > 1 || a == b {
        return false;
    }
    if !can_pass(terrain, blocked, start, a, b) {
        return false;
    }
    if a.x != b.x && a.y != b.y {
        can_pass(terrain, blocked, start, a, IVec2 { x: b.x, y: a.y }) && can_pass(
            terrain,
            blocked,
            start,
            a,
            IVec2 { x: a.x, y: b.y },
        )
    } else {
        true
    }
}

/// Cost of the walkable step from `a` to `b`.
pub fn step_cost<O: SurfaceOracle>(terrain: &O, a: IVec2, b: IVec2) -> (c: Cost)
    requires
        climb(terrain, a, b) <= MAX_STEP,
    ensures
        c@ == fee(terrain, a, b),
        0 <= c.ones <= 3,
        0 <= c.roots <= 2,
{
    let dh: i64 = climb_between(terrain, a, b);
    if a.x != b.x && a.y != b.y {
        Cost { ones: dh, roots: 2 }
    } else {
        Cost { ones: 2 + dh, roots: 0 }
    }
}

/// What a step takes: the columns touch, both heights are within 1 of each other,
/// the far one is land and not blocked (but for the start), and a diagonal step has
/// the same of both columns that flank it. Nothing else is asked.
pub proof fn steps_are_what_the_rules_say<O: SurfaceOracle>(
    terrain: &O,
    blocked: Set<IVec2>,
    start: IVec2,
    a: IVec2,
    b: IVec2,
)
    ensures
        ({
            let p = IVec2 { x: b.x, y: a.y };
            let q = IVec2 { x: a.x, y: b.y };
            edge(terrain, blocked, start, a, b) <==> {
                &&& -1 <= a.x - b.x <= 1 && -1 <= a.y - b.y <= 1 && a != b
                &&& terrain.land(b) && (blocked.contains(b) ==> b == start)
                &&& -1 <= terrain.height(a) - terrain.height(b) <= 1
                &&& a.x != b.x && a.y != b.y ==> {
                    &&& terrain.land(p) && (blocked.contains(p) ==> p == start)
                    &&& terrain.land(q) && (blocked.contains(q) ==> q == start)
                    &&& -1 <= terrain.height(a) - terrain.height(p) <= 1
                    &&& -1 <= terrain.height(a) - terrain.height(q) <= 1
                }
            }
        }),
{
}

/// In halves: a straight level step costs 2, a diagonal one 2 square roots of 2, and
/// each unit of height 1 more, up or down.
pub proof fn fees_follow_the_rules<O: SurfaceOracle>(terrain: &O, a: IVec2, b: IVec2)
    ensures
        fee(terrain, a, b) == fee(terrain, b, a),
        fee(terrain, a, b).1 == (if a.x != b.x && a.y != b.y {
            2int
        } else {
            0
        }),
        ({
            let h = terrain.height(a) - terrain.height(b);
            let level = if a.x != b.x && a.y != b.y {
                0int
            } else {
                2
            };
            fee(terrain, a, b).0 - level == h || fee(terrain, a, b).0 - level == -h
        }),
        fee(terrain, a, b).0 >= 0,
{
}

/// The column next to `a` on a shortest walk to `goal` over open flat land.
pub open spec fn towards(a: IVec2, goal: IVec2) -> IVec2 {
    IVec2 {
        x: (if a.x < goal.x {
            a.x + 1
        } else if a.x > goal.x {
            a.x - 1
        } else {
            a.x as int
        }) as i32,
        y: (if a.y < goal.y {
            a.y + 1
        } else if a.y > goal.y {
            a.y - 1
        } else {
            a.y as int
        }) as i32,
    }
}

/// The heuristic is exact on open flat land: it is nothing at the goal, and
/// otherwise a level step brings it down by just what that step costs.
pub proof fn octile_is_exact_on_flat_land<O: SurfaceOracle>(terrain: &O, a: IVec2, goal: IVec2)
    ensures
        octile_toll(goal, goal) == (0int, 0int),
        octile_toll(a, goal) == octile_toll(goal, a),
        a != goal ==> adjacent(a, towards(a, goal)),
        a != goal && terrain.height(a) == terrain.height(towards(a, goal)) ==> octile_toll(a, goal)
            == toll_plus(fee(terrain, a, towards(a, goal)), octile_toll(towards(a, goal), goal)),
{
}

/// A route costs nothing where it stands still, and each step adds its own cost.
pub proof fn route_costs_add_up<O: SurfaceOracle>(terrain: &O, q: Seq<IVec2>, r: Seq<IVec2>)
    requires
        q.len() > 0,
    ensures
        route_cost(terrain, q.take(1)) == (0int, 0int),
        route_cost(terrain, q + r) == toll_plus(
            route_cost(terrain, q),
            route_cost(terrain, seq![q.last()] + r),
        ),
    decreases r.len(),
{
    if r.len() == 0 {
        assert(q + r =~= q);
        assert(seq![q.last()] + r =~= seq![q.last()]);
    } else {
        let short = r.drop_last();
        let long = q + r;
        let tail = seq![q.last()] + r;
        route_costs_add_up(terrain, q, short);
        assert(long.drop_last() =~= q + short);
        assert(tail.drop_last() =~= seq![q.last()] + short);
        assert(long[long.len() - 2] == tail[tail.len() - 2]);
        assert(long.last() == tail.last());
    }
}

} // verus!
