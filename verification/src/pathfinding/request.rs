//! From a click to a route: snap the goal, search, and pull the route straight.

use vstd::prelude::*;

use crate::columns::ColumnSet;
use crate::grid::IVec2;
use crate::pathfinding::ground::{leads_to, route_cost, SurfaceOracle};
use crate::pathfinding::line::{
    line_clear, smooth_path, smoothed_hops_are_clear, smoothing_keeps_ends_and_clearance,
    string_pulled,
};
use crate::pathfinding::search::{astar, route_view};
use crate::pathfinding::search_model::{
    astar_is_sound_optimal_and_complete, astar_outcome, has_room,
};
use crate::pathfinding::snap::{
    first_suitable, ring_of, rings_fit, snap_goal, suitable, MAX_GOAL_SNAP,
};
use crate::pathfinding::toll::toll_le;

verus! {

/// Request an A* search from `start` to `goal` (both in voxel-column `(x, z)`
/// coordinates).
#[derive(Clone, Copy, Debug)]
pub struct PathRequest {
    pub start: IVec2,
    pub goal: IVec2,
}

/// What a search returns: the cell path (if any) and how many nodes it popped.
/// `cells` is the inclusive `start..=goal` route, or `None` when no route exists
/// or the expansion cap was hit.
#[derive(Debug)]
pub struct PathSearchResult {
    pub cells: Option<Vec<IVec2>>,
    /// The goal cell this search targeted.
    pub goal: IVec2,
    pub expansions: usize,
}

/// The goal that a request is answered for: the first suitable cell around the
/// clicked one, or the clicked one if there is none in range.
pub open spec fn answered_goal<O: SurfaceOracle>(
    terrain: &O,
    blocked: Set<IVec2>,
    clicked: IVec2,
    goal: IVec2,
) -> bool {
    let max = MAX_GOAL_SNAP as int;
    ||| first_suitable(terrain, blocked, clicked, max, Some(goal))
    ||| goal == clicked && first_suitable(terrain, blocked, clicked, max, None)
}

/// The route that is found from `start` to `goal`, pulled straight.
pub open spec fn found_route<O: SurfaceOracle>(
    terrain: &O,
    blocked: Set<IVec2>,
    start: IVec2,
    goal: IVec2,
) -> Option<Seq<IVec2>> {
    match astar_outcome(terrain, blocked, start, goal).0 {
        Some(p) => Some(string_pulled(terrain, blocked, p)),
        None => None,
    }
}

/// Snaps the goal to a cell that can be stood on, falling back to the goal as it
/// is, searches, and string-pulls the route.
pub fn find_path<O: SurfaceOracle>(terrain: &O, request: PathRequest, blocked: &ColumnSet) -> (r:
    PathSearchResult)
    requires
        has_room(request.start),
        suitable(terrain, blocked@, request.goal) || rings_fit(
            request.goal,
            MAX_GOAL_SNAP as int,
        ),
    ensures
        answered_goal(terrain, blocked@, request.goal, r.goal),
        r.expansions == astar_outcome(terrain, blocked@, request.start, r.goal).1,
        route_view(r.cells) == found_route(terrain, blocked@, request.start, r.goal),
{
    let goal = match snap_goal(terrain, request.goal, blocked) {
        Some(c) => c,
        None => request.goal,
    };
    let (cells, expansions) = astar(terrain, request.start, goal, blocked);
    let cells = match cells {
        Some(route) => Some(smooth_path(terrain, route.as_slice(), blocked)),
        None => None,
    };
    PathSearchResult { cells, goal, expansions }
}

/// The columns to walk through for a finished search, without the start cell:
/// the player already stands there. `None` when there is nowhere to walk.
pub fn waypoints(result: &PathSearchResult) -> (w: Option<Vec<IVec2>>)
    ensures
        match result.cells {
            Some(cells) => if cells@.len() > 1 {
                w matches Some(v) && v@ == cells@.skip(1)
            } else {
                w is None
            },
            None => w is None,
        },
        w matches Some(v) ==> v@.len() > 0 && (result.cells matches Some(cells) && cells@.len()
            == v@.len() + 1 && v@.last() == cells@.last() && forall|i: int|
            0 <= i < v@.len() ==> #[trigger] v@[i] == cells@[i + 1]),
{
    match &result.cells {
        None => None,
        Some(cells) => {
            let mut out: Vec<IVec2> = Vec::new();
            let mut i: usize = 1;
            while i < cells.len()
                invariant
                    1 <= i,
                    out@ == cells@.skip(1).take(i - 1),
                    i <= cells@.len() || cells@.len() == 0,
                    cells@.len() > 0 || i == 1,
                decreases cells@.len() - i,
            {
                out.push(cells[i]);
                i += 1;
                assert(out@ =~= cells@.skip(1).take(i - 1));
            }
            if out.len() == 0 {
                return None;
            }
            assert(out@ =~= cells@.skip(1));
            Some(out)
        },
    }
}

/// A route that is found from land leads from the start to the goal, and every
/// straight hop of it can be walked: over cells that can be stood on, without a
/// climb that is too high, and without cutting a corner.
pub proof fn found_routes_can_be_walked<O: SurfaceOracle>(
    terrain: &O,
    blocked: Set<IVec2>,
    start: IVec2,
    goal: IVec2,
)
    requires
        start != goal,
        terrain.land(start),
        found_route(terrain, blocked, start, goal) is Some,
    ensures
        ({
            let out = found_route(terrain, blocked, start, goal)->0;
            &&& out.len() >= 2
            &&& out[0] == start
            &&& out.last() == goal
            &&& forall|i: int|
                0 <= i < out.len() - 1 ==> line_clear(
                    terrain,
                    blocked,
                    start,
                    #[trigger] out[i],
                    out[i + 1],
                )
        }),
{
    let route = astar_outcome(terrain, blocked, start, goal).0->0;
    let out = string_pulled(terrain, blocked, route);
    astar_is_sound_optimal_and_complete(terrain, blocked, start, goal);
    smoothing_keeps_ends_and_clearance(terrain, blocked, route);
    assert forall|i: int| 0 <= i < out.len() - 1 implies line_clear(
        terrain,
        blocked,
        start,
        #[trigger] out[i],
        out[i + 1],
    ) by {
        smoothed_hops_are_clear(terrain, blocked, route, i);
    }
}

/// The goal that is answered for is walkable and not blocked if anything within 32
/// columns of the click is, and no such column is nearer; the click itself is kept
/// where it can be walked to, and where nothing can.
pub proof fn goals_snap_to_reachable_ground<O: SurfaceOracle>(
    terrain: &O,
    blocked: Set<IVec2>,
    clicked: IVec2,
    goal: IVec2,
    d: IVec2,
)
    requires
        answered_goal(terrain, blocked, clicked, goal),
    ensures
        terrain.land(clicked) && !blocked.contains(clicked) ==> goal == clicked,
        -32 <= goal.x - clicked.x <= 32,
        -32 <= goal.y - clicked.y <= 32,
        terrain.land(d) && !blocked.contains(d) && -32 <= d.x - clicked.x <= 32 && -32 <= d.y
            - clicked.y <= 32 ==> {
            &&& terrain.land(goal)
            &&& !blocked.contains(goal)
            &&& ring_of(clicked, goal) <= ring_of(clicked, d)
        },
        !terrain.land(goal) || blocked.contains(goal) ==> goal == clicked,
{
    assert(suitable(terrain, blocked, d) == (terrain.land(d) && !blocked.contains(d)));
    assert(suitable(terrain, blocked, clicked) == (terrain.land(clicked) && !blocked.contains(
        clicked,
    )));
}

/// A request is answered with no route when it starts at its goal, and otherwise only
/// when there is none or the search gave up after 60000 expansions; a route that is
/// found is the cheapest one, pulled straight.
pub proof fn requests_are_answered<O: SurfaceOracle>(
    terrain: &O,
    blocked: Set<IVec2>,
    start: IVec2,
    goal: IVec2,
    q: Seq<IVec2>,
)
    ensures
        start == goal ==> found_route(terrain, blocked, start, goal) is None,
        start != goal && leads_to(terrain, blocked, start, goal, q) && astar_outcome(
            terrain,
            blocked,
            start,
            goal,
        ).1 != 60_000 ==> found_route(terrain, blocked, start, goal) is Some && exists|
            p: Seq<IVec2>,
        |
            {
                &&& #[trigger] leads_to(terrain, blocked, start, goal, p)
                &&& toll_le(route_cost(terrain, p), route_cost(terrain, q))
                &&& found_route(terrain, blocked, start, goal) == Some(
                    string_pulled(terrain, blocked, p),
                )
            },
{
    if start != goal {
        astar_is_sound_optimal_and_complete(terrain, blocked, start, goal);
    }
}

} // verus!
