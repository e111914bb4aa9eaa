//! 8-connected A* over the terrain surface grid.

use vstd::prelude::*;

use crate::columns::{ColumnMap, ColumnSet};
use crate::grid::IVec2;
use crate::pathfinding::frontier::{is_least, lemma_least_unique, Entry, Frontier, Lead};
use crate::pathfinding::ground::{can_step, octile, step_cost, SurfaceOracle};
use crate::pathfinding::search_model::{
    astar_is_sound_optimal_and_complete, astar_outcome, first_state, full_trail, has_room,
    has_trail, lemma_expand, lemma_first_state, lemma_pop, lemma_relax_first, lemma_trail, neighbor,
    outcome_from, outcome_ok, popped, relax_first, relaxing_ok, search_ok, trail, trail_ends,
    Search, MAX_EXPANSIONS,
};
use crate::pathfinding::toll::{Cost, Toll};

verus! {

/// The cells of a route, if there is one.
pub open spec fn route_view(r: Option<Vec<IVec2>>) -> Option<Seq<IVec2>> {
    match r {
        Some(p) => Some(p@),
        None => None,
    }
}

/// The costs in a map.
pub open spec fn tolls(m: Map<IVec2, Cost>) -> Map<IVec2, Toll> {
    m.map_values(|c: Cost| c@)
}

proof fn lemma_tolls_insert(m: Map<IVec2, Cost>, c: IVec2, v: Cost)
    ensures
        tolls(m.insert(c, v)) == tolls(m).insert(c, v@),
{
    assert(tolls(m.insert(c, v)) =~= tolls(m).insert(c, v@));
}

/// Walk `came_from` back from `goal` to the start, returning the cell path in
/// forward order (start first, `goal` last).
pub fn reconstruct(came_from: &ColumnMap<IVec2>, goal: IVec2) -> (path: Vec<IVec2>)
    requires
        has_trail(came_from@, goal),
    ensures
        path@ == full_trail(came_from@, goal),
{
    let ghost total = choose|n: nat| trail_ends(came_from@, goal, n);
    let ghost full = trail(came_from@, goal, total);
    let ghost mut left = total;
    let mut back: Vec<IVec2> = Vec::new();
    back.push(goal);
    let mut current = goal;
    let mut next = came_from.get(goal);
    proof {
        lemma_trail_len(came_from@, goal, total);
        assert(full.take(total as int + 1) =~= full);
    }
    while next.is_some()
        invariant
            trail_ends(came_from@, current, left),
            left <= total,
            next == (if came_from@.contains_key(current) {
                Some(came_from@[current])
            } else {
                None
            }),
            full.len() == total + 1,
            full.take(left as int + 1) == trail(came_from@, current, left),
            back@.len() == total - left + 1,
            forall|i: int| 0 <= i < back@.len() ==> #[trigger] back@[i] == full[total - i],
        ensures
            left == 0,
        decreases left,
    {
        if let Some(prev) = next {
            proof {
                let shorter = trail(came_from@, prev, (left - 1) as nat);
                lemma_trail_len(came_from@, prev, (left - 1) as nat);
                assert(trail(came_from@, current, left) == shorter.push(current));
                assert(full.take(left as int) =~= full.take(left as int + 1).take(left as int));
                assert(full.take(left as int + 1).take(left as int) =~= shorter);
                assert(shorter.last() == prev) by {
                    lemma_trail_last(came_from@, prev, (left - 1) as nat);
                }
                assert(full[left - 1] == full.take(left as int)[left - 1]);
                left = (left - 1) as nat;
            }
            back.push(prev);
            current = prev;
            next = came_from.get(prev);
        }
    }
    let mut path: Vec<IVec2> = Vec::new();
    let mut i: usize = back.len();
    while i > 0
        invariant
            i <= back@.len(),
            back@.len() == total + 1,
            full.len() == total + 1,
            path@.len() == back@.len() - i,
            forall|k: int| 0 <= k < back@.len() ==> #[trigger] back@[k] == full[total - k],
            forall|k: int| 0 <= k < path@.len() ==> #[trigger] path@[k] == full[k],
        decreases i,
    {
        i -= 1;
        path.push(back[i]);
    }
    assert(path@ =~= full);
    path
}

proof fn lemma_trail_len(from: Map<IVec2, IVec2>, c: IVec2, n: nat)
    ensures
        trail(from, c, n).len() == n + 1,
    decreases n,
{
    if n > 0 {
        lemma_trail_len(from, from[c], (n - 1) as nat);
    }
}

proof fn lemma_trail_last(from: Map<IVec2, IVec2>, c: IVec2, n: nat)
    ensures
        trail(from, c, n).last() == c,
{
}

/// The `k`-th neighbour of a cell: the four sides, then the four corners.
fn neighbor_of(c: IVec2, k: usize) -> (n: IVec2)
    requires
        k < 8,
        i32::MIN < c.x < i32::MAX,
        i32::MIN < c.y < i32::MAX,
    ensures
        n == neighbor(c, k as int),
{
    if k == 0 {
        IVec2 { x: c.x + 1, y: c.y }
    } else if k == 1 {
        IVec2 { x: c.x - 1, y: c.y }
    } else if k == 2 {
        IVec2 { x: c.x, y: c.y + 1 }
    } else if k == 3 {
        IVec2 { x: c.x, y: c.y - 1 }
    } else if k == 4 {
        IVec2 { x: c.x + 1, y: c.y + 1 }
    } else if k == 5 {
        IVec2 { x: c.x + 1, y: c.y - 1 }
    } else if k == 6 {
        IVec2 { x: c.x - 1, y: c.y + 1 }
    } else {
        IVec2 { x: c.x - 1, y: c.y - 1 }
    }
}

/// The state that the search holds between two pops.
spec fn holds(
    s: Search,
    open: Frontier,
    g_score: ColumnMap<Cost>,
    came_from: ColumnMap<IVec2>,
) -> bool {
    &&& open.wf()
    &&& open.leads() == s.open
    &&& tolls(g_score@) == s.g
    &&& came_from@ == s.from
}

/// Relaxes the neighbours of `current`, which costs `base`.
fn expand<O: SurfaceOracle>(
    terrain: &O,
    start: IVec2,
    goal: IVec2,
    blocked: &ColumnSet,
    current: IVec2,
    open: &mut Frontier,
    g_score: &mut ColumnMap<Cost>,
    came_from: &mut ColumnMap<IVec2>,
    Ghost(s): Ghost<Search>,
    Ghost(done): Ghost<Set<IVec2>>,
)
    requires
        holds(s, *old(open), *old(g_score), *old(came_from)),
        relaxing_ok(terrain, blocked@, start, goal, s, done, current, s.g[current]),
        has_room(start),
        s.pops < MAX_EXPANSIONS,
    ensures
        holds(
            relax_first(terrain, blocked@, start, goal, s, current, 8),
            *final(open),
            *final(g_score),
            *final(came_from),
        ),
{
    let ghost base = s.g[current];
    assert(g_score@.contains_key(current)) by {
        assert(s.g.contains_key(current));
    }
    let current_g = match g_score.get(current) {
        Some(c) => c,
        None => Cost { ones: 0, roots: 0 },
    };
    assert(current_g@ == base);
    let mut k: usize = 0;
    while k < 8
        invariant
            k <= 8,
            holds(
                relax_first(terrain, blocked@, start, goal, s, current, k as nat),
                *open,
                *g_score,
                *came_from,
            ),
            relaxing_ok(terrain, blocked@, start, goal, s, done, current, base),
            base == s.g[current],
            current_g@ == base,
            has_room(start),
            s.pops < MAX_EXPANSIONS,
        decreases 8 - k,
    {
        let next = neighbor_of(current, k);
        let ghost u = relax_first(terrain, blocked@, start, goal, s, current, k as nat);
        proof {
            lemma_relax_first(terrain, blocked@, start, goal, s, done, current, k as nat);
        }
        if can_step(terrain, blocked, start, current, next) {
            let tentative = current_g.plus(step_cost(terrain, current, next));
            let better = match g_score.get(next) {
                Some(known) => {
                    proof {
                        assert(u.g.contains_key(next));
                        assert(u.g[next] == known@);
                    }
                    tentative.lt(known)
                },
                None => {
                    assert(!u.g.contains_key(next));
                    true
                },
            };
            if better {
                came_from.insert(next, current);
                proof {
                    lemma_tolls_insert(g_score@, next, tentative);
                }
                g_score.insert(next, tentative);
                open.push(Entry { cost: tentative.plus(octile(next, goal)), cell: next });
            }
        }
        k += 1;
    }
}

/// 8-connected A* over the terrain surface grid.
///
/// Cells are `(x, z)` columns. `blocked` is the set of cells the player capsule
/// cannot occupy; only `start` is exempt from it. Returns the inclusive
/// `start..=goal` path, or `None` if `goal == start`, no path exists, or the
/// search takes [`MAX_EXPANSIONS`] nodes without reaching the goal; and the
/// number of nodes popped from the open set.
///
/// A step costs 1, or the square root of 2 for a diagonal, and a half per unit of
/// height. Costs are summed exactly, so the route is a cheapest one; which of
/// several equally cheap ones it is follows from the order of the open set (cost,
/// then x, then z) and of the neighbours, and not from rounding.
pub fn astar<O: SurfaceOracle>(
    terrain: &O,
    start: IVec2,
    goal: IVec2,
    blocked: &ColumnSet,
) -> (r: (Option<Vec<IVec2>>, usize))
    requires
        has_room(start),
    ensures
        route_view(r.0) == astar_outcome(terrain, blocked@, start, goal).0,
        r.1 == astar_outcome(terrain, blocked@, start, goal).1,
        start == goal ==> r.0 is None && r.1 == 0,
        start != goal ==> outcome_ok(
            terrain,
            blocked@,
            start,
            goal,
            (route_view(r.0), r.1 as nat),
        ),
{
    if goal == start {
        return (None, 0);
    }
    proof {
        astar_is_sound_optimal_and_complete(terrain, blocked@, start, goal);
        lemma_first_state(terrain, blocked@, start, goal);
    }
    let mut open = Frontier::new();
    let mut came_from: ColumnMap<IVec2> = ColumnMap::new();
    let mut g_score: ColumnMap<Cost> = ColumnMap::new();
    let ghost mut s = first_state(start, goal);
    let ghost mut done: Set<IVec2> = Set::empty();
    let zero = Cost { ones: 0, roots: 0 };
    proof {
        lemma_tolls_insert(g_score@, start, zero);
        assert(tolls(g_score@) =~= Map::<IVec2, Toll>::empty());
    }
    g_score.insert(start, zero);
    open.push(Entry { cost: octile(start, goal), cell: start });
    let mut expansions: usize = 0;
    loop
        invariant
            start != goal,
            has_room(start),
            search_ok(terrain, blocked@, start, goal, s, done),
            holds(s, open, g_score, came_from),
            expansions == s.pops,
            expansions < MAX_EXPANSIONS,
            outcome_from(terrain, blocked@, start, goal, s) == astar_outcome(
                terrain,
                blocked@,
                start,
                goal,
            ),
            outcome_ok(
                terrain,
                blocked@,
                start,
                goal,
                astar_outcome(terrain, blocked@, start, goal),
            ),
        decreases MAX_EXPANSIONS - expansions,
    {
        broadcast use vstd::multiset::group_multiset_axioms;

        let entry = match open.pop() {
            None => {
                assert(s.open.len() == 0);
                return (None, expansions);
            },
            Some(entry) => entry,
        };
        let current = entry.cell;
        expansions += 1;
        proof {
            assert(s.open.len() > 0) by {
                assert(s.open.remove(entry@).len() == s.open.len() - 1);
            }
            let e = choose|e: Lead| is_least(s.open, e);
            lemma_least_unique(s.open, e, entry@);
        }
        if current == goal {
            proof {
                assert(s.g.contains_key(goal));
                let n = lemma_trail(terrain, blocked@, start, s, goal);
                assert(has_trail(came_from@, goal));
            }
            return (Some(reconstruct(&came_from, current)), expansions);
        }
        if expansions >= MAX_EXPANSIONS {
            return (None, expansions);
        }
        let ghost t = popped(s, entry@);
        proof {
            lemma_pop(terrain, blocked@, start, goal, s, done, entry@);
            lemma_expand(terrain, blocked@, start, goal, t, done, current);
        }
        expand(
            terrain,
            start,
            goal,
            blocked,
            current,
            &mut open,
            &mut g_score,
            &mut came_from,
            Ghost(t),
            Ghost(done),
        );
        proof {
            s = relax_first(terrain, blocked@, start, goal, t, current, 8);
            done = done.insert(current);
        }
    }
}

} // verus!
