//! The search as a sequence of states, and what every state keeps: each known
//! column is reached at its recorded cost, and nothing cheaper is overlooked.

use vstd::multiset::Multiset;
use vstd::prelude::*;

use crate::grid::IVec2;
use crate::pathfinding::frontier::{is_least, lemma_lead_cost, lemma_least_exists, Lead};
use crate::pathfinding::ground::{
    adjacent, edge, fee, is_route, leads_to, lemma_fee_positive, octile_is_consistent, octile_toll,
    route_cost, SurfaceOracle,
};
use crate::pathfinding::toll::{
    lemma_toll_plus_le, lemma_toll_total, lemma_toll_trans, toll_le, toll_lt, toll_plus, Toll,
};

verus! {

/// Safety bound on A* expansion so a click into the void can't hang the worker.
pub const MAX_EXPANSIONS: usize = 60_000;

/// The state of a search between two pops.
pub struct Search {
    /// Columns waiting to be expanded, keyed by estimated total cost.
    pub open: Multiset<Lead>,
    /// The cheapest known cost of each column reached so far.
    pub g: Map<IVec2, Toll>,
    /// The column each one was reached from.
    pub from: Map<IVec2, IVec2>,
    /// How many leads were taken from `open`.
    pub pops: nat,
}

/// The offset of the `k`-th neighbour: the four sides, then the four corners.
pub open spec fn offset(k: int) -> (int, int) {
    if k == 0 {
        (1, 0)
    } else if k == 1 {
        (-1, 0)
    } else if k == 2 {
        (0, 1)
    } else if k == 3 {
        (0, -1)
    } else if k == 4 {
        (1, 1)
    } else if k == 5 {
        (1, -1)
    } else if k == 6 {
        (-1, 1)
    } else {
        (-1, -1)
    }
}

pub open spec fn neighbor(c: IVec2, k: int) -> IVec2 {
    IVec2 { x: (c.x + offset(k).0) as i32, y: (c.y + offset(k).1) as i32 }
}

/// Records the step `cur -> next` if it can be walked and is the cheapest way
/// to `next` so far. `base` is the cost of `cur`.
pub open spec fn relax<O: SurfaceOracle>(
    terrain: &O,
    blocked: Set<IVec2>,
    start: IVec2,
    goal: IVec2,
    s: Search,
    cur: IVec2,
    base: Toll,
    next: IVec2,
) -> Search {
    let tentative = toll_plus(base, fee(terrain, cur, next));
    if edge(terrain, blocked, start, cur, next) && (!s.g.contains_key(next) || toll_lt(
        tentative,
        s.g[next],
    )) {
        Search {
            open: s.open.insert((toll_plus(tentative, octile_toll(next, goal)), next)),
            g: s.g.insert(next, tentative),
            from: s.from.insert(next, cur),
            pops: s.pops,
        }
    } else {
        s
    }
}

/// The first `k` neighbours of `cur` relaxed, in order.
pub open spec fn relax_first<O: SurfaceOracle>(
    terrain: &O,
    blocked: Set<IVec2>,
    start: IVec2,
    goal: IVec2,
    s: Search,
    cur: IVec2,
    k: nat,
) -> Search
    decreases k,
{
    if k == 0 {
        s
    } else {
        let before = relax_first(terrain, blocked, start, goal, s, cur, (k - 1) as nat);
        relax(terrain, blocked, start, goal, before, cur, s.g[cur], neighbor(cur, k - 1))
    }
}

pub proof fn lemma_relax_first_pops<O: SurfaceOracle>(
    terrain: &O,
    blocked: Set<IVec2>,
    start: IVec2,
    goal: IVec2,
    s: Search,
    cur: IVec2,
    k: nat,
)
    ensures
        relax_first(terrain, blocked, start, goal, s, cur, k).pops == s.pops,
    decreases k,
{
    if k > 0 {
        lemma_relax_first_pops(terrain, blocked, start, goal, s, cur, (k - 1) as nat);
    }
}

/// The state before the first pop.
pub open spec fn first_state(start: IVec2, goal: IVec2) -> Search {
    Search {
        open: Multiset::<Lead>::empty().insert((octile_toll(start, goal), start)),
        g: Map::<IVec2, Toll>::empty().insert(start, (0, 0)),
        from: Map::empty(),
        pops: 0,
    }
}

/// `s` with the lead `e` taken from the open set.
pub open spec fn popped(s: Search, e: Lead) -> Search {
    Search { open: s.open.remove(e), pops: s.pops + 1, ..s }
}

/// Following `from` from `c` ends after `n` steps.
pub open spec fn trail_ends(from: Map<IVec2, IVec2>, c: IVec2, n: nat) -> bool
    decreases n,
{
    if n == 0 {
        !from.contains_key(c)
    } else {
        from.contains_key(c) && trail_ends(from, from[c], (n - 1) as nat)
    }
}

/// The last `n` steps that lead to `c`, in walking order.
pub open spec fn trail(from: Map<IVec2, IVec2>, c: IVec2, n: nat) -> Seq<IVec2>
    decreases n,
{
    if n == 0 {
        seq![c]
    } else {
        trail(from, from[c], (n - 1) as nat).push(c)
    }
}

/// Following `from` from `c` ends.
pub open spec fn has_trail(from: Map<IVec2, IVec2>, c: IVec2) -> bool {
    exists|n: nat| trail_ends(from, c, n)
}

/// The whole way that leads to `c`.
pub open spec fn full_trail(from: Map<IVec2, IVec2>, c: IVec2) -> Seq<IVec2> {
    trail(from, c, choose|n: nat| trail_ends(from, c, n))
}

/// What the search returns from state `s`: the route, if it gets to `goal`, and
/// the number of leads taken from the open set.
pub open spec fn outcome_from<O: SurfaceOracle>(
    terrain: &O,
    blocked: Set<IVec2>,
    start: IVec2,
    goal: IVec2,
    s: Search,
) -> (Option<Seq<IVec2>>, nat)
    decreases MAX_EXPANSIONS - s.pops,
{
    if s.open.len() == 0 {
        (None, s.pops)
    } else {
        let e = choose|e: Lead| is_least(s.open, e);
        let t = popped(s, e);
        if e.1 == goal {
            (Some(full_trail(s.from, goal)), t.pops)
        } else if t.pops >= MAX_EXPANSIONS {
            (None, t.pops)
        } else {
            proof {
                lemma_relax_first_pops(terrain, blocked, start, goal, t, e.1, 8);
            }
            outcome_from(
                terrain,
                blocked,
                start,
                goal,
                relax_first(terrain, blocked, start, goal, t, e.1, 8),
            )
        }
    }
}

/// What A* returns: nothing for `start == goal`, else the outcome of the search.
pub open spec fn astar_outcome<O: SurfaceOracle>(
    terrain: &O,
    blocked: Set<IVec2>,
    start: IVec2,
    goal: IVec2,
) -> (Option<Seq<IVec2>>, nat) {
    if start == goal {
        (None, 0)
    } else {
        outcome_from(terrain, blocked, start, goal, first_state(start, goal))
    }
}

/// Every step out of `c` leads to a column that is known at no greater cost.
pub open spec fn settled<O: SurfaceOracle>(
    terrain: &O,
    blocked: Set<IVec2>,
    start: IVec2,
    g: Map<IVec2, Toll>,
    c: IVec2,
) -> bool {
    forall|d: IVec2|
        #[trigger] edge(terrain, blocked, start, c, d) ==> g.contains_key(d) && toll_le(
            g[d],
            toll_plus(g[c], fee(terrain, c, d)),
        )
}

/// The lead under which `c` waits at its present cost.
pub open spec fn lead_of(s: Search, goal: IVec2, c: IVec2) -> Lead {
    (toll_plus(s.g[c], octile_toll(c, goal)), c)
}

/// Every known column was reached by a walkable step from a known column, at no
/// less than that column's cost and the step's.
pub open spec fn links_ok<O: SurfaceOracle>(
    terrain: &O,
    blocked: Set<IVec2>,
    start: IVec2,
    s: Search,
) -> bool {
    &&& s.g.dom().finite()
    &&& s.g.contains_key(start)
    &&& s.g[start] == (0int, 0int)
    &&& !s.from.contains_key(start)
    &&& forall|c: IVec2| #[trigger] s.from.contains_key(c) ==> s.g.contains_key(c)
    &&& forall|c: IVec2| #[trigger] s.g.contains_key(c) ==> toll_le((0, 0), s.g[c])
    &&& forall|c: IVec2|
        #[trigger] s.g.contains_key(c) && c != start ==> {
            &&& s.from.contains_key(c)
            &&& s.g.contains_key(s.from[c])
            &&& edge(terrain, blocked, start, s.from[c], c)
            &&& toll_le(toll_plus(s.g[s.from[c]], fee(terrain, s.from[c], c)), s.g[c])
        }
}

/// Leads name known columns and never promise less than is known.
pub open spec fn leads_ok(goal: IVec2, s: Search) -> bool {
    forall|e: Lead| #[trigger]
        s.open.count(e) > 0 ==> s.g.contains_key(e.1) && toll_le(lead_of(s, goal, e.1).0, e.0)
}

/// Every known column but `skip` waits at its present cost, or was expanded at it.
pub open spec fn nothing_lost<O: SurfaceOracle>(
    terrain: &O,
    blocked: Set<IVec2>,
    start: IVec2,
    goal: IVec2,
    s: Search,
    done: Set<IVec2>,
    skip: Option<IVec2>,
) -> bool {
    forall|c: IVec2| #[trigger]
        s.g.contains_key(c) && Some(c) != skip ==> s.open.count(lead_of(s, goal, c)) > 0 || (
        done.contains(c) && settled(terrain, blocked, start, s.g, c))
}

/// Costs and columns stay within reach of the number of pops.
pub open spec fn in_reach(start: IVec2, s: Search) -> bool {
    forall|c: IVec2| #[trigger]
        s.g.contains_key(c) ==> {
            &&& 0 <= s.g[c].0 <= 3 * s.pops
            &&& 0 <= s.g[c].1 <= 2 * s.pops
            &&& start.x - s.pops <= c.x <= start.x + s.pops
            &&& start.y - s.pops <= c.y <= start.y + s.pops
        }
}

/// What holds between two pops; `done` are the columns expanded so far.
pub open spec fn search_ok<O: SurfaceOracle>(
    terrain: &O,
    blocked: Set<IVec2>,
    start: IVec2,
    goal: IVec2,
    s: Search,
    done: Set<IVec2>,
) -> bool {
    &&& links_ok(terrain, blocked, start, s)
    &&& leads_ok(goal, s)
    &&& nothing_lost(terrain, blocked, start, goal, s, done, None)
    &&& !done.contains(goal)
    &&& in_reach(start, s)
}

/// Room around `start` for every column that the search can look at.
pub open spec fn has_room(start: IVec2) -> bool {
    &&& i32::MIN + (MAX_EXPANSIONS - 1) <= start.x <= i32::MAX - (MAX_EXPANSIONS - 1)
    &&& i32::MIN + (MAX_EXPANSIONS - 1) <= start.y <= i32::MAX - (MAX_EXPANSIONS - 1)
}

pub(crate) proof fn lemma_first_state<O: SurfaceOracle>(
    terrain: &O,
    blocked: Set<IVec2>,
    start: IVec2,
    goal: IVec2,
)
    ensures
        search_ok(terrain, blocked, start, goal, first_state(start, goal), Set::empty()),
{
    broadcast use vstd::multiset::group_multiset_axioms;

    let s = first_state(start, goal);
    let h = octile_toll(start, goal);
    assert(toll_plus((0, 0), h) == h);
    assert(lead_of(s, goal, start) == (h, start));
    lemma_toll_total(h, h);
    lemma_toll_total((0, 0), (0, 0));
    assert(s.open.count((h, start)) > 0);
    assert forall|c: IVec2| #[trigger] s.g.contains_key(c) implies c == start by {}
    assert forall|e: Lead| #[trigger] s.open.count(e) > 0 implies e == (h, start) by {}
}

/// A step leads to one of the eight neighbours.
pub(crate) proof fn lemma_edge_is_neighbor(a: IVec2, b: IVec2) -> (k: int)
    requires
        adjacent(a, b),
    ensures
        0 <= k < 8,
        neighbor(a, k) == b,
{
    let (dx, dy) = (b.x - a.x, b.y - a.y);
    if dy == 0 {
        if dx == 1 {
            0
        } else {
            1
        }
    } else if dx == 0 {
        if dy == 1 {
            2
        } else {
            3
        }
    } else if dx == 1 {
        if dy == 1 {
            4
        } else {
            5
        }
    } else {
        if dy == 1 {
            6
        } else {
            7
        }
    }
}

/// What holds while the neighbours of `cur` are relaxed, `base` being its cost.
pub open spec fn relaxing_ok<O: SurfaceOracle>(
    terrain: &O,
    blocked: Set<IVec2>,
    start: IVec2,
    goal: IVec2,
    s: Search,
    done: Set<IVec2>,
    cur: IVec2,
    base: Toll,
) -> bool {
    &&& links_ok(terrain, blocked, start, s)
    &&& leads_ok(goal, s)
    &&& nothing_lost(terrain, blocked, start, goal, s, done, Some(cur))
    &&& !done.contains(goal)
    &&& in_reach(start, s)
    &&& s.g.contains_key(cur)
    &&& s.g[cur] == base
    &&& 0 <= base.0 <= 3 * (s.pops - 1)
    &&& 0 <= base.1 <= 2 * (s.pops - 1)
    &&& start.x - (s.pops - 1) <= cur.x <= start.x + (s.pops - 1)
    &&& start.y - (s.pops - 1) <= cur.y <= start.y + (s.pops - 1)
}

pub(crate) proof fn lemma_pop<O: SurfaceOracle>(
    terrain: &O,
    blocked: Set<IVec2>,
    start: IVec2,
    goal: IVec2,
    s: Search,
    done: Set<IVec2>,
    e: Lead,
)
    requires
        search_ok(terrain, blocked, start, goal, s, done),
        s.open.count(e) > 0,
    ensures
        relaxing_ok(terrain, blocked, start, goal, popped(s, e), done, e.1, s.g[e.1]),
{
    broadcast use vstd::multiset::group_multiset_axioms;

    let t = popped(s, e);
    assert forall|f: Lead| #[trigger] t.open.count(f) > 0 implies t.g.contains_key(f.1) && toll_le(
        lead_of(t, goal, f.1).0,
        f.0,
    ) by {
        assert(s.open.count(f) > 0);
        assert(lead_of(t, goal, f.1) == lead_of(s, goal, f.1));
    }
    assert forall|c: IVec2| #[trigger] t.g.contains_key(c) && Some(c) != Some(e.1) implies
        t.open.count(lead_of(t, goal, c)) > 0 || (done.contains(c) && settled(
        terrain,
        blocked,
        start,
        t.g,
        c,
    )) by {
        assert(s.g.contains_key(c));
        assert(lead_of(t, goal, c) == lead_of(s, goal, c));
        assert(lead_of(s, goal, c) != e);
    }
}

pub(crate) proof fn lemma_relax<O: SurfaceOracle>(
    terrain: &O,
    blocked: Set<IVec2>,
    start: IVec2,
    goal: IVec2,
    s: Search,
    done: Set<IVec2>,
    cur: IVec2,
    base: Toll,
    next: IVec2,
)
    requires
        relaxing_ok(terrain, blocked, start, goal, s, done, cur, base),
    ensures
        ({
            let t = relax(terrain, blocked, start, goal, s, cur, base, next);
            &&& relaxing_ok(terrain, blocked, start, goal, t, done, cur, base)
            &&& t.pops == s.pops
            &&& forall|c: IVec2| #[trigger]
                s.g.contains_key(c) ==> t.g.contains_key(c) && toll_le(t.g[c], s.g[c])
            &&& edge(terrain, blocked, start, cur, next) ==> t.g.contains_key(next) && toll_le(
                t.g[next],
                toll_plus(base, fee(terrain, cur, next)),
            )
        }),
{
    broadcast use vstd::multiset::group_multiset_axioms;

    let t = relax(terrain, blocked, start, goal, s, cur, base, next);
    let tentative = toll_plus(base, fee(terrain, cur, next));
    assert forall|c: IVec2| #[trigger] s.g.contains_key(c) implies t.g.contains_key(c) && toll_le(
        t.g[c],
        s.g[c],
    ) by {
        lemma_toll_total(t.g[c], s.g[c]);
    }
    if edge(terrain, blocked, start, cur, next) {
        lemma_toll_total(tentative, tentative);
        if s.g.contains_key(next) {
            lemma_toll_total(tentative, s.g[next]);
        }
    }
    if t != s {
        lemma_fee_positive(terrain, cur, next);
        assert(toll_le((0, 0), tentative)) by {
            lemma_toll_plus_le((0, 0), base, (0, 0), fee(terrain, cur, next));
            assert(toll_plus((0, 0), (0, 0)) == (0int, 0int));
        }
        assert(next != cur);
        // start stays at cost zero
        assert(next != start);
        // links
        assert forall|c: IVec2| #[trigger] t.g.contains_key(c) && c != start implies {
            &&& t.from.contains_key(c)
            &&& t.g.contains_key(t.from[c])
            &&& edge(terrain, blocked, start, t.from[c], c)
            &&& toll_le(toll_plus(t.g[t.from[c]], fee(terrain, t.from[c], c)), t.g[c])
        } by {
            if c == next {
                lemma_toll_total(tentative, tentative);
                assert(t.g[cur] == base);
            } else {
                assert(s.g.contains_key(c));
                let p = s.from[c];
                assert(s.g.contains_key(p));
                assert(toll_le(t.g[p], s.g[p]));
                let f = fee(terrain, p, c);
                lemma_toll_total(f, f);
                lemma_toll_plus_le(t.g[p], s.g[p], f, f);
                lemma_toll_trans(toll_plus(t.g[p], f), toll_plus(s.g[p], f), s.g[c]);
            }
        }
        // leads
        assert forall|e: Lead| #[trigger] t.open.count(e) > 0 implies t.g.contains_key(e.1)
            && toll_le(lead_of(t, goal, e.1).0, e.0) by {
            if e == (toll_plus(tentative, octile_toll(next, goal)), next) {
                lemma_toll_total(e.0, e.0);
            } else {
                assert(s.open.count(e) > 0);
                assert(s.g.contains_key(e.1));
                let h = octile_toll(e.1, goal);
                lemma_toll_total(h, h);
                lemma_toll_plus_le(t.g[e.1], s.g[e.1], h, h);
                lemma_toll_trans(toll_plus(t.g[e.1], h), toll_plus(s.g[e.1], h), e.0);
            }
        }
        // waiting or settled
        assert forall|c: IVec2| #[trigger] t.g.contains_key(c) && Some(c) != Some(cur) implies
            t.open.count(lead_of(t, goal, c)) > 0 || (done.contains(c) && settled(
            terrain,
            blocked,
            start,
            t.g,
            c,
        )) by {
            if c != next {
                assert(s.g.contains_key(c));
                assert(lead_of(t, goal, c) == lead_of(s, goal, c));
                if s.open.count(lead_of(s, goal, c)) == 0 {
                    lemma_settled_stays(terrain, blocked, start, s.g, t.g, c);
                }
            }
        }
        assert forall|c: IVec2| #[trigger] t.g.contains_key(c) implies toll_le((0, 0), t.g[c]) by {
            if c != next {
                assert(s.g.contains_key(c));
            }
        }
        assert(in_reach(start, t)) by {
            assert forall|c: IVec2| #[trigger] t.g.contains_key(c) implies {
                &&& 0 <= t.g[c].0 <= 3 * t.pops
                &&& 0 <= t.g[c].1 <= 2 * t.pops
                &&& start.x - t.pops <= c.x <= start.x + t.pops
                &&& start.y - t.pops <= c.y <= start.y + t.pops
            } by {
                if c != next {
                    assert(s.g.contains_key(c));
                }
            }
        }
    }
}

proof fn lemma_settled_stays<O: SurfaceOracle>(
    terrain: &O,
    blocked: Set<IVec2>,
    start: IVec2,
    g: Map<IVec2, Toll>,
    h: Map<IVec2, Toll>,
    c: IVec2,
)
    requires
        settled(terrain, blocked, start, g, c),
        h[c] == g[c],
        forall|d: IVec2| #[trigger] g.contains_key(d) ==> h.contains_key(d) && toll_le(h[d], g[d]),
    ensures
        settled(terrain, blocked, start, h, c),
{
    assert forall|d: IVec2| #[trigger] edge(terrain, blocked, start, c, d) implies h.contains_key(d)
        && toll_le(h[d], toll_plus(h[c], fee(terrain, c, d))) by {
        assert(g.contains_key(d));
        lemma_toll_trans(h[d], g[d], toll_plus(g[c], fee(terrain, c, d)));
    }
}

pub(crate) proof fn lemma_relax_first<O: SurfaceOracle>(
    terrain: &O,
    blocked: Set<IVec2>,
    start: IVec2,
    goal: IVec2,
    s: Search,
    done: Set<IVec2>,
    cur: IVec2,
    k: nat,
)
    requires
        relaxing_ok(terrain, blocked, start, goal, s, done, cur, s.g[cur]),
    ensures
        ({
            let t = relax_first(terrain, blocked, start, goal, s, cur, k);
            &&& relaxing_ok(terrain, blocked, start, goal, t, done, cur, s.g[cur])
            &&& t.pops == s.pops
            &&& forall|j: int|
                0 <= j < k && edge(terrain, blocked, start, cur, #[trigger] neighbor(cur, j))
                    ==> t.g.contains_key(neighbor(cur, j)) && toll_le(
                    t.g[neighbor(cur, j)],
                    toll_plus(s.g[cur], fee(terrain, cur, neighbor(cur, j))),
                )
        }),
    decreases k,
{
    if k > 0 {
        lemma_relax_first(terrain, blocked, start, goal, s, done, cur, (k - 1) as nat);
        let u = relax_first(terrain, blocked, start, goal, s, cur, (k - 1) as nat);
        let next = neighbor(cur, k - 1);
        lemma_relax(terrain, blocked, start, goal, u, done, cur, s.g[cur], next);
        let t = relax_first(terrain, blocked, start, goal, s, cur, k);
        assert forall|j: int|
            0 <= j < k && edge(terrain, blocked, start, cur, #[trigger] neighbor(
                cur,
                j,
            )) implies t.g.contains_key(neighbor(cur, j)) && toll_le(
            t.g[neighbor(cur, j)],
            toll_plus(s.g[cur], fee(terrain, cur, neighbor(cur, j))),
        ) by {
            let d = neighbor(cur, j);
            if j < k - 1 {
                assert(u.g.contains_key(d));
                lemma_toll_trans(t.g[d], u.g[d], toll_plus(s.g[cur], fee(terrain, cur, d)));
            }
        }
    }
}

/// Expanding a column keeps everything that holds between two pops.
pub(crate) proof fn lemma_expand<O: SurfaceOracle>(
    terrain: &O,
    blocked: Set<IVec2>,
    start: IVec2,
    goal: IVec2,
    s: Search,
    done: Set<IVec2>,
    cur: IVec2,
)
    requires
        relaxing_ok(terrain, blocked, start, goal, s, done, cur, s.g[cur]),
        cur != goal,
    ensures
        search_ok(
            terrain,
            blocked,
            start,
            goal,
            relax_first(terrain, blocked, start, goal, s, cur, 8),
            done.insert(cur),
        ),
        relax_first(terrain, blocked, start, goal, s, cur, 8).pops == s.pops,
{
    lemma_relax_first(terrain, blocked, start, goal, s, done, cur, 8);
    let t = relax_first(terrain, blocked, start, goal, s, cur, 8);
    assert(settled(terrain, blocked, start, t.g, cur)) by {
        assert forall|d: IVec2| #[trigger] edge(terrain, blocked, start, cur, d) implies
            t.g.contains_key(d) && toll_le(t.g[d], toll_plus(t.g[cur], fee(terrain, cur, d))) by {
            let k = lemma_edge_is_neighbor(cur, d);
            assert(neighbor(cur, k) == d);
        }
    }
    assert forall|c: IVec2| #[trigger] t.g.contains_key(c) implies t.open.count(
        lead_of(t, goal, c),
    ) > 0 || (done.insert(cur).contains(c) && settled(terrain, blocked, start, t.g, c)) by {
        if c != cur {
            assert(Some(c) != Some(cur));
        }
    }
}

/// The cost of the first `j` steps of a route and the heuristic from there never
/// exceed the cost of the whole.
proof fn lemma_prefix_bound<O: SurfaceOracle>(
    terrain: &O,
    blocked: Set<IVec2>,
    start: IVec2,
    goal: IVec2,
    q: Seq<IVec2>,
    j: int,
)
    requires
        is_route(terrain, blocked, start, q),
        q.last() == goal,
        0 <= j < q.len(),
    ensures
        toll_le(
            toll_plus(route_cost(terrain, q.take(j + 1)), octile_toll(q[j], goal)),
            route_cost(terrain, q),
        ),
    decreases q.len() - j,
{
    if j == q.len() - 1 {
        assert(q.take(j + 1) =~= q);
        let c = route_cost(terrain, q);
        assert(octile_toll(goal, goal) == (0int, 0int));
        assert(toll_plus(c, (0, 0)) == c);
        lemma_toll_total(c, c);
    } else {
        lemma_prefix_bound(terrain, blocked, start, goal, q, j + 1);
        let p = route_cost(terrain, q.take(j + 1));
        let f = fee(terrain, q[j], q[j + 1]);
        assert(edge(terrain, blocked, start, q[j], q[j + 1]));
        assert(q.take(j + 2).drop_last() =~= q.take(j + 1));
        assert(route_cost(terrain, q.take(j + 2)) == toll_plus(p, f));
        octile_is_consistent(terrain, q[j], q[j + 1], goal);
        lemma_toll_total(p, p);
        let h0 = octile_toll(q[j], goal);
        let h1 = octile_toll(q[j + 1], goal);
        lemma_toll_plus_le(p, p, h0, toll_plus(f, h1));
        assert(toll_plus(p, toll_plus(f, h1)) == toll_plus(toll_plus(p, f), h1));
        lemma_toll_trans(
            toll_plus(p, h0),
            toll_plus(toll_plus(p, f), h1),
            route_cost(terrain, q),
        );
    }
}

/// Along any route, either a column waits in the open set at a cost no greater
/// than that of the route so far, or all of the route up to `j` is settled so.
proof fn lemma_along_route<O: SurfaceOracle>(
    terrain: &O,
    blocked: Set<IVec2>,
    start: IVec2,
    goal: IVec2,
    s: Search,
    done: Set<IVec2>,
    q: Seq<IVec2>,
    j: int,
)
    requires
        search_ok(terrain, blocked, start, goal, s, done),
        leads_to(terrain, blocked, start, goal, q),
        0 <= j < q.len(),
    ensures
        (exists|i: int|
            0 <= i < j && s.open.count(lead_of(s, goal, #[trigger] q[i])) > 0 && toll_le(
                lead_of(s, goal, q[i]).0,
                route_cost(terrain, q),
            )) || (s.g.contains_key(q[j]) && toll_le(
            s.g[q[j]],
            route_cost(terrain, q.take(j + 1)),
        )),
    decreases j,
{
    if j == 0 {
        assert(q.take(1) =~= seq![start]);
        lemma_toll_total((0, 0), (0, 0));
    } else {
        lemma_along_route(terrain, blocked, start, goal, s, done, q, j - 1);
        if !(exists|i: int|
            0 <= i < j - 1 && s.open.count(lead_of(s, goal, #[trigger] q[i])) > 0 && toll_le(
                lead_of(s, goal, q[i]).0,
                route_cost(terrain, q),
            )) {
            let c = q[j - 1];
            let p = route_cost(terrain, q.take(j));
            assert(s.g.contains_key(c));
            if s.open.count(lead_of(s, goal, c)) > 0 {
                let h = octile_toll(c, goal);
                lemma_prefix_bound(terrain, blocked, start, goal, q, j - 1);
                lemma_toll_total(h, h);
                lemma_toll_plus_le(s.g[c], p, h, h);
                lemma_toll_trans(
                    toll_plus(s.g[c], h),
                    toll_plus(p, h),
                    route_cost(terrain, q),
                );
            } else {
                assert(Some(c) != None::<IVec2>);
                assert(settled(terrain, blocked, start, s.g, c));
                assert(edge(terrain, blocked, start, q[j - 1], q[j - 1 + 1]));
                let f = fee(terrain, c, q[j]);
                lemma_toll_total(f, f);
                lemma_toll_plus_le(s.g[c], p, f, f);
                lemma_toll_trans(s.g[q[j]], toll_plus(s.g[c], f), toll_plus(p, f));
                assert(q.take(j + 1).drop_last() =~= q.take(j));
            }
        }
    }
}

/// When the goal comes first in the open set, no route is cheaper than its
/// recorded cost.
pub(crate) proof fn lemma_goal_optimal<O: SurfaceOracle>(
    terrain: &O,
    blocked: Set<IVec2>,
    start: IVec2,
    goal: IVec2,
    s: Search,
    done: Set<IVec2>,
    e: Lead,
    q: Seq<IVec2>,
)
    requires
        search_ok(terrain, blocked, start, goal, s, done),
        is_least(s.open, e),
        e.1 == goal,
        leads_to(terrain, blocked, start, goal, q),
    ensures
        toll_le(s.g[goal], route_cost(terrain, q)),
{
    let last = q.len() - 1;
    lemma_along_route(terrain, blocked, start, goal, s, done, q, last);
    if exists|i: int|
        0 <= i < last && s.open.count(lead_of(s, goal, #[trigger] q[i])) > 0 && toll_le(
            lead_of(s, goal, q[i]).0,
            route_cost(terrain, q),
        ) {
        let i = choose|i: int|
            0 <= i < last && s.open.count(lead_of(s, goal, #[trigger] q[i])) > 0 && toll_le(
                lead_of(s, goal, q[i]).0,
                route_cost(terrain, q),
            );
        let f = lead_of(s, goal, q[i]);
        lemma_lead_cost(e, f);
        assert(octile_toll(goal, goal) == (0int, 0int));
        assert(toll_plus(s.g[goal], (0, 0)) == s.g[goal]);
        assert(lead_of(s, goal, goal).0 == s.g[goal]);
        lemma_toll_trans(s.g[goal], e.0, f.0);
        lemma_toll_trans(s.g[goal], f.0, route_cost(terrain, q));
    } else {
        assert(q.take(last + 1) =~= q);
    }
}

/// When the open set is empty, no route to the goal exists.
pub(crate) proof fn lemma_drained<O: SurfaceOracle>(
    terrain: &O,
    blocked: Set<IVec2>,
    start: IVec2,
    goal: IVec2,
    s: Search,
    done: Set<IVec2>,
    q: Seq<IVec2>,
)
    requires
        search_ok(terrain, blocked, start, goal, s, done),
        s.open.len() == 0,
    ensures
        !leads_to(terrain, blocked, start, goal, q),
{
    broadcast use vstd::multiset::group_multiset_axioms;

    assert forall|e: Lead| s.open.count(e) == 0 by {
        if s.open.count(e) > 0 {
            assert(s.open.remove(e).len() == s.open.len() - 1);
        }
    }
    if leads_to(terrain, blocked, start, goal, q) {
        lemma_along_route(terrain, blocked, start, goal, s, done, q, q.len() - 1);
        assert(s.g.contains_key(goal));
        assert(Some(goal) != None::<IVec2>);
        assert(false);
    }
}

/// The columns that are known at a lower cost than `c`.
pub open spec fn cheaper(g: Map<IVec2, Toll>, c: IVec2) -> Set<IVec2> {
    g.dom().filter(|d: IVec2| toll_lt(g[d], g[c]))
}

/// The links from a known column lead back to `start`, along a route that costs
/// no more than is recorded.
pub(crate) proof fn lemma_trail<O: SurfaceOracle>(
    terrain: &O,
    blocked: Set<IVec2>,
    start: IVec2,
    s: Search,
    c: IVec2,
) -> (n: nat)
    requires
        links_ok(terrain, blocked, start, s),
        s.g.contains_key(c),
    ensures
        trail_ends(s.from, c, n),
        leads_to(terrain, blocked, start, c, trail(s.from, c, n)),
        toll_le(route_cost(terrain, trail(s.from, c, n)), s.g[c]),
    decreases cheaper(s.g, c).len(),
{
    if c == start {
        lemma_toll_total((0, 0), (0, 0));
        0
    } else {
        let p = s.from[c];
        let f = fee(terrain, p, c);
        lemma_fee_positive(terrain, p, c);
        // p is strictly cheaper than c
        assert(toll_lt(s.g[p], s.g[c])) by {
            if toll_le(s.g[c], s.g[p]) {
                lemma_toll_trans(toll_plus(s.g[p], f), s.g[c], s.g[p]);
                assert(toll_le(f, (0, 0)));
            }
        }
        lemma_cheaper_shrinks(s.g, p, c);
        let n = lemma_trail(terrain, blocked, start, s, p);
        let q = trail(s.from, p, n);
        let r = trail(s.from, c, n + 1);
        assert(r == q.push(c));
        assert(r.drop_last() =~= q);
        assert(q.last() == p);
        assert(is_route(terrain, blocked, start, r)) by {
            assert forall|i: int| 0 <= i < r.len() - 1 implies edge(
                terrain,
                blocked,
                start,
                #[trigger] r[i],
                r[i + 1],
            ) by {
                if i < q.len() - 1 {
                    assert(edge(terrain, blocked, start, q[i], q[i + 1]));
                }
            }
        }
        assert(route_cost(terrain, r) == toll_plus(route_cost(terrain, q), f));
        lemma_toll_total(f, f);
        lemma_toll_plus_le(route_cost(terrain, q), s.g[p], f, f);
        lemma_toll_trans(route_cost(terrain, r), toll_plus(s.g[p], f), s.g[c]);
        n + 1
    }
}

proof fn lemma_cheaper_shrinks(g: Map<IVec2, Toll>, p: IVec2, c: IVec2)
    requires
        g.dom().finite(),
        g.contains_key(p),
        toll_lt(g[p], g[c]),
    ensures
        cheaper(g, p).len() < cheaper(g, c).len(),
{
    lemma_toll_total(g[p], g[p]);
    assert(cheaper(g, c).contains(p));
    assert(!cheaper(g, p).contains(p));
    assert forall|d: IVec2| cheaper(g, p).contains(d) implies cheaper(g, c).contains(d) by {
        lemma_toll_total(g[p], g[c]);
        lemma_toll_total(g[d], g[c]);
        if toll_le(g[c], g[d]) {
            lemma_toll_trans(g[p], g[c], g[d]);
        }
    }
    vstd::set_lib::lemma_len_subset(cheaper(g, p), cheaper(g, c).remove(p));
}

/// A trail ends after one number of steps only.
pub(crate) proof fn lemma_trail_unique(from: Map<IVec2, IVec2>, c: IVec2, m: nat, n: nat)
    requires
        trail_ends(from, c, m),
        trail_ends(from, c, n),
    ensures
        m == n,
    decreases m,
{
    if m > 0 && n > 0 {
        lemma_trail_unique(from, from[c], (m - 1) as nat, (n - 1) as nat);
    }
}

/// What is promised of an outcome of the search.
pub open spec fn outcome_ok<O: SurfaceOracle>(
    terrain: &O,
    blocked: Set<IVec2>,
    start: IVec2,
    goal: IVec2,
    outcome: (Option<Seq<IVec2>>, nat),
) -> bool {
    &&& outcome.1 <= MAX_EXPANSIONS
    &&& match outcome.0 {
        Some(p) => leads_to(terrain, blocked, start, goal, p) && forall|q: Seq<IVec2>| #[trigger]
            leads_to(terrain, blocked, start, goal, q) ==> toll_le(
                route_cost(terrain, p),
                route_cost(terrain, q),
            ),
        None => outcome.1 == MAX_EXPANSIONS || forall|q: Seq<IVec2>|
            !leads_to(terrain, blocked, start, goal, q),
    }
}

proof fn lemma_outcome_from<O: SurfaceOracle>(
    terrain: &O,
    blocked: Set<IVec2>,
    start: IVec2,
    goal: IVec2,
    s: Search,
    done: Set<IVec2>,
)
    requires
        search_ok(terrain, blocked, start, goal, s, done),
        s.pops < MAX_EXPANSIONS,
    ensures
        outcome_ok(
            terrain,
            blocked,
            start,
            goal,
            outcome_from(terrain, blocked, start, goal, s),
        ),
    decreases MAX_EXPANSIONS - s.pops,
{
    if s.open.len() == 0 {
        assert forall|q: Seq<IVec2>| !leads_to(terrain, blocked, start, goal, q) by {
            lemma_drained(terrain, blocked, start, goal, s, done, q);
        }
    } else {
        let w = lemma_least_exists(s.open);
        let e = choose|e: Lead| is_least(s.open, e);
        assert(is_least(s.open, e));
        let t = popped(s, e);
        if e.1 == goal {
            assert(s.g.contains_key(goal));
            let n = lemma_trail(terrain, blocked, start, s, goal);
            let m = choose|m: nat| trail_ends(s.from, goal, m);
            lemma_trail_unique(s.from, goal, m, n);
            let p = full_trail(s.from, goal);
            assert forall|q: Seq<IVec2>| #[trigger]
                leads_to(terrain, blocked, start, goal, q) implies toll_le(
                route_cost(terrain, p),
                route_cost(terrain, q),
            ) by {
                lemma_goal_optimal(terrain, blocked, start, goal, s, done, e, q);
                lemma_toll_trans(route_cost(terrain, p), s.g[goal], route_cost(terrain, q));
            }
        } else if t.pops < MAX_EXPANSIONS {
            lemma_pop(terrain, blocked, start, goal, s, done, e);
            lemma_expand(terrain, blocked, start, goal, t, done, e.1);
            lemma_outcome_from(
                terrain,
                blocked,
                start,
                goal,
                relax_first(terrain, blocked, start, goal, t, e.1, 8),
                done.insert(e.1),
            );
        }
    }
}

/// A route that the search returns is walkable from `start` to `goal`, and no
/// walkable route is cheaper. Without one, either the cap on expansions was hit
/// or no route exists.
pub proof fn astar_is_sound_optimal_and_complete<O: SurfaceOracle>(
    terrain: &O,
    blocked: Set<IVec2>,
    start: IVec2,
    goal: IVec2,
)
    requires
        start != goal,
    ensures
        outcome_ok(terrain, blocked, start, goal, astar_outcome(terrain, blocked, start, goal)),
{
    lemma_first_state(terrain, blocked, start, goal);
    lemma_outcome_from(
        terrain,
        blocked,
        start,
        goal,
        first_state(start, goal),
        Set::empty(),
    );
}

proof fn lemma_found_after<O: SurfaceOracle>(
    terrain: &O,
    blocked: Set<IVec2>,
    start: IVec2,
    goal: IVec2,
    s: Search,
)
    ensures
        outcome_from(terrain, blocked, start, goal, s).1 >= s.pops,
        outcome_from(terrain, blocked, start, goal, s).0 is Some ==> outcome_from(
            terrain,
            blocked,
            start,
            goal,
            s,
        ).1 > s.pops,
    decreases MAX_EXPANSIONS - s.pops,
{
    if s.open.len() > 0 {
        let e = choose|e: Lead| is_least(s.open, e);
        let t = popped(s, e);
        if e.1 != goal && t.pops < MAX_EXPANSIONS {
            lemma_relax_first_pops(terrain, blocked, start, goal, t, e.1, 8);
            lemma_found_after(
                terrain,
                blocked,
                start,
                goal,
                relax_first(terrain, blocked, start, goal, t, e.1, 8),
            );
        }
    }
}

/// A search counts what it expands: the start is always expanded, a goal that is
/// found is expanded too, and the count never passes 60000. Nothing is expanded
/// where the start is the goal.
pub proof fn searches_count_their_expansions<O: SurfaceOracle>(
    terrain: &O,
    blocked: Set<IVec2>,
    start: IVec2,
    goal: IVec2,
)
    ensures
        start == goal ==> astar_outcome(terrain, blocked, start, goal) == (
            None::<Seq<IVec2>>,
            0nat,
        ),
        start != goal ==> 1 <= astar_outcome(terrain, blocked, start, goal).1 <= 60_000,
        astar_outcome(terrain, blocked, start, goal).0 is Some ==> astar_outcome(
            terrain,
            blocked,
            start,
            goal,
        ).1 >= 2,
{
    broadcast use vstd::multiset::group_multiset_axioms;

    if start != goal {
        astar_is_sound_optimal_and_complete(terrain, blocked, start, goal);
        let s = first_state(start, goal);
        let w: Lead = (octile_toll(start, goal), start);
        assert(s.open.count(w) > 0);
        assert(s.open.len() == 1);
        let l = lemma_least_exists(s.open);
        let e = choose|e: Lead| is_least(s.open, e);
        assert(is_least(s.open, e));
        assert(e == w);
        let t = popped(s, e);
        lemma_relax_first_pops(terrain, blocked, start, goal, t, e.1, 8);
        lemma_found_after(
            terrain,
            blocked,
            start,
            goal,
            relax_first(terrain, blocked, start, goal, t, e.1, 8),
        );
    }
}

/// Each column of the way was reached from the one before it.
pub open spec fn linked(from: Map<IVec2, IVec2>, way: Seq<IVec2>, i: int) -> bool {
    from.contains_key(way[i]) && from[way[i]] == way[i - 1]
}

proof fn lemma_trail_links(from: Map<IVec2, IVec2>, c: IVec2, n: nat, way: Seq<IVec2>)
    requires
        trail_ends(from, c, n),
        way == trail(from, c, n),
    ensures
        way.len() == n + 1,
        way.last() == c,
        !from.contains_key(way[0]),
        forall|i: int| 1 <= i < way.len() ==> #[trigger] linked(from, way, i),
    decreases n,
{
    if n > 0 {
        let before = trail(from, from[c], (n - 1) as nat);
        lemma_trail_links(from, from[c], (n - 1) as nat, before);
        assert(way == before.push(c));
        assert forall|i: int| 1 <= i < way.len() implies #[trigger] linked(from, way, i) by {
            if i < n {
                assert(linked(from, before, i));
            } else {
                assert(way[i - 1] == before.last());
            }
        }
    }
}

/// A reconstructed way ends at the goal, each column of it was reached from the one
/// before, and nothing leads to the first.
pub proof fn ways_follow_their_links(from: Map<IVec2, IVec2>, goal: IVec2)
    requires
        has_trail(from, goal),
    ensures
        ({
            let way = full_trail(from, goal);
            &&& way.len() > 0
            &&& way.last() == goal
            &&& !from.contains_key(way[0])
            &&& forall|i: int| 1 <= i < way.len() ==> #[trigger] linked(from, way, i)
        }),
{
    lemma_trail_links(
        from,
        goal,
        choose|n: nat| trail_ends(from, goal, n),
        full_trail(from, goal),
    );
}

/// The eight neighbours are all the columns that touch, each once.
pub proof fn neighbors_touch(c: IVec2, j: int, k: int)
    requires
        i32::MIN < c.x < i32::MAX,
        i32::MIN < c.y < i32::MAX,
        0 <= j < 8,
        0 <= k < 8,
    ensures
        adjacent(c, neighbor(c, k)),
        neighbor(c, j) == neighbor(c, k) ==> j == k,
{
}

proof fn lemma_nothing_to_relax<O: SurfaceOracle>(
    terrain: &O,
    blocked: Set<IVec2>,
    start: IVec2,
    goal: IVec2,
    s: Search,
    cur: IVec2,
    k: nat,
)
    requires
        forall|d: IVec2| !#[trigger] edge(terrain, blocked, start, cur, d),
    ensures
        relax_first(terrain, blocked, start, goal, s, cur, k) == s,
    decreases k,
{
    if k > 0 {
        lemma_nothing_to_relax(terrain, blocked, start, goal, s, cur, (k - 1) as nat);
        assert(!edge(terrain, blocked, start, cur, neighbor(cur, k - 1)));
    }
}

/// A start that no step leaves is expanded, and nothing else is.
pub proof fn stranded_searches_expand_once<O: SurfaceOracle>(
    terrain: &O,
    blocked: Set<IVec2>,
    start: IVec2,
    goal: IVec2,
)
    requires
        start != goal,
        forall|d: IVec2| !#[trigger] edge(terrain, blocked, start, start, d),
    ensures
        astar_outcome(terrain, blocked, start, goal) == (None::<Seq<IVec2>>, 1nat),
{
    broadcast use vstd::multiset::group_multiset_axioms;

    reveal_with_fuel(outcome_from, 2);
    let s = first_state(start, goal);
    let w: Lead = (octile_toll(start, goal), start);
    assert(s.open.count(w) == 1);
    assert(s.open.len() == 1);
    let l = lemma_least_exists(s.open);
    let e = choose|e: Lead| is_least(s.open, e);
    assert(is_least(s.open, e));
    assert(e == w);
    let t = popped(s, e);
    assert(t.open.len() == 0);
    lemma_nothing_to_relax(terrain, blocked, start, goal, t, e.1, 8);
}

/// A goal next to the start that can be stepped to is found by that one step, unless a
/// detour is cheaper.
pub proof fn next_door_goals_cost_at_most_a_step<O: SurfaceOracle>(
    terrain: &O,
    blocked: Set<IVec2>,
    start: IVec2,
    goal: IVec2,
)
    requires
        edge(terrain, blocked, start, start, goal),
        astar_outcome(terrain, blocked, start, goal).1 < 60_000,
    ensures
        astar_outcome(terrain, blocked, start, goal).0 matches Some(p) && toll_le(
            route_cost(terrain, p),
            fee(terrain, start, goal),
        ),
{
    astar_is_sound_optimal_and_complete(terrain, blocked, start, goal);
    let q = seq![start, goal];
    assert(leads_to(terrain, blocked, start, goal, q));
    assert(q.drop_last() =~= seq![start]);
    assert(route_cost(terrain, seq![start]) == (0int, 0int));
    assert(route_cost(terrain, q) == fee(terrain, start, goal));
}

} // verus!
