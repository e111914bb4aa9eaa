use inf3d::columns::{ColumnMap, ColumnSet};
use inf3d::grid::IVec2;
use inf3d::pathfinding::frontier::{Entry, Frontier};
use inf3d::pathfinding::ground::{octile, FlatGround, SurfaceOracle, MAX_STEP};
use inf3d::pathfinding::line::{cell_line_of_sight, smooth_path, supercover};
use inf3d::pathfinding::request::{find_path, waypoints, PathRequest, PathSearchResult};
use inf3d::pathfinding::search::{astar, reconstruct};
use inf3d::pathfinding::search_model::MAX_EXPANSIONS;
use inf3d::pathfinding::snap::{nearest_land, snap_goal};
use inf3d::pathfinding::toll::Cost;

fn no_blocked() -> ColumnSet {
    ColumnSet::new()
}

fn c(x: i32, y: i32) -> IVec2 {
    IVec2::new(x, y)
}

fn as_f64(h: Cost) -> f64 {
    (h.ones as f64 + h.roots as f64 * std::f64::consts::SQRT_2) / 2.0
}

fn adjacent(a: IVec2, b: IVec2) -> bool {
    let (dx, dy) = ((b.x - a.x).abs(), (b.y - a.y).abs());
    dx <= 1 && dy <= 1 && a != b
}

/// Every column is land of one height.
struct FlatLand {
    height: i32,
}

impl SurfaceOracle for FlatLand {
    fn height(&self, cell: IVec2) -> i32 {
        self.surface_y(cell.x, cell.y)
    }
    fn land(&self, cell: IVec2) -> bool {
        self.is_land(cell.x, cell.y)
    }
    fn surface_y(&self, _x: i32, _z: i32) -> i32 {
        self.height
    }
    fn is_land(&self, _x: i32, _z: i32) -> bool {
        true
    }
}

/// Flat land with an unwalkable wall of finite length.
struct WalledLand {
    wall_x: i32,
    wall_z_min: i32,
    wall_z_max: i32,
}

impl SurfaceOracle for WalledLand {
    fn height(&self, cell: IVec2) -> i32 {
        self.surface_y(cell.x, cell.y)
    }
    fn land(&self, cell: IVec2) -> bool {
        self.is_land(cell.x, cell.y)
    }
    fn surface_y(&self, _x: i32, _z: i32) -> i32 {
        5
    }
    fn is_land(&self, x: i32, z: i32) -> bool {
        !(x == self.wall_x && z >= self.wall_z_min && z <= self.wall_z_max)
    }
}

/// Flat low land with a one-column-thick ridge that is too high to climb.
struct StepLand {
    ridge_x: i32,
    ridge_z_min: i32,
    ridge_z_max: i32,
    low: i32,
    high: i32,
}

impl SurfaceOracle for StepLand {
    fn height(&self, cell: IVec2) -> i32 {
        self.surface_y(cell.x, cell.y)
    }
    fn land(&self, cell: IVec2) -> bool {
        self.is_land(cell.x, cell.y)
    }
    fn surface_y(&self, x: i32, z: i32) -> i32 {
        if x == self.ridge_x && z >= self.ridge_z_min && z <= self.ridge_z_max {
            self.high
        } else {
            self.low
        }
    }
    fn is_land(&self, _x: i32, _z: i32) -> bool {
        true
    }
}

/// Only `(0, 0)` is land.
struct Island;

impl SurfaceOracle for Island {
    fn height(&self, cell: IVec2) -> i32 {
        self.surface_y(cell.x, cell.y)
    }
    fn land(&self, cell: IVec2) -> bool {
        self.is_land(cell.x, cell.y)
    }
    fn surface_y(&self, _x: i32, _z: i32) -> i32 {
        5
    }
    fn is_land(&self, x: i32, z: i32) -> bool {
        x == 0 && z == 0
    }
}

fn cliff() -> StepLand {
    StepLand {
        ridge_x: 2,
        ridge_z_min: -2,
        ridge_z_max: 2,
        low: 5,
        high: 5 + MAX_STEP + 1,
    }
}

fn wall() -> WalledLand {
    WalledLand {
        wall_x: 2,
        wall_z_min: -2,
        wall_z_max: 2,
    }
}

#[test]
fn octile_is_zero_for_equal_cells() {
    let p = c(3, -7);
    assert_eq!(octile(p, p), Cost { ones: 0, roots: 0 });
}

#[test]
fn octile_orthogonal_matches_manhattan() {
    let h = octile(c(0, 0), c(4, 0));
    assert!((as_f64(h) - 4.0).abs() < 1e-6);
    assert_eq!(h, Cost { ones: 8, roots: 0 });
}

#[test]
fn octile_diagonal_uses_sqrt2() {
    let h = octile(c(0, 0), c(3, 3));
    let expected = 3.0 * std::f64::consts::SQRT_2;
    assert!((as_f64(h) - expected).abs() < 1e-6);
    assert_eq!(h, Cost { ones: 0, roots: 6 });
}

#[test]
fn reconstruct_walks_chain_forward() {
    let mut came_from: ColumnMap<IVec2> = ColumnMap::new();
    came_from.insert(c(1, 0), c(0, 0));
    came_from.insert(c(2, 1), c(1, 0));
    came_from.insert(c(3, 2), c(2, 1));
    let path = reconstruct(&came_from, c(3, 2));
    assert_eq!(path, vec![c(0, 0), c(1, 0), c(2, 1), c(3, 2)]);
}

#[test]
fn astar_returns_none_when_start_equals_goal() {
    let terrain = FlatLand { height: 5 };
    let (path, expansions) = astar(&terrain, c(0, 0), c(0, 0), &no_blocked());
    assert!(path.is_none());
    assert_eq!(expansions, 0);
}

#[test]
fn astar_finds_straight_line_on_flat_land() {
    let terrain = FlatLand { height: 5 };
    let start = c(0, 0);
    let goal = c(4, 0);
    let (path, _expansions) = astar(&terrain, start, goal, &no_blocked());
    let path = path.expect("flat land must always be reachable");
    assert_eq!(path.first().copied(), Some(start));
    assert_eq!(path.last().copied(), Some(goal));
    assert_eq!(path.len(), 5);
    for window in path.windows(2) {
        assert!(adjacent(window[0], window[1]));
    }
}

#[test]
fn astar_routes_around_a_wall() {
    let terrain = wall();
    let start = c(0, 0);
    let goal = c(4, 0);
    let (path, _expansions) = astar(&terrain, start, goal, &no_blocked());
    let path = path.expect("there is a route around the wall");
    for cell in &path {
        assert!(terrain.is_land(cell.x, cell.y));
    }
    assert_eq!(path.first().copied(), Some(start));
    assert_eq!(path.last().copied(), Some(goal));
    assert!(path.len() > 5);
}

#[test]
fn astar_gives_up_when_goal_is_unreachable() {
    let (path, expansions) = astar(&Island, c(0, 0), c(10, 10), &no_blocked());
    assert!(path.is_none());
    assert!(expansions < MAX_EXPANSIONS);
    assert_eq!(expansions, 1);
}

#[test]
fn astar_routes_around_blocked_prop_cells() {
    let terrain = FlatLand { height: 5 };
    let mut blocked = ColumnSet::new();
    for z in -2..=2 {
        blocked.insert(c(2, z));
    }
    let start = c(0, 0);
    let goal = c(4, 0);
    let (path, _expansions) = astar(&terrain, start, goal, &blocked);
    let path = path.expect("there is a route around the blocked cells");
    for cell in &path {
        assert!(!blocked.contains(*cell));
    }
    assert_eq!(path.first().copied(), Some(start));
    assert_eq!(path.last().copied(), Some(goal));
    assert!(path.len() > 5);
}

#[test]
fn astar_escape_hatch_allows_blocked_start() {
    let terrain = FlatLand { height: 5 };
    let start = c(0, 0);
    let goal = c(3, 0);
    let mut blocked = ColumnSet::new();
    blocked.insert(start);
    let (path, _expansions) = astar(&terrain, start, goal, &blocked);
    let path = path.expect("start escape hatch keeps the route valid");
    assert_eq!(path.first().copied(), Some(start));
    assert_eq!(path.last().copied(), Some(goal));
}

#[test]
fn snap_goal_returns_goal_when_already_walkable() {
    let terrain = FlatLand { height: 5 };
    let goal = c(4, 2);
    assert_eq!(snap_goal(&terrain, goal, &no_blocked()), Some(goal));
}

#[test]
fn snap_goal_snaps_blocked_goal_to_adjacent_reachable_cell() {
    let terrain = FlatLand { height: 5 };
    let goal = c(4, 0);
    let mut blocked = ColumnSet::new();
    blocked.insert(goal);
    let snapped = snap_goal(&terrain, goal, &blocked).expect("a free neighbour exists");
    assert_ne!(snapped, goal);
    assert!(!blocked.contains(snapped) && terrain.is_land(snapped.x, snapped.y));
    assert!(adjacent(goal, snapped));
    // lowest dx, then lowest dz
    assert_eq!(snapped, c(3, -1));

    let start = c(0, 0);
    let (path, _expansions) = astar(&terrain, start, snapped, &blocked);
    let path = path.expect("route to the snapped goal exists");
    assert_eq!(path.first().copied(), Some(start));
    assert_eq!(path.last().copied(), Some(snapped));
    for cell in &path {
        assert!(!blocked.contains(*cell));
    }
}

#[test]
fn snap_goal_gives_up_outside_radius() {
    let mut blocked = ColumnSet::new();
    blocked.insert(c(0, 0));
    assert_eq!(snap_goal(&Island, c(0, 0), &blocked), None);
}

#[test]
fn astar_no_diagonal_when_both_cardinals_blocked() {
    let terrain = FlatLand { height: 5 };
    let start = c(0, 0);
    let goal = c(1, 1);
    let mut blocked = ColumnSet::new();
    blocked.insert(c(1, 0));
    blocked.insert(c(0, 1));
    blocked.insert(c(2, 1));
    blocked.insert(c(1, 2));
    let (path, _expansions) = astar(&terrain, start, goal, &blocked);
    assert!(path.is_none());
}

#[test]
fn astar_allows_diagonal_when_cardinals_clear() {
    let terrain = FlatLand { height: 5 };
    let start = c(0, 0);
    let goal = c(1, 1);
    let (path, expansions) = astar(&terrain, start, goal, &no_blocked());
    assert_eq!(path.expect("open diagonal is reachable"), vec![start, goal]);
    // the start and the goal were popped
    assert_eq!(expansions, 2);
}

#[test]
fn astar_expansion_count_is_bounded() {
    let terrain = FlatLand { height: 5 };
    let (_path, expansions) = astar(&terrain, c(0, 0), c(20, 20), &no_blocked());
    assert!(expansions <= MAX_EXPANSIONS);
}

#[test]
fn max_expansions_is_raised_for_async_worker() {
    assert!(MAX_EXPANSIONS >= 60_000);
}

#[test]
fn supercover_straight_line_is_dense() {
    let cells = supercover(c(0, 0), c(3, 0));
    assert_eq!(cells, vec![c(0, 0), c(1, 0), c(2, 0), c(3, 0)]);
}

#[test]
fn supercover_diagonal_walks_corners() {
    let cells = supercover(c(0, 0), c(2, 2));
    assert_eq!(cells, vec![c(0, 0), c(1, 1), c(2, 2)]);
    for w in cells.windows(2) {
        assert!(adjacent(w[0], w[1]));
    }
}

#[test]
fn line_of_sight_is_clear_on_open_land() {
    let terrain = FlatLand { height: 5 };
    assert!(cell_line_of_sight(&terrain, c(0, 0), c(5, 3), c(0, 0), &no_blocked()));
}

#[test]
fn line_of_sight_is_blocked_through_a_wall() {
    assert!(!cell_line_of_sight(&wall(), c(0, 0), c(4, 0), c(0, 0), &no_blocked()));
}

#[test]
fn line_of_sight_is_blocked_through_a_height_cliff() {
    let terrain = cliff();
    let dh = (terrain.surface_y(1, 0) - terrain.surface_y(2, 0)).abs();
    assert!(dh > MAX_STEP);
    assert!(!cell_line_of_sight(&terrain, c(0, 0), c(4, 0), c(0, 0), &no_blocked()));
}

#[test]
fn smooth_path_keeps_bend_around_a_height_cliff() {
    let terrain = cliff();
    let start = c(0, 0);
    let goal = c(4, 0);
    let (route, _) = astar(&terrain, start, goal, &no_blocked());
    let route = route.expect("a route around the cliff exists");
    let smoothed = smooth_path(&terrain, &route, &no_blocked());
    assert_eq!(smoothed.first().copied(), Some(start));
    assert_eq!(smoothed.last().copied(), Some(goal));
    assert!(smoothed.len() >= 3);
    for hop in smoothed.windows(2) {
        assert!(cell_line_of_sight(&terrain, hop[0], hop[1], start, &no_blocked()));
    }
}

#[test]
fn smooth_path_collapses_straight_open_field() {
    let terrain = FlatLand { height: 5 };
    let start = c(0, 0);
    let goal = c(6, 0);
    let (route, _) = astar(&terrain, start, goal, &no_blocked());
    let route = route.expect("flat land is reachable");
    let smoothed = smooth_path(&terrain, &route, &no_blocked());
    assert_eq!(smoothed, vec![start, goal]);
}

#[test]
fn smooth_path_collapses_straight_open_diagonal() {
    let terrain = FlatLand { height: 5 };
    let start = c(0, 0);
    let goal = c(5, 5);
    let (route, _) = astar(&terrain, start, goal, &no_blocked());
    let route = route.expect("flat land is reachable");
    let smoothed = smooth_path(&terrain, &route, &no_blocked());
    assert_eq!(smoothed, vec![start, goal]);
}

#[test]
fn smooth_path_keeps_bend_around_a_wall() {
    let terrain = wall();
    let start = c(0, 0);
    let goal = c(4, 0);
    let (route, _) = astar(&terrain, start, goal, &no_blocked());
    let route = route.expect("a route around the wall exists");
    let smoothed = smooth_path(&terrain, &route, &no_blocked());
    assert_eq!(smoothed.first().copied(), Some(start));
    assert_eq!(smoothed.last().copied(), Some(goal));
    assert!(smoothed.len() >= 3);
    for hop in smoothed.windows(2) {
        assert!(cell_line_of_sight(&terrain, hop[0], hop[1], start, &no_blocked()));
    }
}

#[test]
fn smooth_path_preserves_short_routes() {
    let terrain = FlatLand { height: 5 };
    let two = vec![c(0, 0), c(1, 0)];
    assert_eq!(smooth_path(&terrain, &two, &no_blocked()), two);
    let one = vec![c(0, 0)];
    assert_eq!(smooth_path(&terrain, &one, &no_blocked()), one);
}

#[test]
fn supercover_lists_every_cell_the_segment_enters() {
    let cells = supercover(c(0, 0), c(5, 3));
    assert_eq!(
        cells,
        vec![c(0, 0), c(1, 0), c(1, 1), c(2, 1), c(3, 2), c(4, 2), c(4, 3), c(5, 3)]
    );
    let back = supercover(c(5, 3), c(0, 0));
    let mut reversed = cells.clone();
    reversed.reverse();
    assert_eq!(back, reversed);
    assert_eq!(supercover(c(-2, 7), c(-2, 7)), vec![c(-2, 7)]);
}

#[test]
fn line_of_sight_does_not_cut_corners() {
    let terrain = FlatLand { height: 5 };
    let mut blocked = ColumnSet::new();
    blocked.insert(c(1, 0));
    assert!(!cell_line_of_sight(&terrain, c(0, 0), c(2, 2), c(0, 0), &blocked));
    // a wall corner between two cells of a slanted line is seen
    let mut corner = ColumnSet::new();
    corner.insert(c(1, 1));
    assert!(!cell_line_of_sight(&terrain, c(0, 0), c(5, 3), c(0, 0), &corner));
}

#[test]
fn line_of_sight_exempts_only_the_start_from_blocking() {
    let terrain = FlatLand { height: 5 };
    let mut blocked = ColumnSet::new();
    blocked.insert(c(0, 0));
    assert!(cell_line_of_sight(&terrain, c(0, 0), c(3, 0), c(0, 0), &blocked));
    assert!(!cell_line_of_sight(&terrain, c(0, 0), c(3, 0), c(9, 9), &blocked));
}

#[test]
fn astar_takes_the_cheapest_route() {
    // around a wall of five cells with open ends, both ways cost the same
    let (path, _) = astar(&wall(), c(0, 0), c(4, 0), &no_blocked());
    let path = path.expect("a route");
    let mut ones = 0;
    let mut diagonals = 0;
    for w in path.windows(2) {
        if w[0].x != w[1].x && w[0].y != w[1].y {
            diagonals += 1;
        } else {
            ones += 1;
        }
    }
    let cost = ones as f64 + diagonals as f64 * std::f64::consts::SQRT_2;
    // two diagonals and two straight steps up, two along, and the same down
    assert!(cost <= 2.0 * (1.0 * std::f64::consts::SQRT_2 + 2.0) + 2.0 + 1e-9, "{cost}");
}

#[test]
fn astar_prefers_level_ground() {
    // one raised column in the way: walking round it costs two diagonals more
    // than half a unit up and half a unit down
    struct Bump;
    impl SurfaceOracle for Bump {
        fn height(&self, cell: IVec2) -> i32 {
            self.surface_y(cell.x, cell.y)
        }
        fn land(&self, cell: IVec2) -> bool {
            self.is_land(cell.x, cell.y)
        }
        fn surface_y(&self, x: i32, z: i32) -> i32 {
            if x == 1 && z == 0 {
                6
            } else {
                5
            }
        }
        fn is_land(&self, _x: i32, _z: i32) -> bool {
            true
        }
    }
    let (path, _) = astar(&Bump, c(0, 0), c(2, 0), &no_blocked());
    let path = path.expect("a route");
    // over the bump: 1 + 0.5 + 1 + 0.5 = 3; round it: 2 * sqrt(2) < 3, but the
    // diagonals are flanked by the bump, which can be climbed, so they are open
    assert_eq!(path.len(), 3);
    assert_ne!(path[1], c(1, 0));
}

#[test]
fn astar_stops_at_the_cap() {
    // an unreachable goal on endless land
    struct Moat;
    impl SurfaceOracle for Moat {
        fn height(&self, cell: IVec2) -> i32 {
            self.surface_y(cell.x, cell.y)
        }
        fn land(&self, cell: IVec2) -> bool {
            self.is_land(cell.x, cell.y)
        }
        fn surface_y(&self, _x: i32, _z: i32) -> i32 {
            5
        }
        fn is_land(&self, x: i32, z: i32) -> bool {
            !(x >= 99 && x <= 101 && z >= 99 && z <= 101) || (x == 100 && z == 100)
        }
    }
    let (path, expansions) = astar(&Moat, c(0, 0), c(100, 100), &no_blocked());
    assert!(path.is_none());
    assert_eq!(expansions, MAX_EXPANSIONS);
}

#[test]
fn the_heuristic_never_overestimates() {
    // eight diagonals cost exactly what the heuristic says
    let h = octile(c(0, 0), c(8, 8));
    let mut walked = Cost { ones: 0, roots: 0 };
    for _ in 0..8 {
        walked = walked.plus(Cost { ones: 0, roots: 2 });
    }
    assert_eq!(h, walked);
    assert!(h.le(walked));
}

#[test]
fn frontier_pops_by_cost_then_cell() {
    let mut f = Frontier::new();
    let e = |ones: i64, roots: i64, x: i32, y: i32| Entry {
        cost: Cost { ones, roots },
        cell: c(x, y),
    };
    f.push(e(3, 0, 9, 9));
    f.push(e(0, 2, 1, 5)); // 2.828
    f.push(e(3, 0, 2, 7));
    f.push(e(3, 0, 2, 1));
    f.push(e(0, 0, 0, 0));
    let mut order = Vec::new();
    while let Some(x) = f.pop() {
        order.push(x.cell);
    }
    assert_eq!(order, vec![c(0, 0), c(1, 5), c(2, 1), c(2, 7), c(9, 9)]);
}

#[test]
fn costs_compare_as_real_numbers() {
    let a = Cost { ones: 7, roots: 0 };
    let b = Cost { ones: 0, roots: 5 }; // 7.071
    assert!(a.lt(b) && a.le(b) && !b.le(a));
    let d = Cost { ones: -7, roots: 5 };
    assert!(Cost { ones: 0, roots: 0 }.lt(d));
    assert!(a.le(a) && !a.lt(a));
    assert_eq!(a.plus(b), Cost { ones: 7, roots: 5 });
}

#[test]
fn find_path_snaps_searches_and_smooths() {
    let terrain = FlatGround { surface: 3 };
    let mut blocked = ColumnSet::new();
    blocked.insert(c(6, 0));
    let r = find_path(&terrain, PathRequest { start: c(0, 0), goal: c(6, 0) }, &blocked);
    assert_eq!(r.goal, c(5, -1));
    let cells = r.cells.as_ref().expect("reachable");
    assert_eq!(cells.first().copied(), Some(c(0, 0)));
    assert_eq!(cells.last().copied(), Some(c(5, -1)));
    let w = waypoints(&r).expect("somewhere to walk");
    assert_eq!(w, cells[1..].to_vec());
}

#[test]
fn found_routes_have_clear_hops() {
    let terrain = wall();
    let r = find_path(&terrain, PathRequest { start: c(0, 0), goal: c(2, 0) }, &no_blocked());
    // the goal is a wall cell and snaps next to it
    assert_eq!(r.goal, c(1, -1));
    let far = find_path(&terrain, PathRequest { start: c(0, 0), goal: c(4, 0) }, &no_blocked());
    let cells = far.cells.expect("a route");
    assert!(cells.len() >= 3);
    for hop in cells.windows(2) {
        assert!(cell_line_of_sight(&terrain, hop[0], hop[1], c(0, 0), &no_blocked()));
    }
}

#[test]
fn waypoints_need_a_route() {
    let none = PathSearchResult { cells: None, goal: c(0, 0), expansions: 3 };
    assert!(waypoints(&none).is_none());
    let stay = PathSearchResult { cells: Some(vec![c(0, 0)]), goal: c(0, 0), expansions: 0 };
    assert!(waypoints(&stay).is_none());
}

#[test]
fn nearest_land_searches_rings_and_falls_back() {
    struct East;
    impl SurfaceOracle for East {
        fn height(&self, cell: IVec2) -> i32 {
            self.surface_y(cell.x, cell.y)
        }
        fn land(&self, cell: IVec2) -> bool {
            self.is_land(cell.x, cell.y)
        }
        fn surface_y(&self, _x: i32, _z: i32) -> i32 {
            1
        }
        fn is_land(&self, x: i32, _z: i32) -> bool {
            x >= 3
        }
    }
    assert_eq!(nearest_land(&East, c(5, 5)), c(5, 5));
    assert_eq!(nearest_land(&East, c(0, 0)), c(3, -3));
    struct Sea;
    impl SurfaceOracle for Sea {
        fn height(&self, cell: IVec2) -> i32 {
            self.surface_y(cell.x, cell.y)
        }
        fn land(&self, cell: IVec2) -> bool {
            self.is_land(cell.x, cell.y)
        }
        fn surface_y(&self, _x: i32, _z: i32) -> i32 {
            0
        }
        fn is_land(&self, _x: i32, _z: i32) -> bool {
            false
        }
    }
    assert_eq!(nearest_land(&Sea, c(8, -2)), c(8, -2));
}
