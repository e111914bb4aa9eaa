//! Straight lines over the grid, and string pulling along them.

use vstd::prelude::*;

use crate::columns::ColumnSet;
use crate::grid::IVec2;
use crate::pathfinding::ground::{
    adjacent, can_stand, can_step, distance, edge, is_route, standable, SurfaceOracle,
};

verus! {

/// `a` moved by `i` cells towards `b` along x and by `j` cells along z.
pub open spec fn cell_at(a: IVec2, b: IVec2, i: int, j: int) -> IVec2 {
    IVec2 {
        x: (if b.x > a.x {
            a.x + i
        } else {
            a.x - i
        }) as i32,
        y: (if b.y > a.y {
            a.y + j
        } else {
            a.y - j
        }) as i32,
    }
}

/// After `i` cells along x and `j` along z, the line from centre to centre
/// crosses the next border along x before, with or after the next along z.
pub open spec fn border_order(a: IVec2, b: IVec2, i: int, j: int) -> int {
    (2 * i + 1) * distance(a.y as int, b.y as int) - (2 * j + 1) * distance(a.x as int, b.x as int)
}

/// The cells on the line from `a` to `b`, from the one at `(i, j)` on.
pub open spec fn cover_from(a: IVec2, b: IVec2, i: int, j: int) -> Seq<IVec2>
    decreases
            distance(a.x as int, b.x as int) - i + distance(a.y as int, b.y as int) - j,
    when 0 <= i <= distance(a.x as int, b.x as int) && 0 <= j <= distance(a.y as int, b.y as int)
{
    if i == distance(a.x as int, b.x as int) && j == distance(a.y as int, b.y as int) {
        seq![cell_at(a, b, i, j)]
    } else {
        proof {
            lemma_stays_in_box(a, b, i, j);
        }
        if border_order(a, b, i, j) < 0 {
            seq![cell_at(a, b, i, j)] + cover_from(a, b, i + 1, j)
        } else if border_order(a, b, i, j) == 0 {
            seq![cell_at(a, b, i, j)] + cover_from(a, b, i + 1, j + 1)
        } else {
            seq![cell_at(a, b, i, j)] + cover_from(a, b, i, j + 1)
        }
    }
}

/// The cells on the line from `a` to `b`, both included.
pub open spec fn cover(a: IVec2, b: IVec2) -> Seq<IVec2> {
    cover_from(a, b, 0, 0)
}

pub open spec fn between(a: int, b: int, c: int) -> bool {
    a <= c <= b || b <= c <= a
}

/// The segment from the centre of `a` to that of `b` passes through the inside
/// of the cell `c`.
#[verifier::opaque]
pub open spec fn passes_through(a: IVec2, b: IVec2, c: IVec2) -> bool {
    let dx = distance(a.x as int, b.x as int);
    let dz = distance(a.y as int, b.y as int);
    let i = distance(a.x as int, c.x as int);
    let j = distance(a.y as int, c.y as int);
    &&& between(a.x as int, b.x as int, c.x as int)
    &&& between(a.y as int, b.y as int, c.y as int)
    &&& a == b || ((2 * i - 1) * dz < (2 * j + 1) * dx && (2 * j - 1) * dx < (2 * i + 1) * dz)
}

proof fn lemma_mul_le(x: int, y: int, z: int)
    requires
        x <= y,
        0 <= z,
    ensures
        x * z <= y * z,
{
    assert(x * z <= y * z) by (nonlinear_arith)
        requires
            x <= y,
            0 <= z,
    ;
}

proof fn lemma_mul_lt(x: int, y: int, z: int)
    requires
        x < y,
        0 < z,
    ensures
        x * z < y * z,
{
    assert(x * z < y * z) by (nonlinear_arith)
        requires
            x < y,
            0 < z,
    ;
}

/// Which way the line leaves a cell: never past the end.
pub proof fn lemma_stays_in_box(a: IVec2, b: IVec2, i: int, j: int)
    requires
        0 <= i <= distance(a.x as int, b.x as int),
        0 <= j <= distance(a.y as int, b.y as int),
        i < distance(a.x as int, b.x as int) || j < distance(a.y as int, b.y as int),
    ensures
        border_order(a, b, i, j) <= 0 ==> i < distance(a.x as int, b.x as int),
        border_order(a, b, i, j) >= 0 ==> j < distance(a.y as int, b.y as int),
{
    let dx = distance(a.x as int, b.x as int);
    let dz = distance(a.y as int, b.y as int);
    if i == dx {
        lemma_mul_le(2 * j + 1, 2 * dz - 1, dx);
        assert((2 * dx + 1) * dz == 2 * (dx * dz) + dz) by (nonlinear_arith);
        assert((2 * dz - 1) * dx == 2 * (dx * dz) - dx) by (nonlinear_arith);
    }
    if j == dz {
        lemma_mul_le(2 * i + 1, 2 * dx - 1, dz);
        assert((2 * dz + 1) * dx == 2 * (dx * dz) + dx) by (nonlinear_arith);
        assert((2 * dx - 1) * dz == 2 * (dx * dz) - dz) by (nonlinear_arith);
    }
}

/// From a cell that the line passes through, the line goes on into the next one
/// listed, and into no other cell in between.
proof fn lemma_next_cell(a: IVec2, b: IVec2, i: int, j: int, i2: int, j2: int, c: IVec2)
    requires
        0 <= i <= distance(a.x as int, b.x as int),
        0 <= j <= distance(a.y as int, b.y as int),
        i < distance(a.x as int, b.x as int) || j < distance(a.y as int, b.y as int),
        passes_through(a, b, cell_at(a, b, i, j)),
        i2 == (if border_order(a, b, i, j) <= 0 {
            i + 1
        } else {
            i
        }),
        j2 == (if border_order(a, b, i, j) >= 0 {
            j + 1
        } else {
            j
        }),
    ensures
        0 <= i2 <= distance(a.x as int, b.x as int),
        0 <= j2 <= distance(a.y as int, b.y as int),
        passes_through(a, b, cell_at(a, b, i2, j2)),
        passes_through(a, b, c) && distance(a.x as int, c.x as int) >= i && distance(
            a.y as int,
            c.y as int,
        ) >= j && c != cell_at(a, b, i, j) ==> distance(a.x as int, c.x as int) >= i2 && distance(
            a.y as int,
            c.y as int,
        ) >= j2,
{
    reveal(passes_through);
    let dx = distance(a.x as int, b.x as int);
    let dz = distance(a.y as int, b.y as int);
    lemma_stays_in_box(a, b, i, j);
    let e = border_order(a, b, i, j);
    lemma_mul_le(2 * i + 1, 2 * i + 3, dz);
    lemma_mul_le(2 * j + 1, 2 * j + 3, dx);
    lemma_mul_le(2 * i - 1, 2 * i + 1, dz);
    lemma_mul_le(2 * j - 1, 2 * j + 1, dx);
    if e == 0 {
        assert(dx > 0 && dz > 0) by {
            if dx == 0 {
                assert((2 * i + 1) * dz > 0) by (nonlinear_arith)
                    requires
                        i >= 0,
                        dz > 0,
                ;
                assert((2 * j + 1) * dx == 0) by (nonlinear_arith)
                    requires
                        dx == 0,
                ;
            }
            if dz == 0 {
                assert((2 * j + 1) * dx > 0) by (nonlinear_arith)
                    requires
                        j >= 0,
                        dx > 0,
                ;
                assert((2 * i + 1) * dz == 0) by (nonlinear_arith)
                    requires
                        dz == 0,
                ;
            }
        }
        lemma_mul_lt(2 * j + 1, 2 * j + 3, dx);
        lemma_mul_lt(2 * i + 1, 2 * i + 3, dz);
    }
    let n = cell_at(a, b, i2, j2);
    assert(distance(a.x as int, n.x as int) == i2);
    assert(distance(a.y as int, n.y as int) == j2);
    let m = cell_at(a, b, i, j);
    assert(distance(a.x as int, m.x as int) == i);
    assert(distance(a.y as int, m.y as int) == j);
    if passes_through(a, b, c) && distance(a.x as int, c.x as int) >= i && distance(
        a.y as int,
        c.y as int,
    ) >= j && c != m {
        let ci = distance(a.x as int, c.x as int);
        let cj = distance(a.y as int, c.y as int);
        if e <= 0 && ci == i {
            assert(cj > j);
            lemma_mul_le(2 * j + 1, 2 * cj - 1, dx);
        }
        if e >= 0 && cj == j {
            assert(ci > i);
            lemma_mul_le(2 * i + 1, 2 * ci - 1, dz);
        }
    }
}

/// A cell on the line is told by its distances from `a`.
proof fn lemma_told_by_distance(a: IVec2, b: IVec2, c: IVec2)
    requires
        passes_through(a, b, c),
    ensures
        distance(a.x as int, c.x as int) <= distance(a.x as int, b.x as int),
        distance(a.y as int, c.y as int) <= distance(a.y as int, b.y as int),
        c == cell_at(
            a,
            b,
            distance(a.x as int, c.x as int),
            distance(a.y as int, c.y as int),
        ),
{
    reveal(passes_through);
}

/// The distances from `a` of the cell that follows the one at `(i, j)`.
spec fn next_at(a: IVec2, b: IVec2, i: int, j: int) -> (int, int) {
    let e = border_order(a, b, i, j);
    (
        if e <= 0 {
            i + 1
        } else {
            i
        },
        if e >= 0 {
            j + 1
        } else {
            j
        },
    )
}

proof fn lemma_cover_unfold(a: IVec2, b: IVec2, i: int, j: int)
    requires
        0 <= i <= distance(a.x as int, b.x as int),
        0 <= j <= distance(a.y as int, b.y as int),
        i < distance(a.x as int, b.x as int) || j < distance(a.y as int, b.y as int),
    ensures
        cover_from(a, b, i, j) == seq![cell_at(a, b, i, j)] + cover_from(
            a,
            b,
            next_at(a, b, i, j).0,
            next_at(a, b, i, j).1,
        ),
        next_at(a, b, i, j).0 <= distance(a.x as int, b.x as int),
        next_at(a, b, i, j).1 <= distance(a.y as int, b.y as int),
{
    lemma_stays_in_box(a, b, i, j);
}

proof fn lemma_cover_ends(a: IVec2, b: IVec2, i: int, j: int)
    requires
        0 <= i <= distance(a.x as int, b.x as int),
        0 <= j <= distance(a.y as int, b.y as int),
    ensures
        ({
            let s = cover_from(a, b, i, j);
            &&& s.len() > 0
            &&& s[0] == cell_at(a, b, i, j)
            &&& s.last() == b
            &&& forall|k: int| 0 <= k < s.len() - 1 ==> adjacent(#[trigger] s[k], s[k + 1])
        }),
    decreases distance(a.x as int, b.x as int) - i + distance(a.y as int, b.y as int) - j,
{
    if i < distance(a.x as int, b.x as int) || j < distance(a.y as int, b.y as int) {
        let s = cover_from(a, b, i, j);
        lemma_cover_unfold(a, b, i, j);
        let (i2, j2) = next_at(a, b, i, j);
        lemma_cover_ends(a, b, i2, j2);
        let rest = cover_from(a, b, i2, j2);
        assert forall|k: int| 0 <= k < s.len() - 1 implies adjacent(#[trigger] s[k], s[k + 1]) by {
            if k == 0 {
                assert(s[1] == rest[0]);
            } else {
                assert(s[k] == rest[k - 1]);
                assert(s[k + 1] == rest[k - 1 + 1]);
            }
        }
        assert(s.last() == rest.last());
    }
}

/// `c` is on the line, no nearer to `a` than `(i, j)`.
spec fn ahead(a: IVec2, b: IVec2, i: int, j: int, c: IVec2) -> bool {
    passes_through(a, b, c) && distance(a.x as int, c.x as int) >= i && distance(
        a.y as int,
        c.y as int,
    ) >= j
}

proof fn lemma_cover_members(a: IVec2, b: IVec2, i: int, j: int, c: IVec2)
    requires
        0 <= i <= distance(a.x as int, b.x as int),
        0 <= j <= distance(a.y as int, b.y as int),
        passes_through(a, b, cell_at(a, b, i, j)),
    ensures
        cover_from(a, b, i, j).contains(c) <==> ahead(a, b, i, j, c),
    decreases distance(a.x as int, b.x as int) - i + distance(a.y as int, b.y as int) - j,
{
    let s = cover_from(a, b, i, j);
    let m = cell_at(a, b, i, j);
    assert(distance(a.x as int, m.x as int) == i);
    assert(distance(a.y as int, m.y as int) == j);
    if i < distance(a.x as int, b.x as int) || j < distance(a.y as int, b.y as int) {
        let (i2, j2) = next_at(a, b, i, j);
        lemma_cover_unfold(a, b, i, j);
        lemma_next_cell(a, b, i, j, i2, j2, c);
        lemma_cover_members(a, b, i2, j2, c);
        let rest = cover_from(a, b, i2, j2);
        if s.contains(c) && c != m {
            let k = s.index_of(c);
            assert(rest[k - 1] == c);
        }
        if c == m {
            assert(s[0] == c);
        } else if rest.contains(c) {
            let k = rest.index_of(c);
            assert(s[k + 1] == c);
        }
    } else {
        if passes_through(a, b, c) {
            lemma_told_by_distance(a, b, c);
        }
        assert(s == seq![m]);
        assert(s[0] == m);
    }
}

/// The cells on a line are exactly those whose inside the segment between the
/// two centres passes through; they run from `a` to `b`, each next to the one
/// before.
pub proof fn cover_is_exact(a: IVec2, b: IVec2)
    ensures
        cover(a, b).len() > 0,
        cover(a, b)[0] == a,
        cover(a, b).last() == b,
        forall|k: int|
            0 <= k < cover(a, b).len() - 1 ==> adjacent(
                #[trigger] cover(a, b)[k],
                cover(a, b)[k + 1],
            ),
        forall|c: IVec2| cover(a, b).contains(c) <==> #[trigger] passes_through(a, b, c),
{
    let dx = distance(a.x as int, b.x as int);
    let dz = distance(a.y as int, b.y as int);
    assert(cell_at(a, b, 0, 0) == a);
    assert(passes_through(a, b, a)) by {
        reveal(passes_through);
        assert((2 * 0 - 1) * dz == -dz) by (nonlinear_arith);
        assert((2 * 0 - 1) * dx == -dx) by (nonlinear_arith);
        assert((2 * 0 + 1) * dz == dz) by (nonlinear_arith);
        assert((2 * 0 + 1) * dx == dx) by (nonlinear_arith);
    }
    lemma_cover_ends(a, b, 0, 0);
    assert forall|c: IVec2| cover(a, b).contains(c) <==> #[trigger] passes_through(a, b, c) by {
        lemma_cover_members(a, b, 0, 0, c);
    }
}

/// The line between two neighbours holds only the two.
pub proof fn cover_of_neighbors(a: IVec2, b: IVec2)
    requires
        adjacent(a, b),
    ensures
        cover(a, b) =~= seq![a, b],
{
    let dx = distance(a.x as int, b.x as int);
    let dz = distance(a.y as int, b.y as int);
    assert(cell_at(a, b, 0, 0) == a);
    assert(cell_at(a, b, dx, dz) == b);
    assert(border_order(a, b, 0, 0) == dz - dx) by {
        assert((2 * 0 + 1) * dz == dz) by (nonlinear_arith);
        assert((2 * 0 + 1) * dx == dx) by (nonlinear_arith);
    }
    assert(cover_from(a, b, dx, dz) =~= seq![b]);
    assert(cover_from(a, b, 0, 0) =~= seq![a] + cover_from(a, b, dx, dz));
}

/// Supercover line rasterization between two grid cells, inclusive of both
/// endpoints: every cell whose inside the continuous segment passes through.
/// Steps one unit in x or z at a time, or both where the segment passes exactly
/// through a lattice corner.
pub fn supercover(a: IVec2, b: IVec2) -> (cells: Vec<IVec2>)
    ensures
        cells@ == cover(a, b),
{
    let dx: i64 = if a.x < b.x {
        b.x as i64 - a.x as i64
    } else {
        a.x as i64 - b.x as i64
    };
    let dz: i64 = if a.y < b.y {
        b.y as i64 - a.y as i64
    } else {
        a.y as i64 - b.y as i64
    };
    let mut cells: Vec<IVec2> = Vec::new();
    let mut i: i64 = 0;
    let mut j: i64 = 0;
    let mut cell = a;
    assert(cell_at(a, b, 0, 0) == a);
    while i < dx || j < dz
        invariant
            0 <= i <= dx,
            0 <= j <= dz,
            dx == distance(a.x as int, b.x as int),
            dz == distance(a.y as int, b.y as int),
            cell == cell_at(a, b, i as int, j as int),
            cells@ + cover_from(a, b, i as int, j as int) == cover(a, b),
        decreases dx - i + dz - j,
    {
        proof {
            lemma_stays_in_box(a, b, i as int, j as int);
            assert(0 <= (2 * i + 1) * dz <= 0x2_0000_0001 * 0x1_0000_0000) by (nonlinear_arith)
                requires
                    0 <= i <= 0x1_0000_0000,
                    0 <= dz <= 0x1_0000_0000,
            ;
            assert(0 <= (2 * j + 1) * dx <= 0x2_0000_0001 * 0x1_0000_0000) by (nonlinear_arith)
                requires
                    0 <= j <= 0x1_0000_0000,
                    0 <= dx <= 0x1_0000_0000,
            ;
        }
        let along_x: i128 = (2 * i as i128 + 1) * dz as i128;
        let along_z: i128 = (2 * j as i128 + 1) * dx as i128;
        let ghost before = cells@;
        let ghost rest = cover_from(a, b, i as int, j as int);
        cells.push(cell);
        if along_x <= along_z {
            i += 1;
            cell.x = if b.x > a.x {
                cell.x + 1
            } else {
                cell.x - 1
            };
        }
        if along_x >= along_z {
            j += 1;
            cell.y = if b.y > a.y {
                cell.y + 1
            } else {
                cell.y - 1
            };
        }
        assert(cells@ + cover_from(a, b, i as int, j as int) =~= before + rest);
    }
    let ghost before = cells@;
    cells.push(cell);
    assert(cells@ =~= before + cover_from(a, b, i as int, j as int));
    cells
}

/// The capsule can walk the straight line from `a` to `b`: it can stand on `a`,
/// and every step from cell to cell of the line can be walked.
pub open spec fn line_clear<O: SurfaceOracle>(
    terrain: &O,
    blocked: Set<IVec2>,
    start: IVec2,
    a: IVec2,
    b: IVec2,
) -> bool {
    standable(terrain, blocked, start, a) && is_route(terrain, blocked, start, cover(a, b))
}

/// Whether the capsule can walk in a straight line from cell `a` to cell `b`,
/// using the same clearance rules A* applies to a single step: every cell must
/// be walkable land and not `blocked`, each transition must stay within the
/// climbable height, and where the line crosses a grid corner both flanking
/// cells must be clear too. `start` is exempt from the `blocked` test.
pub fn cell_line_of_sight<O: SurfaceOracle>(
    terrain: &O,
    a: IVec2,
    b: IVec2,
    start: IVec2,
    blocked: &ColumnSet,
) -> (r: bool)
    ensures
        r == line_clear(terrain, blocked@, start, a, b),
{
    if !can_stand(terrain, blocked, start, a) {
        return false;
    }
    let cells = supercover(a, b);
    proof {
        cover_is_exact(a, b);
    }
    let mut k: usize = 0;
    while k < cells.len() - 1
        invariant
            cells@ == cover(a, b),
            cells@.len() > 0,
            k < cells@.len(),
            standable(terrain, blocked@, start, a),
            forall|i: int|
                0 <= i < k ==> edge(terrain, blocked@, start, #[trigger] cells@[i], cells@[i + 1]),
        decreases cells@.len() - k,
    {
        if !can_step(terrain, blocked, start, cells[k], cells[k + 1]) {
            assert(!edge(
                terrain,
                blocked@,
                start,
                cover(a, b)[k as int],
                cover(a, b)[k as int + 1],
            ));
            return false;
        }
        k += 1;
    }
    true
}

/// The last cell of the run of cells from `j` on that are in sight of the
/// anchor, or the one before `j` if `j` itself is not.
pub open spec fn furthest_seen<O: SurfaceOracle>(
    terrain: &O,
    blocked: Set<IVec2>,
    route: Seq<IVec2>,
    anchor: int,
    j: int,
) -> int
    decreases route.len() - j,
{
    if anchor < j < route.len() && line_clear(terrain, blocked, route[0], route[anchor], route[j]) {
        furthest_seen(terrain, blocked, route, anchor, j + 1)
    } else {
        j - 1
    }
}

proof fn lemma_furthest_seen<O: SurfaceOracle>(
    terrain: &O,
    blocked: Set<IVec2>,
    route: Seq<IVec2>,
    anchor: int,
    j: int,
)
    requires
        0 <= anchor < j <= route.len(),
    ensures
        ({
            let f = furthest_seen(terrain, blocked, route, anchor, j);
            &&& j - 1 <= f < route.len()
            &&& f >= j ==> line_clear(terrain, blocked, route[0], route[anchor], route[f])
        }),
    decreases route.len() - j,
{
    if j < route.len() && line_clear(terrain, blocked, route[0], route[anchor], route[j]) {
        lemma_furthest_seen(terrain, blocked, route, anchor, j + 1);
    }
}

/// The indices of the cells kept after the anchor.
pub open spec fn kept_after<O: SurfaceOracle>(
    terrain: &O,
    blocked: Set<IVec2>,
    route: Seq<IVec2>,
    anchor: int,
) -> Seq<int>
    decreases route.len() - anchor,
{
    let f = furthest_seen(terrain, blocked, route, anchor, anchor + 2);
    if 0 <= anchor < f < route.len() {
        seq![f] + kept_after(terrain, blocked, route, f)
    } else {
        Seq::empty()
    }
}

/// The indices of the cells of a route that string pulling keeps.
pub open spec fn kept<O: SurfaceOracle>(
    terrain: &O,
    blocked: Set<IVec2>,
    route: Seq<IVec2>,
) -> Seq<int> {
    if route.len() < 3 {
        Seq::new(route.len(), |i: int| i)
    } else {
        seq![0int] + kept_after(terrain, blocked, route, 0)
    }
}

/// The route with only the cells that string pulling keeps.
pub open spec fn string_pulled<O: SurfaceOracle>(
    terrain: &O,
    blocked: Set<IVec2>,
    route: Seq<IVec2>,
) -> Seq<IVec2> {
    kept(terrain, blocked, route).map_values(|i: int| route[i])
}

/// String-pull a blocky 8-connected cell route into one with long straight
/// diagonals: from an anchor, advance as far as there is a clear line from the
/// anchor, then commit the last visible cell as the next anchor. Start and goal
/// are always kept. Routes of fewer than 3 cells are returned as they are.
pub fn smooth_path<O: SurfaceOracle>(terrain: &O, route: &[IVec2], blocked: &ColumnSet) -> (out:
    Vec<IVec2>)
    ensures
        out@ == string_pulled(terrain, blocked@, route@),
{
    let mut out: Vec<IVec2> = Vec::new();
    if route.len() < 3 {
        let mut k: usize = 0;
        while k < route.len()
            invariant
                k <= route.len(),
                out@ == route@.take(k as int),
            decreases route.len() - k,
        {
            out.push(route[k]);
            k += 1;
            assert(out@ =~= route@.take(k as int));
        }
        assert(out@ =~= string_pulled(terrain, blocked@, route@));
        return out;
    }
    let start = route[0];
    out.push(start);
    let mut anchor: usize = 0;
    let ghost at = |i: int| route@[i];
    assert(string_pulled(terrain, blocked@, route@) =~= out@ + kept_after(
        terrain,
        blocked@,
        route@,
        0,
    ).map_values(at));
    while anchor < route.len() - 1
        invariant
            3 <= route.len(),
            anchor < route.len(),
            start == route@[0],
            at == |i: int| route@[i],
            string_pulled(terrain, blocked@, route@) == out@ + kept_after(
                terrain,
                blocked@,
                route@,
                anchor as int,
            ).map_values(at),
        decreases route.len() - anchor,
    {
        let mut furthest: usize = anchor + 1;
        while furthest + 1 < route.len() && cell_line_of_sight(
            terrain,
            route[anchor],
            route[furthest + 1],
            start,
            blocked,
        )
            invariant
                3 <= route.len(),
                anchor < furthest < route.len(),
                start == route@[0],
                furthest_seen(terrain, blocked@, route@, anchor as int, anchor + 2)
                    == furthest_seen(terrain, blocked@, route@, anchor as int, furthest + 1),
            decreases route.len() - furthest,
        {
            furthest += 1;
        }
        let ghost before = out@;
        out.push(route[furthest]);
        proof {
            let rest = kept_after(terrain, blocked@, route@, furthest as int);
            assert(kept_after(terrain, blocked@, route@, anchor as int) == seq![furthest as int]
                + rest);
            assert((seq![furthest as int] + rest).map_values(at) =~= seq![route@[furthest as int]]
                + rest.map_values(at));
            assert(before + (seq![route@[furthest as int]] + rest.map_values(at)) =~= out@
                + rest.map_values(at));
        }
        anchor = furthest;
    }
    assert(kept_after(terrain, blocked@, route@, anchor as int) =~= Seq::<int>::empty());
    assert(out@ + Seq::<int>::empty().map_values(at) =~= out@);
    out
}

proof fn lemma_kept_after<O: SurfaceOracle>(
    terrain: &O,
    blocked: Set<IVec2>,
    route: Seq<IVec2>,
    anchor: int,
)
    requires
        0 <= anchor < route.len(),
    ensures
        ({
            let k = seq![anchor] + kept_after(terrain, blocked, route, anchor);
            &&& k.last() == route.len() - 1
            &&& forall|i: int| 0 <= i < k.len() ==> 0 <= #[trigger] k[i] < route.len()
            &&& forall|i: int|
                0 <= i < k.len() - 1 ==> {
                    &&& #[trigger] k[i] < k[i + 1]
                    &&& k[i + 1] == k[i] + 1 || line_clear(
                        terrain,
                        blocked,
                        route[0],
                        route[k[i]],
                        route[k[i + 1]],
                    )
                }
        }),
    decreases route.len() - anchor,
{
    let k = seq![anchor] + kept_after(terrain, blocked, route, anchor);
    if anchor + 1 < route.len() {
        lemma_furthest_seen(terrain, blocked, route, anchor, anchor + 2);
        let f = furthest_seen(terrain, blocked, route, anchor, anchor + 2);
        lemma_kept_after(terrain, blocked, route, f);
        let rest = seq![f] + kept_after(terrain, blocked, route, f);
        assert(k =~= seq![anchor] + rest);
        assert forall|i: int| 0 <= i < k.len() - 1 implies {
            &&& #[trigger] k[i] < k[i + 1]
            &&& k[i + 1] == k[i] + 1 || line_clear(
                terrain,
                blocked,
                route[0],
                route[k[i]],
                route[k[i + 1]],
            )
        } by {
            if i > 0 {
                assert(k[i] == rest[i - 1]);
                assert(k[i + 1] == rest[i - 1 + 1]);
            }
        }
        assert forall|i: int| 0 <= i < k.len() implies 0 <= #[trigger] k[i] < route.len() by {
            if i > 0 {
                assert(k[i] == rest[i - 1]);
            }
        }
    } else {
        assert(furthest_seen(terrain, blocked, route, anchor, anchor + 2) == anchor + 1);
        assert(k =~= seq![anchor]);
    }
}

/// String pulling keeps the first and the last cell and drops cells in between;
/// each hop is a step of the route or a clear straight line.
pub proof fn smoothing_keeps_ends_and_clearance<O: SurfaceOracle>(
    terrain: &O,
    blocked: Set<IVec2>,
    route: Seq<IVec2>,
)
    requires
        route.len() > 0,
    ensures
        ({
            let k = kept(terrain, blocked, route);
            let out = string_pulled(terrain, blocked, route);
            &&& out.len() == k.len() > 0
            &&& out[0] == route[0]
            &&& out.last() == route.last()
            &&& forall|i: int|
                0 <= i < out.len() ==> 0 <= k[i] < route.len() && #[trigger] out[i] == route[k[i]]
            &&& forall|i: int|
                0 <= i < out.len() - 1 ==> {
                    &&& k[i] < k[i + 1]
                    &&& k[i + 1] == k[i] + 1 || line_clear(
                        terrain,
                        blocked,
                        route[0],
                        #[trigger] out[i],
                        out[i + 1],
                    )
                }
        }),
{
    if route.len() >= 3 {
        lemma_kept_after(terrain, blocked, route, 0);
    }
}

/// On a walkable route that begins on standable ground, every hop that string
/// pulling leaves is a clear straight line.
pub proof fn smoothed_hops_are_clear<O: SurfaceOracle>(
    terrain: &O,
    blocked: Set<IVec2>,
    route: Seq<IVec2>,
    i: int,
)
    requires
        route.len() > 0,
        is_route(terrain, blocked, route[0], route),
        standable(terrain, blocked, route[0], route[0]),
        0 <= i < string_pulled(terrain, blocked, route).len() - 1,
    ensures
        line_clear(
            terrain,
            blocked,
            route[0],
            string_pulled(terrain, blocked, route)[i],
            string_pulled(terrain, blocked, route)[i + 1],
        ),
{
    smoothing_keeps_ends_and_clearance(terrain, blocked, route);
    let k = kept(terrain, blocked, route);
    let out = string_pulled(terrain, blocked, route);
    assert(out[i] == route[k[i]] && out[i + 1] == route[k[i + 1]]);
    if k[i + 1] == k[i] + 1 {
        assert(edge(terrain, blocked, route[0], route[k[i]], route[k[i] + 1]));
        if k[i] > 0 {
            assert(edge(terrain, blocked, route[0], route[k[i] - 1], route[k[i] - 1 + 1]));
        }
        cover_of_neighbors(out[i], out[i + 1]);
    }
}

proof fn lemma_furthest_clear<O: SurfaceOracle>(
    terrain: &O,
    blocked: Set<IVec2>,
    route: Seq<IVec2>,
    anchor: int,
    j: int,
)
    requires
        0 <= anchor < j <= route.len(),
    ensures
        ({
            let f = furthest_seen(terrain, blocked, route, anchor, j);
            &&& j - 1 <= f < route.len()
            &&& forall|t: int|
                j <= t <= f ==> line_clear(
                    terrain,
                    blocked,
                    route[0],
                    route[anchor],
                    #[trigger] route[t],
                )
            &&& f + 1 < route.len() ==> !line_clear(
                terrain,
                blocked,
                route[0],
                route[anchor],
                route[f + 1],
            )
        }),
    decreases route.len() - j,
{
    if j < route.len() && line_clear(terrain, blocked, route[0], route[anchor], route[j]) {
        lemma_furthest_clear(terrain, blocked, route, anchor, j + 1);
    }
}

/// A hop from index `from` to index `to` is as long as it can be: from the second
/// cell after `from` up to `to` everything is in clear line, and the next is not.
pub open spec fn reaches_furthest<O: SurfaceOracle>(
    terrain: &O,
    blocked: Set<IVec2>,
    route: Seq<IVec2>,
    from: int,
    to: int,
) -> bool {
    &&& from < to
    &&& forall|t: int|
        from + 1 < t <= to ==> line_clear(
            terrain,
            blocked,
            route[0],
            route[from],
            #[trigger] route[t],
        )
    &&& to + 1 < route.len() ==> !line_clear(
        terrain,
        blocked,
        route[0],
        route[from],
        route[to + 1],
    )
}

proof fn lemma_kept_reaches<O: SurfaceOracle>(
    terrain: &O,
    blocked: Set<IVec2>,
    route: Seq<IVec2>,
    anchor: int,
)
    requires
        0 <= anchor < route.len(),
    ensures
        ({
            let k = seq![anchor] + kept_after(terrain, blocked, route, anchor);
            forall|i: int|
                0 <= i < k.len() - 1 ==> reaches_furthest(
                    terrain,
                    blocked,
                    route,
                    #[trigger] k[i],
                    k[i + 1],
                )
        }),
    decreases route.len() - anchor,
{
    let k = seq![anchor] + kept_after(terrain, blocked, route, anchor);
    if anchor + 1 < route.len() {
        lemma_furthest_clear(terrain, blocked, route, anchor, anchor + 2);
        let f = furthest_seen(terrain, blocked, route, anchor, anchor + 2);
        lemma_kept_reaches(terrain, blocked, route, f);
        let rest = seq![f] + kept_after(terrain, blocked, route, f);
        assert(k =~= seq![anchor] + rest);
        assert forall|i: int| 0 <= i < k.len() - 1 implies reaches_furthest(
            terrain,
            blocked,
            route,
            #[trigger] k[i],
            k[i + 1],
        ) by {
            if i > 0 {
                assert(k[i] == rest[i - 1]);
                assert(k[i + 1] == rest[i - 1 + 1]);
            }
        }
    } else {
        assert(furthest_seen(terrain, blocked, route, anchor, anchor + 2) == anchor + 1);
        assert(k =~= seq![anchor]);
    }
}

/// String pulling is greedy: it keeps cells of the route in order, from the first to
/// the last, and every hop reaches as far as there is a clear line. A route of
/// fewer than 3 cells stays as it is.
pub proof fn smoothing_is_greedy<O: SurfaceOracle>(
    terrain: &O,
    blocked: Set<IVec2>,
    route: Seq<IVec2>,
)
    ensures
        route.len() < 3 ==> string_pulled(terrain, blocked, route) == route,
        route.len() >= 3 ==> exists|k: Seq<int>|
            {
                &&& k.len() >= 2
                &&& k[0] == 0
                &&& k.last() == route.len() - 1
                &&& #[trigger] string_pulled(terrain, blocked, route) == k.map_values(
                    |i: int| route[i],
                )
                &&& forall|i: int|
                    0 <= i < k.len() - 1 ==> reaches_furthest(
                        terrain,
                        blocked,
                        route,
                        #[trigger] k[i],
                        k[i + 1],
                    )
            },
{
    if route.len() >= 3 {
        let k = seq![0int] + kept_after(terrain, blocked, route, 0);
        lemma_kept_after(terrain, blocked, route, 0);
        lemma_kept_reaches(terrain, blocked, route, 0);
        assert(string_pulled(terrain, blocked, route) =~= k.map_values(|i: int| route[i]));
    } else {
        assert(string_pulled(terrain, blocked, route) =~= route);
    }
}

/// A route whose every cell is in clear line from the first is pulled to its two
/// ends.
pub proof fn straight_routes_collapse<O: SurfaceOracle>(
    terrain: &O,
    blocked: Set<IVec2>,
    route: Seq<IVec2>,
)
    requires
        route.len() >= 2,
        forall|t: int|
            2 <= t < route.len() ==> line_clear(
                terrain,
                blocked,
                route[0],
                route[0],
                #[trigger] route[t],
            ),
    ensures
        string_pulled(terrain, blocked, route) == seq![route[0], route.last()],
{
    let out = string_pulled(terrain, blocked, route);
    if route.len() >= 3 {
        lemma_furthest_clear(terrain, blocked, route, 0, 2);
        let f = furthest_seen(terrain, blocked, route, 0, 2);
        assert(f == route.len() - 1);
        assert(furthest_seen(terrain, blocked, route, f, f + 2) == f + 1);
        assert(kept_after(terrain, blocked, route, f) =~= Seq::<int>::empty());
        assert(kept_after(terrain, blocked, route, 0) =~= seq![f]);
        assert(kept(terrain, blocked, route) =~= seq![0, f]);
    }
    assert(out =~= seq![route[0], route.last()]);
}

/// A clear line is one that can be walked: every cell that the segment passes
/// through is land and not blocked (but for the start), neighbouring cells of the
/// line differ by at most 1 in height, and where it crosses a corner both cells at
/// the corner's sides are land, not blocked and within 1 of the height.
pub proof fn clear_lines_can_be_walked<O: SurfaceOracle>(
    terrain: &O,
    blocked: Set<IVec2>,
    start: IVec2,
    a: IVec2,
    b: IVec2,
)
    requires
        line_clear(terrain, blocked, start, a, b),
    ensures
        forall|c: IVec2| #[trigger]
            passes_through(a, b, c) ==> terrain.land(c) && (blocked.contains(c) ==> c == start),
        forall|k: int|
            0 <= k < cover(a, b).len() - 1 ==> {
                let from = #[trigger] cover(a, b)[k];
                let to = cover(a, b)[k + 1];
                -1 <= terrain.height(from) - terrain.height(to) <= 1
            },
        forall|k: int|
            0 <= k < cover(a, b).len() - 1 && (#[trigger] cover(a, b)[k]).x != cover(a, b)[k + 1].x
                && cover(a, b)[k].y != cover(a, b)[k + 1].y ==> {
                let from = cover(a, b)[k];
                let to = cover(a, b)[k + 1];
                let p = IVec2 { x: to.x, y: from.y };
                let q = IVec2 { x: from.x, y: to.y };
                &&& terrain.land(p) && (blocked.contains(p) ==> p == start)
                &&& terrain.land(q) && (blocked.contains(q) ==> q == start)
                &&& -1 <= terrain.height(from) - terrain.height(p) <= 1
                &&& -1 <= terrain.height(from) - terrain.height(q) <= 1
            },
{
    cover_is_exact(a, b);
    let s = cover(a, b);
    assert forall|k: int| 0 <= k < s.len() - 1 implies edge(
        terrain,
        blocked,
        start,
        #[trigger] s[k],
        s[k + 1],
    ) by {}
    assert forall|c: IVec2| #[trigger] passes_through(a, b, c) implies terrain.land(c) && (
    blocked.contains(c) ==> c == start) by {
        let k = s.index_of(c);
        if k > 0 {
            assert(edge(terrain, blocked, start, s[k - 1], s[k - 1 + 1]));
        }
    }
}

/// On open ground of one height every straight line is clear.
pub proof fn open_ground_is_clear<O: SurfaceOracle>(
    terrain: &O,
    blocked: Set<IVec2>,
    start: IVec2,
    a: IVec2,
    b: IVec2,
    h: i32,
)
    requires
        forall|c: IVec2|
            between(a.x as int, b.x as int, c.x as int) && between(
                a.y as int,
                b.y as int,
                c.y as int,
            ) ==> #[trigger] terrain.land(c) && terrain.height(c) == h && !blocked.contains(c),
    ensures
        line_clear(terrain, blocked, start, a, b),
{
    cover_is_exact(a, b);
    let s = cover(a, b);
    assert(terrain.land(a));
    assert forall|c: IVec2| s.contains(c) implies between(a.x as int, b.x as int, c.x as int)
        && between(a.y as int, b.y as int, c.y as int) by {
        assert(passes_through(a, b, c));
        reveal(passes_through);
    }
    assert forall|k: int| 0 <= k < s.len() - 1 implies edge(
        terrain,
        blocked,
        start,
        #[trigger] s[k],
        s[k + 1],
    ) by {
        assert(s.contains(s[k]) && s.contains(s[k + 1]));
        assert(adjacent(s[k], s[k + 1]));
        assert(terrain.land(s[k]) && terrain.land(s[k + 1]));
        assert(terrain.land(IVec2 { x: s[k + 1].x, y: s[k].y }));
        assert(terrain.land(IVec2 { x: s[k].x, y: s[k + 1].y }));
    }
}

/// The step from the `k`-th cell of a row to the next can be taken: their heights are
/// within 1, and where it goes across a corner, both cells beside it are land, not
/// blocked (but for the start) and within 1 of the height.
pub open spec fn open_step<O: SurfaceOracle>(
    terrain: &O,
    blocked: Set<IVec2>,
    start: IVec2,
    row: Seq<IVec2>,
    k: int,
) -> bool {
    let from = row[k];
    let to = row[k + 1];
    let p = IVec2 { x: to.x, y: from.y };
    let q = IVec2 { x: from.x, y: to.y };
    &&& -1 <= terrain.height(from) - terrain.height(to) <= 1
    &&& from.x != to.x && from.y != to.y ==> {
        &&& terrain.land(p) && (blocked.contains(p) ==> p == start)
        &&& terrain.land(q) && (blocked.contains(q) ==> q == start)
        &&& -1 <= terrain.height(from) - terrain.height(p) <= 1
        &&& -1 <= terrain.height(from) - terrain.height(q) <= 1
    }
}

/// A line that can be walked is clear: nothing more is asked than that its cells can be
/// stood on and each step along it can be taken, up and down steps included.
pub proof fn walkable_lines_are_clear<O: SurfaceOracle>(
    terrain: &O,
    blocked: Set<IVec2>,
    start: IVec2,
    a: IVec2,
    b: IVec2,
)
    requires
        forall|c: IVec2| #[trigger]
            passes_through(a, b, c) ==> terrain.land(c) && (blocked.contains(c) ==> c == start),
        forall|k: int|
            0 <= k < cover(a, b).len() - 1 ==> #[trigger] open_step(
                terrain,
                blocked,
                start,
                cover(a, b),
                k,
            ),
    ensures
        line_clear(terrain, blocked, start, a, b),
{
    cover_is_exact(a, b);
    let s = cover(a, b);
    assert(passes_through(a, b, s[0]));
    assert forall|k: int| 0 <= k < s.len() - 1 implies edge(
        terrain,
        blocked,
        start,
        #[trigger] s[k],
        s[k + 1],
    ) by {
        assert(open_step(terrain, blocked, start, s, k));
        assert(adjacent(s[k], s[k + 1]));
        assert(s.contains(s[k + 1]));
        assert(passes_through(a, b, s[k + 1]));
    }
}

/// A line along a row or a column passes through the cells of it between its ends, and
/// no others; a line along a diagonal through the cells of the diagonal.
pub proof fn straight_lines_pass_straight(a: IVec2, b: IVec2, c: IVec2)
    ensures
        a.y == b.y ==> (passes_through(a, b, c) <==> c.y == a.y && between(
            a.x as int,
            b.x as int,
            c.x as int,
        )),
        a.x == b.x ==> (passes_through(a, b, c) <==> c.x == a.x && between(
            a.y as int,
            b.y as int,
            c.y as int,
        )),
        distance(a.x as int, b.x as int) == distance(a.y as int, b.y as int) ==> (passes_through(
            a,
            b,
            c,
        ) <==> between(a.x as int, b.x as int, c.x as int) && between(
            a.y as int,
            b.y as int,
            c.y as int,
        ) && distance(a.x as int, c.x as int) == distance(a.y as int, c.y as int)),
        passes_through(a, b, a),
        passes_through(a, b, b),
{
    reveal(passes_through);
    cover_is_exact(a, b);
    assert(cover(a, b).contains(cover(a, b)[0]));
    assert(cover(a, b).contains(cover(a, b)[cover(a, b).len() - 1]));
    let dx = distance(a.x as int, b.x as int);
    let dz = distance(a.y as int, b.y as int);
    let i = distance(a.x as int, c.x as int);
    let j = distance(a.y as int, c.y as int);
    if a.y == b.y && a != b {
        assert((2 * i - 1) * dz == 0 && (2 * i + 1) * dz == 0) by (nonlinear_arith)
            requires
                dz == 0,
        ;
        assert((2 * j + 1) * dx > 0 && ((2 * j - 1) * dx < 0 <==> j == 0)) by (nonlinear_arith)
            requires
                dx > 0,
                j >= 0,
        ;
    }
    if a.x == b.x && a != b {
        assert((2 * j - 1) * dx == 0 && (2 * j + 1) * dx == 0) by (nonlinear_arith)
            requires
                dx == 0,
        ;
        assert((2 * i + 1) * dz > 0 && ((2 * i - 1) * dz < 0 <==> i == 0)) by (nonlinear_arith)
            requires
                dz > 0,
                i >= 0,
        ;
    }
    if dx == dz && a != b {
        assert(((2 * i - 1) * dz < (2 * j + 1) * dx && (2 * j - 1) * dx < (2 * i + 1) * dz) <==> i
            == j) by (nonlinear_arith)
            requires
                dx == dz,
                dx > 0,
        ;
    }
}

} // verus!
