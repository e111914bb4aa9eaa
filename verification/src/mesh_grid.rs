//! Triangle indices of meshes made of quads.

use vstd::prelude::*;

verus! {

/// The two triangles between columns `c` and `c + 1` of rows `row` and
/// `row + 1`, in a grid of `cols` vertices per row.
pub open spec fn grid_quad(row: int, c: int, cols: int) -> Seq<u32> {
    let a = row * cols + c;
    let d = (row + 1) * cols + c;
    seq![a as u32, d as u32, (a + 1) as u32, (a + 1) as u32, d as u32, (d + 1) as u32]
}

/// The triangles of the first `n` columns between two rows.
pub open spec fn strip(row: int, n: nat, cols: int) -> Seq<u32>
    decreases n,
{
    if n == 0 {
        Seq::empty()
    } else {
        strip(row, (n - 1) as nat, cols) + grid_quad(row, n - 1, cols)
    }
}

/// The triangles of the first `n` pairs of rows, `segments` to a row.
pub open spec fn strips(n: nat, segments: nat) -> Seq<u32>
    decreases n,
{
    if n == 0 {
        Seq::empty()
    } else {
        strips((n - 1) as nat, segments) + strip(n - 1, segments, segments as int + 1)
    }
}

/// Stitches the rows of a grid of vertices into triangles, two per segment. Each
/// row has one vertex more than segments: the seam is doubled.
pub fn grid_indices(rows: usize, segments: usize) -> (v: Vec<u32>)
    requires
        1 <= rows,
        rows * (segments + 1) <= u32::MAX,
    ensures
        v@ == strips((rows - 1) as nat, segments as nat),
{
    let mut v: Vec<u32> = Vec::new();
    let mut row: usize = 0;
    let ghost cols = segments + 1;
    assert(cols <= u32::MAX) by (nonlinear_arith)
        requires
            rows * cols <= u32::MAX,
            rows >= 1,
            cols >= 1,
    ;
    while row < rows - 1
        invariant
            row <= rows - 1,
            1 <= rows,
            cols == segments + 1,
            cols <= u32::MAX,
            rows * cols <= u32::MAX,
            v@ == strips(row as nat, segments as nat),
        decreases rows - row,
    {
        assert(0 <= row * cols && (row + 1) * cols == row * cols + cols && (row + 2) * cols <= rows
            * cols && (row + 2) * cols == (row + 1) * cols + cols) by (nonlinear_arith)
            requires
                0 <= row,
                row + 2 <= rows,
                cols >= 0,
        ;
        let row0: usize = row * (segments + 1);
        let row1: usize = row0 + (segments + 1);
        let ghost before = v@;
        let mut c: usize = 0;
        assert(before + strip(row as int, 0, cols) =~= before);
        while c < segments
            invariant
                c <= segments,
                cols == segments + 1,
                row0 == row * cols,
                row1 == (row + 1) * cols,
                row1 == row0 + cols,
                row1 + cols <= u32::MAX,
                v@ == before + strip(row as int, c as nat, cols),
            decreases segments - c,
        {
            let a: u32 = (row0 + c) as u32;
            let d: u32 = (row1 + c) as u32;
            let ghost now = v@;
            v.push(a);
            v.push(d);
            v.push(a + 1);
            v.push(a + 1);
            v.push(d);
            v.push(d + 1);
            c += 1;
            proof {
                assert(v@ =~= now + grid_quad(row as int, c - 1, cols));
                assert(v@ =~= before + strip(row as int, c as nat, cols));
            }
        }
        row += 1;
    }
    v
}

/// The triangles of a lathe: a ring of vertices per profile point, and at least
/// three segments.
pub fn lathe_indices(points: usize, segments: u32) -> (v: Vec<u32>)
    requires
        1 <= points,
        points * (at_least(segments as int, 3) + 1) <= u32::MAX,
    ensures
        v@ == strips((points - 1) as nat, at_least(segments as int, 3) as nat),
{
    let seg: usize = if segments < 3 {
        3
    } else {
        segments as usize
    };
    grid_indices(points, seg)
}

/// The triangles of an ellipsoid: at least two latitude bands, poles included,
/// and at least three longitude slices.
pub fn ellipsoid_indices(rings: u32, sectors: u32) -> (v: Vec<u32>)
    requires
        (at_least(rings as int, 2) + 1) * (at_least(sectors as int, 3) + 1) <= u32::MAX,
    ensures
        v@ == strips(at_least(rings as int, 2) as nat, at_least(sectors as int, 3) as nat),
{
    let bands: u32 = if rings < 2 {
        2
    } else {
        rings
    };
    let seg: u32 = if sectors < 3 {
        3
    } else {
        sectors
    };
    assert(bands + 1 <= u32::MAX && seg + 1 <= u32::MAX) by (nonlinear_arith)
        requires
            (bands + 1) * (seg + 1) <= u32::MAX,
            bands >= 2,
            seg >= 3,
    ;
    grid_indices((bands + 1) as usize, seg as usize)
}

pub open spec fn at_least(v: int, least: int) -> int {
    if v < least {
        least
    } else {
        v
    }
}

/// The triangles of a quad grid use existing vertices only.
pub proof fn indices_are_in_range(rows: nat, segments: nat)
    requires
        1 <= rows,
        rows * (segments + 1) <= u32::MAX,
    ensures
        strips((rows - 1) as nat, segments).len() == 6 * ((rows - 1) * segments),
        forall|i: int|
            0 <= i < strips((rows - 1) as nat, segments).len() ==> (#[trigger] strips(
                (rows - 1) as nat,
                segments,
            )[i]) < rows * (segments + 1),
{
    lemma_strips_in_range((rows - 1) as nat, segments, rows);
}

proof fn lemma_strips_in_range(n: nat, segments: nat, rows: nat)
    requires
        n < rows,
        rows * (segments + 1) <= u32::MAX,
    ensures
        strips(n, segments).len() == 6 * (n * segments),
        forall|i: int|
            0 <= i < strips(n, segments).len() ==> (#[trigger] strips(n, segments)[i]) < rows * (
            segments + 1),
    decreases n,
{
    if n > 0 {
        lemma_strips_in_range((n - 1) as nat, segments, rows);
        lemma_strip_in_range(n - 1, segments, segments as int + 1, rows);
        assert(n * segments == (n - 1) * segments + segments) by (nonlinear_arith)
            requires
                n > 0,
        ;
    } else {
        assert(0 * segments == 0) by (nonlinear_arith);
    }
}

proof fn lemma_strip_in_range(row: int, n: nat, cols: int, rows: nat)
    requires
        0 <= row,
        row + 1 < rows,
        n + 1 <= cols,
        rows * cols <= u32::MAX,
    ensures
        strip(row, n, cols).len() == 6 * n,
        forall|i: int|
            0 <= i < strip(row, n, cols).len() ==> (#[trigger] strip(row, n, cols)[i]) < rows
                * cols,
    decreases n,
{
    if n > 0 {
        lemma_strip_in_range(row, (n - 1) as nat, cols, rows);
        assert(0 <= row * cols && (row + 1) * cols == row * cols + cols && (row + 2) * cols <= rows
            * cols && (row + 2) * cols == (row + 1) * cols + cols) by (nonlinear_arith)
            requires
                0 <= row,
                row + 2 <= rows,
                cols >= 0,
        ;
    }
}

/// The two triangles of each of `n` separate quads.
pub open spec fn quad_list(n: nat) -> Seq<u32>
    decreases n,
{
    if n == 0 {
        Seq::empty()
    } else {
        let b = 4 * (n - 1);
        quad_list((n - 1) as nat) + seq![
            b as u32,
            (b + 1) as u32,
            (b + 2) as u32,
            b as u32,
            (b + 2) as u32,
            (b + 3) as u32,
        ]
    }
}

/// The triangle indices of `n` quads of four vertices each.
pub fn quad_indices(n: usize) -> (v: Vec<u32>)
    requires
        4 * n <= u32::MAX,
    ensures
        v@ == quad_list(n as nat),
{
    let mut v: Vec<u32> = Vec::new();
    let mut i: usize = 0;
    while i < n
        invariant
            i <= n,
            4 * n <= u32::MAX,
            v@ == quad_list(i as nat),
        decreases n - i,
    {
        let b: u32 = 4 * (i as u32);
        let ghost before = v@;
        v.push(b);
        v.push(b + 1);
        v.push(b + 2);
        v.push(b);
        v.push(b + 2);
        v.push(b + 3);
        i += 1;
        assert(v@ =~= quad_list(i as nat));
    }
    v
}

/// The profile points on either side of the `i`-th, one-sided at the ends.
pub fn profile_neighbors(i: usize, points: usize) -> (r: (usize, usize))
    requires
        i < points,
    ensures
        r.0 == (if i == 0 {
            0
        } else {
            i - 1
        }),
        r.1 == (if i + 1 < points {
            i + 1
        } else {
            points - 1
        }),
{
    let prev: usize = if i == 0 {
        0
    } else {
        i - 1
    };
    let next: usize = if i < points - 1 {
        i + 1
    } else {
        points - 1
    };
    (prev, next)
}

proof fn lemma_strip_at(row: int, n: nat, cols: int, c: int, j: int)
    requires
        0 <= c < n,
        0 <= j < 6,
    ensures
        strip(row, n, cols).len() == 6 * n,
        strip(row, n, cols)[6 * c + j] == grid_quad(row, c, cols)[j],
    decreases n,
{
    let before = strip(row, (n - 1) as nat, cols);
    if n > 1 {
        lemma_strip_at(row, (n - 1) as nat, cols, 0, 0);
    }
    assert(before.len() == 6 * (n - 1));
    if c < n - 1 {
        lemma_strip_at(row, (n - 1) as nat, cols, c, j);
    }
}

proof fn lemma_strips_at(n: nat, segments: nat, row: int, c: int, j: int)
    requires
        0 <= row < n,
        0 <= c < segments,
        0 <= j < 6,
    ensures
        strips(n, segments).len() == 6 * (n * segments),
        0 <= 6 * (row * segments + c) + j < 6 * (n * segments),
        strips(n, segments)[6 * (row * segments + c) + j] == grid_quad(
            row,
            c,
            segments as int + 1,
        )[j],
    decreases n,
{
    let before = strips((n - 1) as nat, segments);
    if n > 1 {
        lemma_strips_at((n - 1) as nat, segments, 0, 0, 0);
    } else {
        assert(0 * segments == 0) by (nonlinear_arith);
    }
    assert(before.len() == 6 * ((n - 1) * segments));
    assert(n * segments == (n - 1) * segments + segments) by (nonlinear_arith)
        requires
            n > 0,
    ;
    lemma_strip_at(n - 1, segments, segments as int + 1, c, j);
    if row < n - 1 {
        lemma_strips_at((n - 1) as nat, segments, row, c, j);
        assert(row * segments + c < (n - 1) * segments) by (nonlinear_arith)
            requires
                0 <= row < n - 1,
                0 <= c < segments,
        ;
    }
    assert(0 <= row * segments) by (nonlinear_arith)
        requires
            0 <= row,
            0 <= segments,
    ;
}

/// Each cell of a grid of vertices is covered by two triangles that share its
/// diagonal, in the order of the cells: the corner, the one below it and the one
/// beside it, then the one beside, the one below and the one across.
pub proof fn two_triangles_cover_each_cell(rows: nat, segments: nat, row: int, c: int)
    requires
        1 <= rows,
        rows * (segments + 1) <= u32::MAX,
        0 <= row < rows - 1,
        0 <= c < segments,
    ensures
        ({
            let v = strips((rows - 1) as nat, segments);
            let at = 6 * (row * segments + c);
            let corner = row * (segments + 1) + c;
            &&& v[at] == corner
            &&& v[at + 1] == corner + segments + 1
            &&& v[at + 2] == corner + 1
            &&& v[at + 3] == corner + 1
            &&& v[at + 4] == corner + segments + 1
            &&& v[at + 5] == corner + segments + 2
        }),
{
    let n = (rows - 1) as nat;
    lemma_strips_at(n, segments, row, c, 0);
    lemma_strips_at(n, segments, row, c, 1);
    lemma_strips_at(n, segments, row, c, 2);
    lemma_strips_at(n, segments, row, c, 3);
    lemma_strips_at(n, segments, row, c, 4);
    lemma_strips_at(n, segments, row, c, 5);
    let cols = segments as int + 1;
    assert(0 <= row * cols && (row + 1) * cols == row * cols + cols && (row + 2) * cols <= rows
        * cols && (row + 2) * cols == (row + 1) * cols + cols) by (nonlinear_arith)
        requires
            0 <= row,
            row + 2 <= rows,
            cols >= 0,
    ;
}

/// A separate quad has two triangles of its own four vertices, which share the
/// diagonal from the first to the third.
pub proof fn quads_use_their_own_vertices(n: nat, i: int)
    requires
        0 <= i < n,
        4 * n <= u32::MAX,
    ensures
        quad_list(n).len() == 6 * n,
        quad_list(n)[6 * i] == 4 * i,
        quad_list(n)[6 * i + 1] == 4 * i + 1,
        quad_list(n)[6 * i + 2] == 4 * i + 2,
        quad_list(n)[6 * i + 3] == 4 * i,
        quad_list(n)[6 * i + 4] == 4 * i + 2,
        quad_list(n)[6 * i + 5] == 4 * i + 3,
    decreases n,
{
    let before = quad_list((n - 1) as nat);
    if n > 1 {
        quads_use_their_own_vertices((n - 1) as nat, 0);
    }
    assert(before.len() == 6 * (n - 1));
    if i < n - 1 {
        quads_use_their_own_vertices((n - 1) as nat, i);
    }
}

/// A lower bound is applied only below it.
pub proof fn at_least_bounds_from_below(v: int, least: int)
    ensures
        at_least(v, least) >= least,
        v >= least ==> at_least(v, least) == v,
        v < least ==> at_least(v, least) == least,
{
}

} // verus!
