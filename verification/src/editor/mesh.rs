//! The cull-face mesh of a model: a quad on each face of a solid sub-voxel whose
//! neighbor is empty.

use vstd::prelude::*;

use crate::editor::volume::{all_inside, inside, VoxelModel};
use crate::editor::voxel_map::{Cell, Voxel};
use crate::grid_map::lists;

verus! {

/// A side of a cube.
#[derive(Clone, Copy, Debug, PartialEq, Eq, Structural)]
pub enum Face {
    PosX,
    NegX,
    PosY,
    NegY,
    PosZ,
    NegZ,
}

/// The visible side of a placed sub-voxel.
#[derive(Clone, Copy, Debug, PartialEq, Eq, Structural)]
pub struct FaceQuad {
    pub cell: Cell,
    pub color: u8,
    pub face: Face,
}

/// The faces in the order in which they are emitted.
pub open spec fn face_at(i: int) -> Face {
    if i == 0 {
        Face::PosX
    } else if i == 1 {
        Face::NegX
    } else if i == 2 {
        Face::PosY
    } else if i == 3 {
        Face::NegY
    } else if i == 4 {
        Face::PosZ
    } else {
        Face::NegZ
    }
}

fn nth_face(i: usize) -> (f: Face)
    ensures
        f == face_at(i as int),
{
    if i == 0 {
        Face::PosX
    } else if i == 1 {
        Face::NegX
    } else if i == 2 {
        Face::PosY
    } else if i == 3 {
        Face::NegY
    } else if i == 4 {
        Face::PosZ
    } else {
        Face::NegZ
    }
}

/// The outward normal of a face; also the offset of the neighbor behind it.
pub open spec fn normal(face: Face) -> (int, int, int) {
    match face {
        Face::PosX => (1, 0, 0),
        Face::NegX => (-1, 0, 0),
        Face::PosY => (0, 1, 0),
        Face::NegY => (0, -1, 0),
        Face::PosZ => (0, 0, 1),
        Face::NegZ => (0, 0, -1),
    }
}

/// The corners of a face of the unit cube, counter-clockwise seen from outside.
pub open spec fn corner(face: Face, i: int) -> (int, int, int) {
    match face {
        Face::PosX => if i == 0 {
            (1, 0, 0)
        } else if i == 1 {
            (1, 1, 0)
        } else if i == 2 {
            (1, 1, 1)
        } else {
            (1, 0, 1)
        },
        Face::NegX => if i == 0 {
            (0, 1, 0)
        } else if i == 1 {
            (0, 0, 0)
        } else if i == 2 {
            (0, 0, 1)
        } else {
            (0, 1, 1)
        },
        Face::PosY => if i == 0 {
            (1, 1, 0)
        } else if i == 1 {
            (0, 1, 0)
        } else if i == 2 {
            (0, 1, 1)
        } else {
            (1, 1, 1)
        },
        Face::NegY => if i == 0 {
            (0, 0, 0)
        } else if i == 1 {
            (1, 0, 0)
        } else if i == 2 {
            (1, 0, 1)
        } else {
            (0, 0, 1)
        },
        Face::PosZ => if i == 0 {
            (0, 0, 1)
        } else if i == 1 {
            (1, 0, 1)
        } else if i == 2 {
            (1, 1, 1)
        } else {
            (0, 1, 1)
        },
        Face::NegZ => if i == 0 {
            (0, 1, 0)
        } else if i == 1 {
            (1, 1, 0)
        } else if i == 2 {
            (1, 0, 0)
        } else {
            (0, 0, 0)
        },
    }
}

/// The outward normal of a face.
pub fn face_normal(face: Face) -> (n: (i32, i32, i32))
    ensures
        (n.0 as int, n.1 as int, n.2 as int) == normal(face),
{
    match face {
        Face::PosX => (1, 0, 0),
        Face::NegX => (-1, 0, 0),
        Face::PosY => (0, 1, 0),
        Face::NegY => (0, -1, 0),
        Face::PosZ => (0, 0, 1),
        Face::NegZ => (0, 0, -1),
    }
}

/// The four corners of a face of the unit cube, counter-clockwise seen from
/// outside, so that back-face culling keeps the outward side.
pub fn face_corners(face: Face) -> (c: [(i32, i32, i32); 4])
    ensures
        forall|i: int|
            0 <= i < 4 ==> ((#[trigger] c[i]).0 as int, c[i].1 as int, c[i].2 as int) == corner(
                face,
                i,
            ),
{
    match face {
        Face::PosX => [(1, 0, 0), (1, 1, 0), (1, 1, 1), (1, 0, 1)],
        Face::NegX => [(0, 1, 0), (0, 0, 0), (0, 0, 1), (0, 1, 1)],
        Face::PosY => [(1, 1, 0), (0, 1, 0), (0, 1, 1), (1, 1, 1)],
        Face::NegY => [(0, 0, 0), (1, 0, 0), (1, 0, 1), (0, 0, 1)],
        Face::PosZ => [(0, 0, 1), (1, 0, 1), (1, 1, 1), (0, 1, 1)],
        Face::NegZ => [(0, 1, 0), (1, 1, 0), (1, 0, 0), (0, 0, 0)],
    }
}

pub open spec fn minus(a: (int, int, int), b: (int, int, int)) -> (int, int, int) {
    (a.0 - b.0, a.1 - b.1, a.2 - b.2)
}

pub open spec fn cross(a: (int, int, int), b: (int, int, int)) -> (int, int, int) {
    (a.1 * b.2 - a.2 * b.1, a.2 * b.0 - a.0 * b.2, a.0 * b.1 - a.1 * b.0)
}

/// Both triangles of a face wind around its outward normal.
pub proof fn faces_wind_outward(face: Face)
    ensures
        cross(
            minus(corner(face, 1), corner(face, 0)),
            minus(corner(face, 2), corner(face, 0)),
        ) == normal(face),
        cross(
            minus(corner(face, 2), corner(face, 0)),
            minus(corner(face, 3), corner(face, 0)),
        ) == normal(face),
{
    let e1 = minus(corner(face, 1), corner(face, 0));
    let e2 = minus(corner(face, 2), corner(face, 0));
    let e3 = minus(corner(face, 3), corner(face, 0));
    lemma_unit_products(e1, e2);
    lemma_unit_products(e2, e3);
}

/// `x * y` for `y` in `-1..=1`.
spec fn times(x: int, y: int) -> int {
    if y == 0 {
        0
    } else if y == 1 {
        x
    } else {
        -x
    }
}

proof fn lemma_unit_products(a: (int, int, int), b: (int, int, int))
    requires
        -1 <= b.0 <= 1,
        -1 <= b.1 <= 1,
        -1 <= b.2 <= 1,
    ensures
        cross(a, b) == (
            times(a.1, b.2) - times(a.2, b.1),
            times(a.2, b.0) - times(a.0, b.2),
            times(a.0, b.1) - times(a.1, b.0),
        ),
{
    lemma_times(a.1, b.2);
    lemma_times(a.2, b.1);
    lemma_times(a.2, b.0);
    lemma_times(a.0, b.2);
    lemma_times(a.0, b.1);
    lemma_times(a.1, b.0);
}

proof fn lemma_times(x: int, y: int)
    requires
        -1 <= y <= 1,
    ensures
        x * y == times(x, y),
{
    assert(x * 0 == 0 && x * 1 == x && x * -1 == -x) by (nonlinear_arith);
}

/// The cell behind a face.
pub open spec fn behind(cell: Cell, face: Face) -> Cell {
    Cell {
        x: (cell.x + normal(face).0) as i32,
        y: (cell.y + normal(face).1) as i32,
        z: (cell.z + normal(face).2) as i32,
    }
}

/// The visible ones of the first `n` faces of a voxel.
pub open spec fn visible_of(m: Map<Cell, Voxel>, cell: Cell, v: Voxel, n: nat) -> Seq<FaceQuad>
    decreases n,
{
    if n == 0 {
        Seq::empty()
    } else {
        let before = visible_of(m, cell, v, (n - 1) as nat);
        let face = face_at(n - 1);
        if m.contains_key(behind(cell, face)) {
            before
        } else {
            before.push(FaceQuad { cell, color: v.color, face })
        }
    }
}

/// The visible faces of a list of voxels.
pub open spec fn visible_of_all(m: Map<Cell, Voxel>, list: Seq<(Cell, Voxel)>) -> Seq<FaceQuad>
    decreases list.len(),
{
    if list.len() == 0 {
        Seq::empty()
    } else {
        visible_of_all(m, list.drop_last()) + visible_of(m, list.last().0, list.last().1, 6)
    }
}

/// The quads of the cull-face mesh: for every solid sub-voxel, one for each face
/// whose neighbor is empty. The voxels come in no particular order.
pub fn visible_faces(model: &VoxelModel) -> (quads: Vec<FaceQuad>)
    requires
        model.wf(),
    ensures
        exists|list: Seq<(Cell, Voxel)>| #[trigger]
            lists(list, model@) && quads@ == visible_of_all(model@, list),
{
    proof {
        model.lemma_extent();
        model.lemma_all_inside();
    }
    let list = model.iter();
    let mut quads: Vec<FaceQuad> = Vec::new();
    let mut i: usize = 0;
    assert(list@.take(0) =~= Seq::<(Cell, Voxel)>::empty());
    while i < list.len()
        invariant
            i <= list@.len(),
            lists(list@, model@),
            all_inside(model@, 128),
            quads@ == visible_of_all(model@, list@.take(i as int)),
        decreases list@.len() - i,
    {
        let (cell, v) = list[i];
        assert(model@.contains_key(list@[i as int].0));
        let ghost before = quads@;
        let mut f: usize = 0;
        assert(before + visible_of(model@, cell, v, 0) =~= before);
        while f < 6
            invariant
                f <= 6,
                inside(cell, 128),
                quads@ == before + visible_of(model@, cell, v, f as nat),
            decreases 6 - f,
        {
            let face = nth_face(f);
            let n = face_normal(face);
            let neighbor = Cell { x: cell.x + n.0, y: cell.y + n.1, z: cell.z + n.2 };
            let ghost now = quads@;
            if !model.is_solid(neighbor) {
                quads.push(FaceQuad { cell, color: v.color, face });
            }
            f += 1;
            assert(quads@ =~= before + visible_of(model@, cell, v, f as nat));
        }
        i += 1;
        assert(list@.take(i as int).drop_last() =~= list@.take(i - 1));
    }
    assert(list@.take(i as int) =~= list@);
    quads
}

/// The place of a face in the order of the six.
spec fn face_number(face: Face) -> int {
    match face {
        Face::PosX => 0,
        Face::NegX => 1,
        Face::PosY => 2,
        Face::NegY => 3,
        Face::PosZ => 4,
        Face::NegZ => 5,
    }
}

/// One of the quads shows the face of the cell.
#[verifier::opaque]
spec fn has_quad(quads: Seq<FaceQuad>, cell: Cell, face: Face) -> bool {
    exists|i: int| 0 <= i < quads.len() && #[trigger] quads[i].cell == cell && quads[i].face == face
}

proof fn lemma_has_quad(quads: Seq<FaceQuad>, i: int)
    requires
        0 <= i < quads.len(),
    ensures
        has_quad(quads, quads[i].cell, quads[i].face),
{
    reveal(has_quad);
}

proof fn lemma_has_quad_extended(
    quads: Seq<FaceQuad>,
    more: Seq<FaceQuad>,
    cell: Cell,
    face: Face,
)
    requires
        has_quad(quads, cell, face) || has_quad(more, cell, face),
    ensures
        has_quad(quads + more, cell, face),
{
    reveal(has_quad);
    if has_quad(quads, cell, face) {
        let i = choose|i: int|
            0 <= i < quads.len() && #[trigger] quads[i].cell == cell && quads[i].face == face;
        assert((quads + more)[i] == quads[i]);
    } else {
        let i = choose|i: int|
            0 <= i < more.len() && #[trigger] more[i].cell == cell && more[i].face == face;
        assert((quads + more)[quads.len() + i] == more[i]);
    }
}

proof fn lemma_visible_of(m: Map<Cell, Voxel>, cell: Cell, v: Voxel, n: nat)
    requires
        n <= 6,
    ensures
        forall|i: int|
            0 <= i < visible_of(m, cell, v, n).len() ==> {
                let q = #[trigger] visible_of(m, cell, v, n)[i];
                &&& q.cell == cell
                &&& q.color == v.color
                &&& !m.contains_key(behind(cell, q.face))
                &&& face_number(q.face) < n
            },
        forall|face: Face|
            face_number(face) < n && !m.contains_key(behind(cell, face)) ==> #[trigger] has_quad(
                visible_of(m, cell, v, n),
                cell,
                face,
            ),
        forall|i: int, j: int|
            0 <= i < j < visible_of(m, cell, v, n).len() ==> (#[trigger] visible_of(
                m,
                cell,
                v,
                n,
            )[i]).face != (#[trigger] visible_of(m, cell, v, n)[j]).face,
    decreases n,
{
    if n > 0 {
        let before = visible_of(m, cell, v, (n - 1) as nat);
        let all = visible_of(m, cell, v, n);
        let last = face_at(n - 1);
        lemma_visible_of(m, cell, v, (n - 1) as nat);
        assert(face_number(last) == n - 1);
        if !m.contains_key(behind(cell, last)) {
            let q = FaceQuad { cell, color: v.color, face: last };
            assert(all =~= before + seq![q]);
            lemma_has_quad(all, before.len() as int);
            assert forall|face: Face|
                face_number(face) < n && !m.contains_key(behind(cell, face)) implies #[trigger] has_quad(
                all,
                cell,
                face,
            ) by {
                if face_number(face) < n - 1 {
                    assert(has_quad(before, cell, face));
                    lemma_has_quad_extended(before, seq![q], cell, face);
                } else {
                    assert(face == last);
                }
            }
        } else {
            assert forall|face: Face|
                face_number(face) < n && !m.contains_key(behind(cell, face)) implies #[trigger] has_quad(
                all,
                cell,
                face,
            ) by {
                assert(face_number(face) < n - 1 || face == last);
                assert(has_quad(before, cell, face));
            }
        }
    }
}

/// The quad shows a face of a placed voxel, in the voxel's color, with nothing in
/// front of it.
pub open spec fn shows(m: Map<Cell, Voxel>, q: FaceQuad) -> bool {
    &&& m.contains_key(q.cell)
    &&& q.color == m[q.cell].color
    &&& !m.contains_key(behind(q.cell, q.face))
}

/// What each quad of a mesh is, and which quads there are: every quad shows a face of
/// a placed voxel in the voxel's own color, with the neighbor on that side empty;
/// and every such face is shown once.
pub proof fn mesh_shows_every_outer_face_once(m: Map<Cell, Voxel>, list: Seq<(Cell, Voxel)>)
    requires
        lists(list, m),
    ensures
        forall|i: int|
            0 <= i < visible_of_all(m, list).len() ==> shows(
                m,
                #[trigger] visible_of_all(m, list)[i],
            ),
        forall|cell: Cell, face: Face|
            m.contains_key(cell) && !m.contains_key(#[trigger] behind(cell, face)) ==> exists|i: int|
                0 <= i < visible_of_all(m, list).len() && #[trigger] visible_of_all(m, list)[i].cell
                    == cell && visible_of_all(m, list)[i].face == face,
        forall|i: int, j: int|
            0 <= i < j < visible_of_all(m, list).len() ==> (#[trigger] visible_of_all(
                m,
                list,
            )[i]).cell != (#[trigger] visible_of_all(m, list)[j]).cell || visible_of_all(
                m,
                list,
            )[i].face != visible_of_all(m, list)[j].face,
{
    lemma_visible_of_all(m, list, list.len() as int);
    assert(list.take(list.len() as int) =~= list);
    let all = visible_of_all(m, list);
    assert forall|cell: Cell, face: Face|
        m.contains_key(cell) && !m.contains_key(#[trigger] behind(cell, face)) implies exists|i: int|
        0 <= i < all.len() && #[trigger] all[i].cell == cell && all[i].face == face by {
        let k = choose|k: int| 0 <= k < list.len() && (#[trigger] list[k]).0 == cell;
        assert(has_quad(all, list[k].0, face));
        reveal(has_quad);
    }
}

proof fn lemma_visible_of_all(m: Map<Cell, Voxel>, list: Seq<(Cell, Voxel)>, n: int)
    requires
        lists(list, m),
        0 <= n <= list.len(),
    ensures
        ({
            let all = visible_of_all(m, list.take(n));
            &&& forall|i: int|
                0 <= i < all.len() ==> shows(m, #[trigger] all[i]) && exists|k: int|
                    0 <= k < n && (#[trigger] list[k]).0 == all[i].cell
            &&& forall|k: int, face: Face|
                0 <= k < n && !m.contains_key(behind(list[k].0, face)) ==> #[trigger] has_quad(
                    all,
                    list[k].0,
                    face,
                )
            &&& forall|i: int, j: int|
                0 <= i < j < all.len() ==> (#[trigger] all[i]).cell != (#[trigger] all[j]).cell
                    || all[i].face != all[j].face
        }),
    decreases n,
{
    let all = visible_of_all(m, list.take(n));
    if n > 0 {
        lemma_visible_of_all(m, list, n - 1);
        assert(list.take(n).drop_last() =~= list.take(n - 1));
        assert(list.take(n).last() == list[n - 1]);
        let cell = list[n - 1].0;
        let v = list[n - 1].1;
        let before = visible_of_all(m, list.take(n - 1));
        let own = visible_of(m, cell, v, 6);
        assert(all == before + own);
        lemma_visible_of(m, cell, v, 6);
        assert(m.contains_key(cell) && m[cell] == v);
        assert forall|i: int| 0 <= i < all.len() implies shows(m, #[trigger] all[i]) && exists|k: int|
            0 <= k < n && (#[trigger] list[k]).0 == all[i].cell by {
            if i < before.len() {
                assert(all[i] == before[i]);
                let k = choose|k: int| 0 <= k < n - 1 && (#[trigger] list[k]).0 == before[i].cell;
                assert(list[k].0 == all[i].cell);
            } else {
                assert(all[i] == own[i - before.len()]);
                assert(list[n - 1].0 == all[i].cell);
            }
        }
        assert forall|k: int, face: Face|
            0 <= k < n && !m.contains_key(behind(list[k].0, face)) implies #[trigger] has_quad(
            all,
            list[k].0,
            face,
        ) by {
            if k < n - 1 {
                assert(has_quad(before, list[k].0, face));
            } else {
                assert(face_number(face) < 6);
                assert(has_quad(own, cell, face));
            }
            lemma_has_quad_extended(before, own, list[k].0, face);
        }
        assert forall|i: int, j: int| 0 <= i < j < all.len() implies (#[trigger] all[i]).cell != (
        #[trigger] all[j]).cell || all[i].face != all[j].face by {
            if j < before.len() {
                assert(all[i] == before[i] && all[j] == before[j]);
            } else if i >= before.len() {
                assert(all[i] == own[i - before.len()] && all[j] == own[j - before.len()]);
            } else {
                assert(all[i] == before[i] && all[j] == own[j - before.len()]);
                let k = choose|k: int| 0 <= k < n - 1 && (#[trigger] list[k]).0 == before[i].cell;
                assert(list[k].0 != list[n - 1].0);
            }
        }
    }
}

/// The neighbor behind a face is the next cell along the face's axis.
pub proof fn neighbors_lie_across_their_face(cell: Cell)
    requires
        i32::MIN < cell.x < i32::MAX,
        i32::MIN < cell.y < i32::MAX,
        i32::MIN < cell.z < i32::MAX,
    ensures
        behind(cell, Face::PosX) == (Cell { x: (cell.x + 1) as i32, y: cell.y, z: cell.z }),
        behind(cell, Face::NegX) == (Cell { x: (cell.x - 1) as i32, y: cell.y, z: cell.z }),
        behind(cell, Face::PosY) == (Cell { x: cell.x, y: (cell.y + 1) as i32, z: cell.z }),
        behind(cell, Face::NegY) == (Cell { x: cell.x, y: (cell.y - 1) as i32, z: cell.z }),
        behind(cell, Face::PosZ) == (Cell { x: cell.x, y: cell.y, z: (cell.z + 1) as i32 }),
        behind(cell, Face::NegZ) == (Cell { x: cell.x, y: cell.y, z: (cell.z - 1) as i32 }),
{
}

/// Each face looks along its own axis: the six normals are the six unit directions,
/// opposite faces look opposite ways, and the four corners of a face lie on its side
/// of the unit cube, a side of the square apart.
pub proof fn faces_bound_the_unit_cube(face: Face, i: int)
    requires
        0 <= i < 4,
    ensures
        normal(Face::PosX) == (1int, 0int, 0int),
        normal(Face::PosY) == (0int, 1int, 0int),
        normal(Face::PosZ) == (0int, 0int, 1int),
        normal(Face::NegX) == minus((0, 0, 0), normal(Face::PosX)),
        normal(Face::NegY) == minus((0, 0, 0), normal(Face::PosY)),
        normal(Face::NegZ) == minus((0, 0, 0), normal(Face::PosZ)),
        ({
            let c = corner(face, i);
            let n = normal(face);
            let d = minus(corner(face, (i + 1) % 4), c);
            &&& 0 <= c.0 <= 1 && 0 <= c.1 <= 1 && 0 <= c.2 <= 1
            &&& n.0 == 1 ==> c.0 == 1
            &&& n.0 == -1 ==> c.0 == 0
            &&& n.1 == 1 ==> c.1 == 1
            &&& n.1 == -1 ==> c.1 == 0
            &&& n.2 == 1 ==> c.2 == 1
            &&& n.2 == -1 ==> c.2 == 0
            &&& (d.0 == 0 && d.1 == 0) || (d.0 == 0 && d.2 == 0) || (d.1 == 0 && d.2 == 0)
            &&& d != (0int, 0int, 0int)
        }),
{
}

} // verus!
