//! The flat test world: a curated set of walk and build scenarios, a few steps
//! from spawn.
//!
//! The flat ground's topmost solid is `top`; the player stands at `top + 1` and
//! spawns near `(0, 0)`. Two lanes run along +X:
//! - the walk lane (z from -1 to 1): a 1-step, a 2-high wall (must detour), a
//!   3-step staircase up to a plateau, a 2-deep pit, a 1-per-cell ramp, a water
//!   well, and a roofed passage;
//! - the build lane (z from 9 to 13): an open pad, a wall face to place onto, a
//!   mound to dig, a tall wall, and a breakable pillar.

use vstd::prelude::*;

use crate::grid::IVec3;
use crate::overrides::{VoxelEdit, VoxelOverrides};

verus! {

/// An edit of every voxel of a box (inclusive ranges).
pub struct Stamp {
    pub x: (int, int),
    pub y: (int, int),
    pub z: (int, int),
    pub edit: VoxelEdit,
}

pub open spec fn in_box(s: Stamp, p: IVec3) -> bool {
    s.x.0 <= p.x <= s.x.1 && s.y.0 <= p.y <= s.y.1 && s.z.0 <= p.z <= s.z.1
}

/// The edits after a stamp.
pub open spec fn stamped(m: Map<IVec3, VoxelEdit>, s: Stamp) -> Map<IVec3, VoxelEdit> {
    Map::new(
        |p: IVec3| m.contains_key(p) || in_box(s, p),
        |p: IVec3|
            if in_box(s, p) {
                s.edit
            } else {
                m[p]
            },
    )
}

/// The edits after several stamps, in order.
pub open spec fn stamped_all(m: Map<IVec3, VoxelEdit>, stamps: Seq<Stamp>) -> Map<IVec3, VoxelEdit>
    decreases stamps.len(),
{
    if stamps.len() == 0 {
        m
    } else {
        stamped(stamped_all(m, stamps.drop_last()), stamps.last())
    }
}

proof fn lemma_stamp_push(m: Map<IVec3, VoxelEdit>, stamps: Seq<Stamp>, s: Stamp)
    ensures
        stamped_all(m, stamps.push(s)) == stamped(stamped_all(m, stamps), s),
{
    assert(stamps.push(s).drop_last() =~= stamps);
}

/// Solid voxels of a material.
pub open spec fn solid_box(
    x: (int, int),
    y: (int, int),
    z: (int, int),
    mat: u8,
) -> Stamp {
    Stamp { x, y, z, edit: VoxelEdit::Placed(mat) }
}

/// Air.
pub open spec fn air_box(x: (int, int), y: (int, int), z: (int, int)) -> Stamp {
    Stamp { x, y, z, edit: VoxelEdit::Removed }
}

/// The walk scenarios.
pub open spec fn walk_lane(top: int, stone: u8, dirt: u8) -> Seq<Stamp> {
    seq![
        // a 1-voxel step up
        solid_box((5, 6), (top + 1, top + 1), (-1, 1), stone),
        // a 2-high wall, open at both ends
        solid_box((10, 10), (top + 1, top + 2), (-2, 2), stone),
        // a 3-step staircase up to a plateau
        solid_box((14, 14), (top + 1, top + 1), (-1, 1), stone),
        solid_box((15, 15), (top + 1, top + 2), (-1, 1), stone),
        solid_box((16, 16), (top + 1, top + 3), (-1, 1), stone),
        solid_box((17, 19), (top + 1, top + 3), (-1, 1), stone),
        // a 2-deep pit
        air_box((23, 25), (top - 1, top), (-1, 1)),
        // a 1-per-cell ramp
        solid_box((28, 28), (top + 1, top + 1), (-1, 1), dirt),
        solid_box((29, 29), (top + 1, top + 2), (-1, 1), dirt),
        solid_box((30, 30), (top + 1, top + 3), (-1, 1), dirt),
        solid_box((31, 31), (top + 1, top + 4), (-1, 1), dirt),
        // a water well
        air_box((34, 36), (1, top), (-1, 1)),
        // a roofed passage: four corner pillars and a roof
        solid_box((40, 40), (top + 1, top + 3), (-1, -1), stone),
        solid_box((40, 40), (top + 1, top + 3), (1, 1), stone),
        solid_box((43, 43), (top + 1, top + 3), (-1, -1), stone),
        solid_box((43, 43), (top + 1, top + 3), (1, 1), stone),
        solid_box((40, 43), (top + 3, top + 3), (-1, 1), stone),
    ]
}

/// The build scenarios.
pub open spec fn build_lane(top: int, stone: u8, dirt: u8) -> Seq<Stamp> {
    seq![
        // corner markers of the open pad
        solid_box((5, 5), (top + 1, top + 1), (9, 9), dirt),
        solid_box((9, 9), (top + 1, top + 1), (9, 9), dirt),
        solid_box((5, 5), (top + 1, top + 1), (13, 13), dirt),
        solid_box((9, 9), (top + 1, top + 1), (13, 13), dirt),
        // a 3-high wall face
        solid_box((14, 14), (top + 1, top + 3), (9, 13), stone),
        // a mound to dig
        solid_box((19, 22), (top + 1, top + 2), (10, 12), stone),
        // a tall wall for a niche and a cap
        solid_box((27, 27), (top + 1, top + 6), (9, 13), stone),
        // a breakable pillar
        solid_box((33, 33), (top + 1, top + 3), (11, 11), stone),
    ]
}

/// The voxels of the box before `(x, y, z)`, in scan order.
spec fn scanned(s: Stamp, p: IVec3, x: int, y: int, z: int) -> bool {
    in_box(s, p) && (p.x < x || (p.x == x && (p.y < y || (p.y == y && p.z < z))))
}

spec fn partly(m: Map<IVec3, VoxelEdit>, s: Stamp, x: int, y: int, z: int) -> Map<IVec3, VoxelEdit> {
    Map::new(
        |p: IVec3| m.contains_key(p) || scanned(s, p, x, y, z),
        |p: IVec3|
            if scanned(s, p, x, y, z) {
                s.edit
            } else {
                m[p]
            },
    )
}

/// Edits every voxel of a box (inclusive ranges).
fn stamp(
    o: &mut VoxelOverrides,
    xs: (i32, i32),
    ys: (i32, i32),
    zs: (i32, i32),
    edit: VoxelEdit,
)
    ensures
        old(o).wf() ==> final(o).wf(),
        final(o)@ == stamped(
            old(o)@,
            (Stamp {
                x: (xs.0 as int, xs.1 as int),
                y: (ys.0 as int, ys.1 as int),
                z: (zs.0 as int, zs.1 as int),
                edit,
            }),
        ),
{
    let ghost s = Stamp {
        x: (xs.0 as int, xs.1 as int),
        y: (ys.0 as int, ys.1 as int),
        z: (zs.0 as int, zs.1 as int),
        edit,
    };
    let mut x: i64 = xs.0 as i64;
    assert(o@ =~= partly(old(o)@, s, x as int, ys.0 as int, zs.0 as int));
    while x <= xs.1 as i64
        invariant
            s == (Stamp {
                x: (xs.0 as int, xs.1 as int),
                y: (ys.0 as int, ys.1 as int),
                z: (zs.0 as int, zs.1 as int),
                edit,
            }),
            xs.0 <= x,
            x <= xs.1 + 1 || x == xs.0,
            old(o).wf() ==> o.wf(),
            o@ == partly(old(o)@, s, x as int, ys.0 as int, zs.0 as int),
        decreases xs.1 + 1 - x,
    {
        let mut y: i64 = ys.0 as i64;
        while y <= ys.1 as i64
            invariant
                s == (Stamp {
                    x: (xs.0 as int, xs.1 as int),
                    y: (ys.0 as int, ys.1 as int),
                    z: (zs.0 as int, zs.1 as int),
                    edit,
                }),
                xs.0 <= x <= xs.1,
                ys.0 <= y,
                y <= ys.1 + 1 || y == ys.0,
                old(o).wf() ==> o.wf(),
                o@ == partly(old(o)@, s, x as int, y as int, zs.0 as int),
            decreases ys.1 + 1 - y,
        {
            let mut z: i64 = zs.0 as i64;
            while z <= zs.1 as i64
                invariant
                    s == (Stamp {
                        x: (xs.0 as int, xs.1 as int),
                        y: (ys.0 as int, ys.1 as int),
                        z: (zs.0 as int, zs.1 as int),
                        edit,
                    }),
                    xs.0 <= x <= xs.1,
                    ys.0 <= y <= ys.1,
                    zs.0 <= z,
                    z <= zs.1 + 1 || z == zs.0,
                    old(o).wf() ==> o.wf(),
                    o@ == partly(old(o)@, s, x as int, y as int, z as int),
                decreases zs.1 + 1 - z,
            {
                let pos = IVec3 { x: x as i32, y: y as i32, z: z as i32 };
                let ghost before = o@;
                match edit {
                    VoxelEdit::Placed(mat) => {
                        o.place(pos, mat);
                    },
                    VoxelEdit::Removed => {
                        o.remove(pos);
                    },
                }
                z += 1;
                assert(o@ =~= partly(old(o)@, s, x as int, y as int, z as int));
            }
            y += 1;
            assert(o@ =~= partly(old(o)@, s, x as int, y as int, zs.0 as int));
        }
        x += 1;
        assert(o@ =~= partly(old(o)@, s, x as int, ys.0 as int, zs.0 as int));
    }
    assert(o@ =~= stamped(old(o)@, s));
}

/// Place a solid box (inclusive ranges) of `mat`.
pub fn fill(o: &mut VoxelOverrides, xs: (i32, i32), ys: (i32, i32), zs: (i32, i32), mat: u8)
    ensures
        old(o).wf() ==> final(o).wf(),
        final(o)@ == stamped(
            old(o)@,
            solid_box(
                (xs.0 as int, xs.1 as int),
                (ys.0 as int, ys.1 as int),
                (zs.0 as int, zs.1 as int),
                mat,
            ),
        ),
{
    stamp(o, xs, ys, zs, VoxelEdit::Placed(mat));
}

/// Remove a box (inclusive ranges): carve down into the flat ground.
pub fn dig(o: &mut VoxelOverrides, xs: (i32, i32), ys: (i32, i32), zs: (i32, i32))
    ensures
        old(o).wf() ==> final(o).wf(),
        final(o)@ == stamped(
            old(o)@,
            air_box(
                (xs.0 as int, xs.1 as int),
                (ys.0 as int, ys.1 as int),
                (zs.0 as int, zs.1 as int),
            ),
        ),
{
    stamp(o, xs, ys, zs, VoxelEdit::Removed);
}

/// Stamp the full test layout: the walk lane, then the build lane.
pub fn stamp_test_map(o: &mut VoxelOverrides, top: i32, stone: u8, dirt: u8)
    requires
        i32::MIN + 1 < top < i32::MAX - 6,
    ensures
        old(o).wf() ==> final(o).wf(),
        final(o)@ == stamped_all(
            stamped_all(old(o)@, walk_lane(top as int, stone, dirt)),
            build_lane(top as int, stone, dirt),
        ),
{
    stamp_walk_lane(o, top, stone, dirt);
    stamp_build_lane(o, top, stone, dirt);
}

/// Walk scenarios along +X at z from -1 to 1.
pub fn stamp_walk_lane(o: &mut VoxelOverrides, top: i32, stone: u8, dirt: u8)
    requires
        i32::MIN + 1 < top < i32::MAX - 6,
    ensures
        old(o).wf() ==> final(o).wf(),
        final(o)@ == stamped_all(old(o)@, walk_lane(top as int, stone, dirt)),
{
    let ghost m = o@;
    let ghost t = top as int;
    let ghost all = walk_lane(t, stone, dirt);
    assert(all.take(0) =~= Seq::<Stamp>::empty());
    fill(o, (5, 6), (top + 1, top + 1), (-1, 1), stone);
    proof {
        lemma_next_stamp(m, all, 0);
    }
    fill(o, (10, 10), (top + 1, top + 2), (-2, 2), stone);
    proof {
        lemma_next_stamp(m, all, 1);
    }
    fill(o, (14, 14), (top + 1, top + 1), (-1, 1), stone);
    proof {
        lemma_next_stamp(m, all, 2);
    }
    fill(o, (15, 15), (top + 1, top + 2), (-1, 1), stone);
    proof {
        lemma_next_stamp(m, all, 3);
    }
    fill(o, (16, 16), (top + 1, top + 3), (-1, 1), stone);
    proof {
        lemma_next_stamp(m, all, 4);
    }
    fill(o, (17, 19), (top + 1, top + 3), (-1, 1), stone);
    proof {
        lemma_next_stamp(m, all, 5);
    }
    dig(o, (23, 25), (top - 1, top), (-1, 1));
    proof {
        lemma_next_stamp(m, all, 6);
    }
    fill(o, (28, 28), (top + 1, top + 1), (-1, 1), dirt);
    proof {
        lemma_next_stamp(m, all, 7);
    }
    fill(o, (29, 29), (top + 1, top + 2), (-1, 1), dirt);
    proof {
        lemma_next_stamp(m, all, 8);
    }
    fill(o, (30, 30), (top + 1, top + 3), (-1, 1), dirt);
    proof {
        lemma_next_stamp(m, all, 9);
    }
    fill(o, (31, 31), (top + 1, top + 4), (-1, 1), dirt);
    proof {
        lemma_next_stamp(m, all, 10);
    }
    dig(o, (34, 36), (1, top), (-1, 1));
    proof {
        lemma_next_stamp(m, all, 11);
    }
    fill(o, (40, 40), (top + 1, top + 3), (-1, -1), stone);
    proof {
        lemma_next_stamp(m, all, 12);
    }
    fill(o, (40, 40), (top + 1, top + 3), (1, 1), stone);
    proof {
        lemma_next_stamp(m, all, 13);
    }
    fill(o, (43, 43), (top + 1, top + 3), (-1, -1), stone);
    proof {
        lemma_next_stamp(m, all, 14);
    }
    fill(o, (43, 43), (top + 1, top + 3), (1, 1), stone);
    proof {
        lemma_next_stamp(m, all, 15);
    }
    fill(o, (40, 43), (top + 3, top + 3), (-1, 1), stone);
    proof {
        lemma_next_stamp(m, all, 16);
        assert(all.take(17) =~= all);
    }
}

/// Build scenarios along +X at z from 9 to 13.
pub fn stamp_build_lane(o: &mut VoxelOverrides, top: i32, stone: u8, dirt: u8)
    requires
        i32::MIN + 1 < top < i32::MAX - 6,
    ensures
        old(o).wf() ==> final(o).wf(),
        final(o)@ == stamped_all(old(o)@, build_lane(top as int, stone, dirt)),
{
    let ghost m = o@;
    let ghost t = top as int;
    let ghost all = build_lane(t, stone, dirt);
    assert(all.take(0) =~= Seq::<Stamp>::empty());
    fill(o, (5, 5), (top + 1, top + 1), (9, 9), dirt);
    proof {
        lemma_next_stamp(m, all, 0);
    }
    fill(o, (9, 9), (top + 1, top + 1), (9, 9), dirt);
    proof {
        lemma_next_stamp(m, all, 1);
    }
    fill(o, (5, 5), (top + 1, top + 1), (13, 13), dirt);
    proof {
        lemma_next_stamp(m, all, 2);
    }
    fill(o, (9, 9), (top + 1, top + 1), (13, 13), dirt);
    proof {
        lemma_next_stamp(m, all, 3);
    }
    fill(o, (14, 14), (top + 1, top + 3), (9, 13), stone);
    proof {
        lemma_next_stamp(m, all, 4);
    }
    fill(o, (19, 22), (top + 1, top + 2), (10, 12), stone);
    proof {
        lemma_next_stamp(m, all, 5);
    }
    fill(o, (27, 27), (top + 1, top + 6), (9, 13), stone);
    proof {
        lemma_next_stamp(m, all, 6);
    }
    fill(o, (33, 33), (top + 1, top + 3), (11, 11), stone);
    proof {
        lemma_next_stamp(m, all, 7);
        assert(all.take(8) =~= all);
    }
}

/// One more stamp of a list.
proof fn lemma_next_stamp(m: Map<IVec3, VoxelEdit>, all: Seq<Stamp>, i: int)
    requires
        0 <= i < all.len(),
    ensures
        stamped_all(m, all.take(i + 1)) == stamped(stamped_all(m, all.take(i)), all[i]),
{
    assert(all.take(i + 1) =~= all.take(i).push(all[i]));
    lemma_stamp_push(m, all.take(i), all[i]);
}

/// A voxel of the flat world with edits is solid.
pub open spec fn is_solid(m: Map<IVec3, VoxelEdit>, top: int, p: IVec3) -> bool {
    if m.contains_key(p) {
        m[p] is Placed
    } else {
        p.y <= top
    }
}

/// `h` is the height of the topmost solid voxel of a column.
pub open spec fn is_surface(m: Map<IVec3, VoxelEdit>, top: int, x: i32, z: i32, h: int) -> bool {
    &&& i32::MIN <= h <= i32::MAX
    &&& is_solid(m, top, IVec3 { x, y: h as i32, z })
    &&& forall|y: i32| h < y ==> !#[trigger] is_solid(m, top, IVec3 { x, y, z })
}

/// What the stamps say of a voxel that nothing else has edited: the last one
/// that covers it.
proof fn lemma_covered(stamps: Seq<Stamp>, p: IVec3, k: int)
    requires
        0 <= k < stamps.len(),
        in_box(stamps[k], p),
        forall|i: int| k < i < stamps.len() ==> !in_box(#[trigger] stamps[i], p),
    ensures
        stamped_all(Map::empty(), stamps).contains_key(p),
        stamped_all(Map::empty(), stamps)[p] == stamps[k].edit,
    decreases stamps.len(),
{
    if k < stamps.len() - 1 {
        let rest = stamps.drop_last();
        assert forall|i: int| k < i < rest.len() implies !in_box(#[trigger] rest[i], p) by {
            assert(rest[i] == stamps[i]);
        }
        lemma_covered(rest, p, k);
        assert(!in_box(stamps[stamps.len() - 1], p));
    }
}

proof fn lemma_uncovered(stamps: Seq<Stamp>, p: IVec3)
    requires
        forall|i: int| 0 <= i < stamps.len() ==> !in_box(#[trigger] stamps[i], p),
    ensures
        !stamped_all(Map::empty(), stamps).contains_key(p),
    decreases stamps.len(),
{
    if stamps.len() > 0 {
        let rest = stamps.drop_last();
        assert forall|i: int| 0 <= i < rest.len() implies !in_box(#[trigger] rest[i], p) by {
            assert(rest[i] == stamps[i]);
        }
        lemma_uncovered(rest, p);
        assert(!in_box(stamps[stamps.len() - 1], p));
    }
}

/// The surface of a column that one stamp covers from the ground to its top.
proof fn lemma_raised(stamps: Seq<Stamp>, top: int, x: i32, z: i32, k: int)
    requires
        0 <= k < stamps.len(),
        stamps[k].edit is Placed,
        stamps[k].x.0 <= x <= stamps[k].x.1,
        stamps[k].z.0 <= z <= stamps[k].z.1,
        stamps[k].y.0 == top + 1 <= stamps[k].y.1,
        i32::MIN <= top,
        stamps[k].y.1 <= i32::MAX,
        forall|i: int|
            0 <= i < stamps.len() && i != k ==> !((#[trigger] stamps[i]).x.0 <= x <= stamps[i].x.1
                && stamps[i].z.0 <= z <= stamps[i].z.1),
    ensures
        is_surface(stamped_all(Map::empty(), stamps), top, x, z, stamps[k].y.1),
{
    let h = stamps[k].y.1;
    lemma_covered(stamps, IVec3 { x, y: h as i32, z }, k);
    assert forall|y: i32| h < y implies !#[trigger] is_solid(
        stamped_all(Map::empty(), stamps),
        top,
        IVec3 { x, y, z },
    ) by {
        lemma_uncovered(stamps, IVec3 { x, y, z });
    }
}

/// The surface of a column that one stamp digs out down to its bottom.
proof fn lemma_lowered(stamps: Seq<Stamp>, top: int, x: i32, z: i32, k: int)
    requires
        0 <= k < stamps.len(),
        stamps[k].edit is Removed,
        stamps[k].x.0 <= x <= stamps[k].x.1,
        stamps[k].z.0 <= z <= stamps[k].z.1,
        stamps[k].y.0 <= stamps[k].y.1 == top,
        i32::MIN < stamps[k].y.0,
        top <= i32::MAX,
        forall|i: int|
            0 <= i < stamps.len() && i != k ==> !((#[trigger] stamps[i]).x.0 <= x <= stamps[i].x.1
                && stamps[i].z.0 <= z <= stamps[i].z.1),
    ensures
        is_surface(stamped_all(Map::empty(), stamps), top, x, z, stamps[k].y.0 - 1),
{
    let h = stamps[k].y.0 - 1;
    lemma_uncovered(stamps, IVec3 { x, y: h as i32, z });
    assert forall|y: i32| h < y implies !#[trigger] is_solid(
        stamped_all(Map::empty(), stamps),
        top,
        IVec3 { x, y, z },
    ) by {
        if y <= top {
            lemma_covered(stamps, IVec3 { x, y, z }, k);
        } else {
            lemma_uncovered(stamps, IVec3 { x, y, z });
        }
    }
}

/// The scenarios of the walk lane on a fresh flat world, in every row of it: the
/// step is one voxel high, the wall two; the staircase and the ramp rise by one
/// per cell; the pit is two deep; the bottom of the well stands at height 1.
pub proof fn walk_lane_heights(top: int, stone: u8, dirt: u8, z: i32)
    requires
        1 <= top < i32::MAX - 6,
        -1 <= z <= 1,
    ensures
        ({
            let m = stamped_all(Map::empty(), walk_lane(top, stone, dirt));
            &&& is_surface(m, top, 5, z, top + 1)
            &&& is_surface(m, top, 10, z, top + 2)
            &&& is_surface(m, top, 14, z, top + 1)
            &&& is_surface(m, top, 15, z, top + 2)
            &&& is_surface(m, top, 16, z, top + 3)
            &&& is_surface(m, top, 19, z, top + 3)
            &&& is_surface(m, top, 24, z, top - 2)
            &&& is_surface(m, top, 28, z, top + 1)
            &&& is_surface(m, top, 29, z, top + 2)
            &&& is_surface(m, top, 30, z, top + 3)
            &&& is_surface(m, top, 31, z, top + 4)
            &&& is_surface(m, top, 35, z, 0)
        }),
{
    let s = walk_lane(top, stone, dirt);
    lemma_raised(s, top, 5, z, 0);
    lemma_raised(s, top, 10, z, 1);
    lemma_raised(s, top, 14, z, 2);
    lemma_raised(s, top, 15, z, 3);
    lemma_raised(s, top, 16, z, 4);
    lemma_raised(s, top, 19, z, 5);
    lemma_lowered(s, top, 24, z, 6);
    lemma_raised(s, top, 28, z, 7);
    lemma_raised(s, top, 29, z, 8);
    lemma_raised(s, top, 30, z, 9);
    lemma_raised(s, top, 31, z, 10);
    lemma_lowered(s, top, 35, z, 11);
}

/// Under the roof of the passage, two voxels are free to stand in.
pub proof fn passage_is_two_tall(top: int, stone: u8, dirt: u8, x: i32, z: i32)
    requires
        1 <= top < i32::MAX - 6,
        41 <= x <= 42,
        -1 <= z <= 1,
    ensures
        ({
            let m = stamped_all(Map::empty(), walk_lane(top, stone, dirt));
            &&& is_solid(m, top, IVec3 { x, y: top as i32, z })
            &&& !is_solid(m, top, IVec3 { x, y: (top + 1) as i32, z })
            &&& !is_solid(m, top, IVec3 { x, y: (top + 2) as i32, z })
            &&& is_solid(m, top, IVec3 { x, y: (top + 3) as i32, z })
        }),
{
    let s = walk_lane(top, stone, dirt);
    lemma_uncovered(s, IVec3 { x, y: top as i32, z });
    lemma_uncovered(s, IVec3 { x, y: (top + 1) as i32, z });
    lemma_uncovered(s, IVec3 { x, y: (top + 2) as i32, z });
    lemma_covered(s, IVec3 { x, y: (top + 3) as i32, z }, 16);
}

/// Where no stamp covers a voxel, its edit stays.
proof fn lemma_untouched(m: Map<IVec3, VoxelEdit>, stamps: Seq<Stamp>, p: IVec3)
    requires
        forall|i: int| 0 <= i < stamps.len() ==> !in_box(#[trigger] stamps[i], p),
    ensures
        stamped_all(m, stamps).contains_key(p) == m.contains_key(p),
        m.contains_key(p) ==> stamped_all(m, stamps)[p] == m[p],
    decreases stamps.len(),
{
    if stamps.len() > 0 {
        let rest = stamps.drop_last();
        assert forall|i: int| 0 <= i < rest.len() implies !in_box(#[trigger] rest[i], p) by {
            assert(rest[i] == stamps[i]);
        }
        lemma_untouched(m, rest, p);
        assert(!in_box(stamps[stamps.len() - 1], p));
    }
}

/// Where the edits before do not matter: stamps give a voxel the same edit on top of
/// any that leave it alone.
proof fn lemma_same_stamps(m: Map<IVec3, VoxelEdit>, stamps: Seq<Stamp>, p: IVec3)
    requires
        !m.contains_key(p),
    ensures
        stamped_all(m, stamps).contains_key(p) == stamped_all(Map::empty(), stamps).contains_key(p),
        stamped_all(m, stamps).contains_key(p) ==> stamped_all(m, stamps)[p] == stamped_all(
            Map::empty(),
            stamps,
        )[p],
    decreases stamps.len(),
{
    if stamps.len() > 0 {
        lemma_same_stamps(m, stamps.drop_last(), p);
    }
}

/// The two lanes do not meet: up to `z` 8 the test map is the walk lane, from 9 on the
/// build lane, and outside of both, and below the ground but for the pit and the well,
/// the flat world is as it was.
pub proof fn lanes_do_not_meet(top: int, stone: u8, dirt: u8, p: IVec3)
    requires
        1 <= top < i32::MAX - 6,
    ensures
        ({
            let walk = stamped_all(Map::empty(), walk_lane(top, stone, dirt));
            let build = stamped_all(Map::empty(), build_lane(top, stone, dirt));
            let m = stamped_all(walk, build_lane(top, stone, dirt));
            &&& p.z < 9 ==> m.contains_key(p) == walk.contains_key(p) && (m.contains_key(p) ==> m[p]
                == walk[p])
            &&& p.z >= 9 ==> m.contains_key(p) == build.contains_key(p) && (m.contains_key(p)
                ==> m[p] == build[p])
            &&& p.x < 5 || p.x > 43 || p.z < -2 || p.z > 13 || 2 < p.z < 9 || p.y > top + 6
                ==> !m.contains_key(p)
        }),
{
    let ws = walk_lane(top, stone, dirt);
    let bs = build_lane(top, stone, dirt);
    let walk = stamped_all(Map::empty(), ws);
    if p.z < 9 {
        lemma_untouched(walk, bs, p);
    } else {
        lemma_uncovered(ws, p);
        lemma_same_stamps(walk, bs, p);
    }
    if p.x < 5 || p.x > 43 || p.z < -2 || p.z > 13 || 2 < p.z < 9 || p.y > top + 6 {
        lemma_uncovered(ws, p);
        lemma_untouched(walk, bs, p);
    }
}

/// The scenarios of the walk lane, over their whole width: the step and the plateau,
/// the wall, the pit and the well.
pub proof fn walk_lane_is_as_wide_as_planned(top: int, stone: u8, dirt: u8, x: i32, z: i32)
    requires
        1 <= top < i32::MAX - 6,
        -1 <= z <= 1,
    ensures
        ({
            let m = stamped_all(Map::empty(), walk_lane(top, stone, dirt));
            &&& 5 <= x <= 6 ==> is_surface(m, top, x, z, top + 1)
            &&& 17 <= x <= 19 ==> is_surface(m, top, x, z, top + 3)
            &&& 23 <= x <= 25 ==> is_surface(m, top, x, z, top - 2)
            &&& 34 <= x <= 36 ==> is_surface(m, top, x, z, 0)
            &&& is_surface(m, top, 10, (2 * z) as i32, top + 2)
            &&& x < 5 || 7 <= x <= 9 || 11 <= x <= 13 || 20 <= x <= 22 || 26 <= x <= 27 || 32 <= x
                <= 33 || 37 <= x <= 39 || x > 43 ==> is_surface(m, top, x, z, top)
        }),
{
    let s = walk_lane(top, stone, dirt);
    if 5 <= x <= 6 {
        lemma_raised(s, top, x, z, 0);
    }
    lemma_raised(s, top, 10, (2 * z) as i32, 1);
    if 17 <= x <= 19 {
        lemma_raised(s, top, x, z, 5);
    }
    if 23 <= x <= 25 {
        lemma_lowered(s, top, x, z, 6);
    }
    if 34 <= x <= 36 {
        lemma_lowered(s, top, x, z, 11);
    }
    if x < 5 || 7 <= x <= 9 || 11 <= x <= 13 || 20 <= x <= 22 || 26 <= x <= 27 || 32 <= x <= 33
        || 37 <= x <= 39 || x > 43 {
        let m = stamped_all(Map::empty(), s);
        lemma_uncovered(s, IVec3 { x, y: top as i32, z });
        assert forall|y: i32| top < y implies !#[trigger] is_solid(m, top, IVec3 { x, y, z }) by {
            lemma_uncovered(s, IVec3 { x, y, z });
        }
    }
}

/// The scenarios of the build lane: four markers one voxel high at the corners of the
/// pad, a wall face of three, a mound of two, a tall wall of six and a pillar of three.
pub proof fn build_lane_heights(top: int, stone: u8, dirt: u8, x: i32, z: i32)
    requires
        1 <= top < i32::MAX - 6,
    ensures
        ({
            let m = stamped_all(Map::empty(), build_lane(top, stone, dirt));
            &&& (x == 5 || x == 9) && (z == 9 || z == 13) ==> is_surface(m, top, x, z, top + 1)
            &&& x == 14 && 9 <= z <= 13 ==> is_surface(m, top, x, z, top + 3)
            &&& 19 <= x <= 22 && 10 <= z <= 12 ==> is_surface(m, top, x, z, top + 2)
            &&& x == 27 && 9 <= z <= 13 ==> is_surface(m, top, x, z, top + 6)
            &&& x == 33 && z == 11 ==> is_surface(m, top, x, z, top + 3)
            &&& 6 <= x <= 8 ==> is_surface(m, top, x, z, top)
        }),
{
    let s = build_lane(top, stone, dirt);
    if x == 5 && z == 9 {
        lemma_raised(s, top, x, z, 0);
    } else if x == 9 && z == 9 {
        lemma_raised(s, top, x, z, 1);
    } else if x == 5 && z == 13 {
        lemma_raised(s, top, x, z, 2);
    } else if x == 9 && z == 13 {
        lemma_raised(s, top, x, z, 3);
    } else if x == 14 && 9 <= z <= 13 {
        lemma_raised(s, top, x, z, 4);
    } else if 19 <= x <= 22 && 10 <= z <= 12 {
        lemma_raised(s, top, x, z, 5);
    } else if x == 27 && 9 <= z <= 13 {
        lemma_raised(s, top, x, z, 6);
    } else if x == 33 && z == 11 {
        lemma_raised(s, top, x, z, 7);
    } else if 6 <= x <= 8 {
        let m = stamped_all(Map::empty(), s);
        lemma_uncovered(s, IVec3 { x, y: top as i32, z });
        assert forall|y: i32| top < y implies !#[trigger] is_solid(m, top, IVec3 { x, y, z }) by {
            lemma_uncovered(s, IVec3 { x, y, z });
        }
    }
}

/// A stamp edits every voxel of its box, and no other.
pub proof fn stamps_fill_their_box(m: Map<IVec3, VoxelEdit>, s: Stamp, p: IVec3)
    ensures
        ({
            let inside = s.x.0 <= p.x <= s.x.1 && s.y.0 <= p.y <= s.y.1 && s.z.0 <= p.z <= s.z.1;
            &&& inside ==> stamped(m, s).contains_key(p) && stamped(m, s)[p] == s.edit
            &&& !inside ==> stamped(m, s).contains_key(p) == m.contains_key(p)
            &&& !inside && m.contains_key(p) ==> stamped(m, s)[p] == m[p]
        }),
{
}

/// What the scenarios are made of: the ramp and the pad's markers of dirt, everything
/// else that is built of stone.
pub proof fn scenarios_are_stone_but_for_the_ramp(top: int, stone: u8, dirt: u8, i: int)
    ensures
        ({
            let w = walk_lane(top, stone, dirt);
            &&& w.len() == 17
            &&& 0 <= i < 17 ==> (w[i].edit is Placed <==> i != 6 && i != 11)
            &&& 7 <= i <= 10 ==> w[i].edit == VoxelEdit::Placed(dirt)
            &&& (0 <= i <= 5 || 12 <= i <= 16) ==> w[i].edit == VoxelEdit::Placed(stone)
        }),
        ({
            let b = build_lane(top, stone, dirt);
            &&& b.len() == 8
            &&& 0 <= i <= 3 ==> b[i].edit == VoxelEdit::Placed(dirt)
            &&& 4 <= i <= 7 ==> b[i].edit == VoxelEdit::Placed(stone)
        }),
{
}

/// The passage stands on four pillars at its corners, as high as the roof, which lies on
/// them; beside the pillars the way in and out is free.
pub proof fn passage_stands_on_four_pillars(top: int, stone: u8, dirt: u8, x: i32, y: i32, z: i32)
    requires
        1 <= top < i32::MAX - 6,
        40 <= x <= 43,
        -1 <= z <= 1,
    ensures
        ({
            let m = stamped_all(Map::empty(), walk_lane(top, stone, dirt));
            let pillar = (x == 40 || x == 43) && z != 0;
            &&& y <= top ==> is_solid(m, top, IVec3 { x, y, z })
            &&& top < y < top + 3 ==> (is_solid(m, top, IVec3 { x, y, z }) <==> pillar)
            &&& y == top + 3 ==> m.contains_key(IVec3 { x, y, z }) && m[IVec3 { x, y, z }]
                == VoxelEdit::Placed(stone)
            &&& y > top + 3 ==> !is_solid(m, top, IVec3 { x, y, z })
        }),
{
    let s = walk_lane(top, stone, dirt);
    let p = IVec3 { x, y, z };
    if y == top + 3 {
        lemma_covered(s, p, 16);
    } else if y <= top || y > top + 3 {
        lemma_uncovered(s, p);
    } else if x == 40 && z == -1 {
        lemma_covered(s, p, 12);
    } else if x == 40 && z == 1 {
        lemma_covered(s, p, 13);
    } else if x == 43 && z == -1 {
        lemma_covered(s, p, 14);
    } else if x == 43 && z == 1 {
        lemma_covered(s, p, 15);
    } else {
        lemma_uncovered(s, p);
    }
}

} // verus!
