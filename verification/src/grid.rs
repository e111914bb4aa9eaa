//! Integer grid points.

use vstd::prelude::*;

verus! {

/// A column `(x, z)` of the voxel grid, or any other pair of grid coordinates.
#[derive(Clone, Copy, Debug, PartialEq, Eq, Hash, Structural)]
pub struct IVec2 {
    pub x: i32,
    pub y: i32,
}

/// A voxel cell.
#[derive(Clone, Copy, Debug, PartialEq, Eq, Hash, Structural)]
pub struct IVec3 {
    pub x: i32,
    pub y: i32,
    pub z: i32,
}

impl IVec2 {
    pub fn new(x: i32, y: i32) -> (v: IVec2)
        ensures
            v == (IVec2 { x, y }),
    {
        IVec2 { x, y }
    }
}

impl IVec3 {
    pub fn new(x: i32, y: i32, z: i32) -> (v: IVec3)
        ensures
            v == (IVec3 { x, y, z }),
    {
        IVec3 { x, y, z }
    }
}

/// The remainder of `v` by `d`, in `0..d`.
pub fn floor_mod(v: i32, d: i32) -> (r: i32)
    requires
        d > 0,
    ensures
        r == v as int % d as int,
        0 <= r < d,
{
    match v.checked_rem_euclid(d) {
        Some(r) => r,
        None => 0,
    }
}

/// The greatest integer not above `v / d`.
pub fn floor_div(v: i32, d: i32) -> (q: i32)
    requires
        d > 0,
    ensures
        q == v as int / d as int,
{
    proof {
        assert(i32::MIN <= v as int / d as int <= i32::MAX) by (nonlinear_arith)
            requires
                d > 0,
                i32::MIN <= v <= i32::MAX,
        ;
    }
    match v.checked_div_euclid(d) {
        Some(q) => q,
        None => 0,
    }
}

} // verus!
