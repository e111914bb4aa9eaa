//! Columns of the noise terrain. A column is told by its rise: the least integer
//! that is not below its height sample, so a voxel at `y` is ground exactly when
//! `y` is below the rise.

use vstd::prelude::*;

use crate::grid::IVec3;

verus! {

/// Material of the ground of a column.
pub const MAT_GROUND: u8 = 0;

/// Material of the sea floor.
pub const MAT_SEA_FLOOR: u8 = 3;

/// Chunk radius streamed around the camera.
pub const RENDER_DISTANCE_CHUNKS: u32 = 40;

/// The voxel at height `y` of a column; `None` is air.
pub open spec fn column_voxel_spec(rise: int, y: int) -> Option<u8> {
    if y < 1 {
        Some(MAT_SEA_FLOOR)
    } else if y < rise {
        Some(MAT_GROUND)
    } else {
        None
    }
}

/// The voxel at height `y` of a column: solid below the rise, with a sea floor
/// below 1. `None` is air.
pub fn column_voxel(rise: i32, y: i32) -> (v: Option<u8>)
    ensures
        v == column_voxel_spec(rise as int, y as int),
{
    if y < 1 {
        Some(MAT_SEA_FLOOR)
    } else if y < rise {
        Some(MAT_GROUND)
    } else {
        None
    }
}

/// Y index of the topmost solid voxel of a column.
pub open spec fn surface_spec(rise: int) -> int {
    if rise < 1 {
        0
    } else {
        rise - 1
    }
}

/// Y index of the topmost solid voxel of a column.
pub fn surface_of_rise(rise: i32) -> (y: i32)
    ensures
        y == surface_spec(rise as int),
{
    if rise < 1 {
        0
    } else {
        rise - 1
    }
}

/// Whether a column stands above the water line. The seafloor stands at height
/// 1 and is under water; land stands at 2 or higher.
pub fn is_land_surface(surface_y: i32) -> (r: bool)
    ensures
        r == (surface_y + 1 >= 2),
{
    surface_y >= 1
}

/// The cell in which an entity stands on column `(x, z)`: right above the
/// topmost solid voxel.
pub fn stand_cell(x: i32, surface_y: i32, z: i32) -> (c: IVec3)
    requires
        surface_y < i32::MAX,
    ensures
        c == (IVec3 { x, y: (surface_y + 1) as i32, z }),
{
    IVec3 { x, y: surface_y + 1, z }
}

/// The texture layers (top, sides, bottom) of a material.
pub fn texture_index(mat: u8) -> (layers: [u32; 3])
    ensures
        layers@ == (if 1 <= mat <= 3 {
            seq![mat as u32, mat as u32, mat as u32]
        } else {
            seq![0u32, 0u32, 0u32]
        }),
{
    let layers: [u32; 3] = match mat {
        1 => [1, 1, 1],
        2 => [2, 2, 2],
        3 => [3, 3, 3],
        _ => [0, 0, 0],
    };
    assert(layers@ =~= (if 1 <= mat <= 3 {
        seq![mat as u32, mat as u32, mat as u32]
    } else {
        seq![0u32, 0u32, 0u32]
    }));
    layers
}

/// The surface is solid and everything above it is air, so standing heights
/// match the meshed geometry.
pub proof fn surface_is_topmost_solid(rise: int)
    ensures
        column_voxel_spec(rise, surface_spec(rise)) is Some,
        forall|y: int| y > surface_spec(rise) ==> #[trigger] column_voxel_spec(rise, y) is None,
        forall|y: int| y <= surface_spec(rise) ==> #[trigger] column_voxel_spec(rise, y) is Some,
{
}

/// A column is sea floor below 1, ground from there up to its rise, and air from the
/// rise on. Its surface is under water, at 0, unless the rise is above 1.
pub proof fn columns_rise_from_the_sea_floor(rise: int, y: int)
    ensures
        column_voxel_spec(rise, y) == Some(3u8) <==> y < 1,
        column_voxel_spec(rise, y) == Some(0u8) <==> 1 <= y < rise,
        column_voxel_spec(rise, y) is None <==> y >= 1 && y >= rise,
        surface_spec(rise) >= 0,
        rise >= 1 ==> surface_spec(rise) == rise - 1,
        rise < 1 ==> surface_spec(rise) == 0,
{
}

} // verus!
