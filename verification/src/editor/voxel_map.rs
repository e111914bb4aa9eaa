//! Sub-voxel cells and the voxels placed there.

use vstd::prelude::*;

use crate::grid_map::{GridKey, GridMap};

verus! {

/// Stable identifier for a part within one model's part tree.
#[derive(Clone, Copy, Debug, PartialEq, Eq, Hash, Structural)]
pub struct PartId(pub u32);

/// Integer coordinate of one sub-voxel cell within a model's grid.
///
/// The origin is the min corner of the whole build volume. `x`/`z` span the
/// horizontal footprint and `y` is up.
#[derive(Clone, Copy, Debug, PartialEq, Eq, Hash, Structural)]
pub struct Cell {
    pub x: i32,
    pub y: i32,
    pub z: i32,
}

impl Cell {
    /// Construct a cell from raw components.
    pub fn new(x: i32, y: i32, z: i32) -> (c: Cell)
        ensures
            c == (Cell { x, y, z }),
    {
        Cell { x, y, z }
    }
}

/// One placed sub-voxel: which palette color paints it and which body part owns
/// it.
#[derive(Clone, Copy, Debug, PartialEq, Eq, Structural)]
pub struct Voxel {
    /// Index into the model's palette.
    pub color: u8,
    /// The body part this sub-voxel belongs to (rig membership).
    pub part: PartId,
}

impl GridKey for Cell {
    open spec fn key(self) -> u128 {
        ((self.x + 0x8000_0000) * 0x1_0000_0000_0000_0000 + (self.y + 0x8000_0000)
            * 0x1_0000_0000 + (self.z + 0x8000_0000)) as u128
    }

    proof fn lemma_injective(a: Cell, b: Cell) {
    }

    fn pack(self) -> (k: u128) {
        let x: u128 = (self.x as i64 + 0x8000_0000) as u128;
        let y: u128 = (self.y as i64 + 0x8000_0000) as u128;
        let z: u128 = (self.z as i64 + 0x8000_0000) as u128;
        x * 0x1_0000_0000_0000_0000 + y * 0x1_0000_0000 + z
    }
}

/// Sparse placed sub-voxels, keyed by [`Cell`].
pub type VoxelMap = GridMap<Cell, Voxel>;

} // verus!
