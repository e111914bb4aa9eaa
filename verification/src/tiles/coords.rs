//! Tile and chunk coordinates.

use vstd::prelude::*;

use crate::grid::floor_div;

verus! {

/// Tiles per chunk edge.
pub const CHUNK_SIZE: u32 = 32;

/// Tiles per chunk.
pub const CHUNK_TILES: usize = 1024;

/// A chunk's position, in chunks.
#[derive(Clone, Copy, Debug, PartialEq, Eq, Hash, Structural)]
pub struct ChunkPos {
    pub x: i32,
    pub y: i32,
}

/// A tile's position in its chunk.
#[derive(Clone, Copy, Debug, PartialEq, Eq, Hash, Structural)]
pub struct LocalTilePos {
    pub x: u32,
    pub y: u32,
}

/// A tile's position in the world.
#[derive(Clone, Copy, Debug, PartialEq, Eq, Hash, Structural)]
pub struct WorldTile {
    pub x: i32,
    pub y: i32,
}

pub open spec fn abs_int(v: int) -> int {
    if v < 0 {
        -v
    } else {
        v
    }
}

/// The greater of the distances along the two axes.
pub open spec fn chebyshev(a: ChunkPos, b: ChunkPos) -> int {
    let dx = abs_int(a.x - b.x);
    let dy = abs_int(a.y - b.y);
    if dx < dy {
        dy
    } else {
        dx
    }
}

/// The world coordinate of tile `local` of chunk `chunk`, along one axis.
pub open spec fn world_coord(chunk: int, local: int) -> int {
    chunk * CHUNK_SIZE + local
}

/// Every tile of the chunk has coordinates in range.
pub open spec fn chunk_fits(c: ChunkPos) -> bool {
    &&& i32::MIN <= world_coord(c.x as int, 0) && world_coord(c.x as int, 31) <= i32::MAX
    &&& i32::MIN <= world_coord(c.y as int, 0) && world_coord(c.y as int, 31) <= i32::MAX
}

impl ChunkPos {
    pub fn new(x: i32, y: i32) -> (p: ChunkPos)
        ensures
            p == (ChunkPos { x, y }),
    {
        ChunkPos { x, y }
    }

    /// The chunk that a tile lies in.
    pub fn from_tile(t: WorldTile) -> (p: ChunkPos)
        ensures
            p.x == t.x as int / 32,
            p.y == t.y as int / 32,
    {
        ChunkPos { x: floor_div(t.x, 32), y: floor_div(t.y, 32) }
    }

    /// The greater of the distances along the two axes.
    pub fn chebyshev_distance(self, other: ChunkPos) -> (d: i64)
        ensures
            d == chebyshev(self, other),
            0 <= d <= 0xffff_ffff,
    {
        let dx: i64 = if self.x < other.x {
            other.x as i64 - self.x as i64
        } else {
            self.x as i64 - other.x as i64
        };
        let dy: i64 = if self.y < other.y {
            other.y as i64 - self.y as i64
        } else {
            self.y as i64 - other.y as i64
        };
        if dx < dy {
            dy
        } else {
            dx
        }
    }
}

impl LocalTilePos {
    /// The position lies in a chunk.
    pub open spec fn valid(self) -> bool {
        self.x < CHUNK_SIZE && self.y < CHUNK_SIZE
    }

    /// Row-major index.
    pub open spec fn spec_index(self) -> int {
        self.y * CHUNK_SIZE + self.x
    }

    pub fn new(x: u32, y: u32) -> (p: LocalTilePos)
        ensures
            p == (LocalTilePos { x, y }),
    {
        LocalTilePos { x, y }
    }

    /// Row-major index in the chunk (`y * CHUNK_SIZE + x`).
    pub fn index(self) -> (i: usize)
        requires
            self.valid(),
        ensures
            i == self.spec_index(),
            i < CHUNK_TILES,
    {
        (self.y * CHUNK_SIZE + self.x) as usize
    }

    /// The position with a row-major index.
    pub fn from_index(i: usize) -> (p: LocalTilePos)
        requires
            i < CHUNK_TILES,
        ensures
            p.valid(),
            p.spec_index() == i,
            p.x == i % 32,
            p.y == i / 32,
    {
        LocalTilePos { x: (i % 32) as u32, y: (i / 32) as u32 }
    }

    /// The tile's position in the world.
    pub fn to_world(self, chunk: ChunkPos) -> (t: WorldTile)
        requires
            self.valid(),
            chunk_fits(chunk),
        ensures
            t.x == world_coord(chunk.x as int, self.x as int),
            t.y == world_coord(chunk.y as int, self.y as int),
    {
        WorldTile {
            x: (chunk.x as i64 * 32 + self.x as i64) as i32,
            y: (chunk.y as i64 * 32 + self.y as i64) as i32,
        }
    }
}

/// A tile lies in the chunk it was reckoned from, at the same place.
pub proof fn world_round_trip(chunk: int, local: int)
    requires
        0 <= local < 32,
    ensures
        world_coord(chunk, local) / 32 == chunk,
        world_coord(chunk, local) % 32 == local,
{
}

/// Two chunks lie within a radius exactly when they do along both axes.
pub proof fn chunk_distance_is_a_square(a: ChunkPos, b: ChunkPos, r: int)
    ensures
        chebyshev(a, b) <= r <==> -r <= a.x - b.x <= r && -r <= a.y - b.y <= r,
        chebyshev(a, b) == 0 <==> a == b,
{
}

/// A chunk is 32 tiles wide: tile coordinates run on from one chunk to the next.
pub proof fn chunks_tile_the_world(chunk: int, local: int)
    ensures
        world_coord(chunk, local) == 32 * chunk + local,
        world_coord(chunk + 1, 0) == world_coord(chunk, 31) + 1,
        world_coord(0, 0) == 0,
{
}

/// Tiles are stored row by row, 32 to a row, each in a place of its own.
pub proof fn tiles_are_stored_row_by_row(a: LocalTilePos, b: LocalTilePos)
    requires
        a.x < 32 && a.y < 32,
        b.x < 32 && b.y < 32,
    ensures
        a.valid(),
        a.spec_index() == 32 * a.y + a.x,
        0 <= a.spec_index() < 1024,
        a.spec_index() == b.spec_index() ==> a == b,
{
}

} // verus!
