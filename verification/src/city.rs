//! The cyberpunk city: a voxel for every position, the same forever, so only
//! the player's edits need saving.

use vstd::prelude::*;

use crate::grid::{floor_div, floor_mod, IVec3};

verus! {

pub const CITY_SURFACE_Y: i32 = 8;

pub const MAT_ASPHALT: u8 = 4;

pub const MAT_CONCRETE: u8 = 5;

pub const MAT_DARK_GLASS: u8 = 6;

pub const MAT_NEON_CYAN: u8 = 7;

pub const MAT_NEON_MAGENTA: u8 = 8;

pub const MAT_NEON_YELLOW: u8 = 9;

/// Side of a city block, roads included.
pub const BLOCK: i32 = 48;

pub const ROAD: i32 = 6;

pub const SIDEWALK: i32 = 2;

/// Height of a storey.
pub const FLOOR_H: i32 = 5;

/// A building lot within a block. Bounds are block-local and inclusive.
#[derive(Clone, Copy, Debug, PartialEq, Eq, Structural)]
pub struct Lot {
    pub x0: i32,
    pub x1: i32,
    pub z0: i32,
    pub z1: i32,
    pub height: i32,
    pub construction: bool,
    pub neon: u8,
}

/// The two's complement bits of `a`.
pub open spec fn bits(a: int) -> u32 {
    (if a < 0 {
        a + 0x1_0000_0000
    } else {
        a
    }) as u32
}

/// A mixing of three integers.
pub open spec fn hash3_spec(a: int, b: int, c: int) -> u32 {
    let x0 = bits(a).wrapping_mul(0x9e37_79b9) ^ bits(b).wrapping_mul(0x85eb_ca6b) ^ bits(
        c,
    ).wrapping_mul(0xc2b2_ae35) ^ 0x51ed_270b;
    let x1 = x0 ^ (x0 >> 16);
    let x2 = x1.wrapping_mul(0x7feb_352d);
    let x3 = x2 ^ (x2 >> 15);
    let x4 = x3.wrapping_mul(0x846c_a68b);
    x4 ^ (x4 >> 16)
}

fn to_bits(a: i32) -> (r: u32)
    ensures
        r == bits(a as int),
{
    if a < 0 {
        (a as i64 + 0x1_0000_0000) as u32
    } else {
        a as u32
    }
}

/// A mixing of three integers.
pub fn hash3(a: i32, b: i32, c: i32) -> (h: u32)
    ensures
        h == hash3_spec(a as int, b as int, c as int),
{
    let mut x: u32 = to_bits(a).wrapping_mul(0x9e37_79b9) ^ to_bits(b).wrapping_mul(0x85eb_ca6b)
        ^ to_bits(c).wrapping_mul(0xc2b2_ae35) ^ 0x51ed_270b;
    x = x ^ (x >> 16);
    x = x.wrapping_mul(0x7feb_352d);
    x = x ^ (x >> 15);
    x = x.wrapping_mul(0x846c_a68b);
    x ^ (x >> 16)
}

/// The greatest integer not above `v / d`.
pub fn div_floor(v: i32, d: i32) -> (q: i32)
    requires
        d != 0,
        !(v == i32::MIN && d == -1),
    ensures
        d > 0 ==> q * d <= v < (q + 1) * d,
        d < 0 ==> q * d >= v > (q + 1) * d,
{
    if d > 0 {
        let q: i32 = floor_div(v, d);
        assert(q * d <= v < (q + 1) * d) by (nonlinear_arith)
            requires
                q == v as int / d as int,
                d > 0,
        ;
        q
    } else {
        // -v and -d have the same quotient
        let n: i64 = -(v as i64);
        let m: i64 = -(d as i64);
        assert(-0x8000_0000 <= n as int / m as int <= 0x8000_0000) by (nonlinear_arith)
            requires
                m > 0,
                -0x7fff_ffff <= n <= 0x8000_0000,
        ;
        let q: i64 = match n.checked_div_euclid(m) {
            Some(q) => q,
            None => 0,
        };
        assert(q * m <= n < (q + 1) * m && -0x8000_0000 <= q <= 0x7fff_ffff) by (nonlinear_arith)
            requires
                q == n as int / m as int,
                m > 0,
                -0x7fff_ffff <= n <= 0x8000_0000,
                n < 0x8000_0000 || m > 1,
        ;
        assert(q * d == -(q * m) && (q + 1) * d == -((q + 1) * m)) by (nonlinear_arith)
            requires
                m == -d,
        ;
        q as i32
    }
}

pub open spec fn is_road(lx: int, lz: int) -> bool {
    lx < ROAD || lz < ROAD
}

pub open spec fn is_sidewalk(lx: int, lz: int) -> bool {
    !is_road(lx, lz) && (lx < ROAD + SIDEWALK || lz < ROAD + SIDEWALK)
}

/// A block may have an alley through its middle along z, along x, both or none.
pub open spec fn is_alley_spec(lx: int, lz: int, bx: int, bz: int) -> bool {
    let h = hash3_spec(bx, bz, 99);
    let mid = BLOCK / 2 + 1;
    ||| h & 1 == 0 && mid - 1 <= lx <= mid + 1 && lz >= ROAD + SIDEWALK
    ||| h & 2 == 0 && mid - 1 <= lz <= mid + 1 && lx >= ROAD + SIDEWALK
}

pub fn is_alley(lx: i32, lz: i32, bx: i32, bz: i32) -> (r: bool)
    ensures
        r == is_alley_spec(lx as int, lz as int, bx as int, bz as int),
{
    let h: u32 = hash3(bx, bz, 99);
    let mid: i32 = BLOCK / 2 + 1;
    let vertical = h & 1 == 0 && mid - 1 <= lx && lx <= mid + 1 && lz >= ROAD + SIDEWALK;
    let horizontal = h & 2 == 0 && mid - 1 <= lz && lz <= mid + 1 && lx >= ROAD + SIDEWALK;
    vertical || horizontal
}

/// The bounds of a lot along one axis: the first or the second half of the
/// block, less a margin.
pub open spec fn lot_span(second: bool, margin: int) -> (int, int) {
    let split = BLOCK / 2 + 1;
    if second {
        (split + 3 + margin, BLOCK - 3 - margin)
    } else {
        (ROAD + SIDEWALK + margin, split - 4 - margin)
    }
}

/// The lot of the quarter of the block in which `(lx, lz)` lies, if the lot
/// covers that column.
pub open spec fn lot_for_spec(lx: int, lz: int, bx: int, bz: int) -> Option<Lot> {
    let split = BLOCK / 2 + 1;
    let quarter = (if lx < split {
        0int
    } else {
        1
    }) + (if lz < split {
        0int
    } else {
        2
    });
    let h = hash3_spec(bx, bz, quarter) as int;
    let margin = 1 + h % 3;
    let (x0, x1) = lot_span(lx >= split, margin);
    let (z0, z1) = lot_span(lz >= split, margin);
    if x0 <= lx <= x1 && z0 <= lz <= z1 {
        Some(
            Lot {
                x0: x0 as i32,
                x1: x1 as i32,
                z0: z0 as i32,
                z1: z1 as i32,
                height: ((3 + h % 11) * FLOOR_H) as i32,
                construction: h % 7 == 0,
                neon: if h % 3 == 0 {
                    MAT_NEON_CYAN
                } else if h % 3 == 1 {
                    MAT_NEON_MAGENTA
                } else {
                    MAT_NEON_YELLOW
                },
            },
        )
    } else {
        None
    }
}

pub fn lot_for(lx: i32, lz: i32, bx: i32, bz: i32) -> (lot: Option<Lot>)
    ensures
        lot == lot_for_spec(lx as int, lz as int, bx as int, bz as int),
{
    let split: i32 = BLOCK / 2 + 1;
    let qx: i32 = if lx < split {
        0
    } else {
        1
    };
    let qz: i32 = if lz < split {
        0
    } else {
        1
    };
    let h: u32 = hash3(bx, bz, qx + qz * 2);
    let margin: i32 = 1 + (h % 3) as i32;
    let (x0, x1): (i32, i32) = if qx == 0 {
        (ROAD + SIDEWALK + margin, split - 4 - margin)
    } else {
        (split + 3 + margin, BLOCK - 3 - margin)
    };
    let (z0, z1): (i32, i32) = if qz == 0 {
        (ROAD + SIDEWALK + margin, split - 4 - margin)
    } else {
        (split + 3 + margin, BLOCK - 3 - margin)
    };
    if lx < x0 || lx > x1 || lz < z0 || lz > z1 {
        return None;
    }
    let floors: i32 = 3 + (h % 11) as i32;
    let neon: u8 = match h % 3 {
        0 => MAT_NEON_CYAN,
        1 => MAT_NEON_MAGENTA,
        _ => MAT_NEON_YELLOW,
    };
    Some(Lot { x0, x1, z0, z1, height: floors * FLOOR_H, construction: h % 7 == 0, neon })
}

pub open spec fn on_edge(lx: int, lz: int, lot: Lot) -> bool {
    lx == lot.x0 || lx == lot.x1 || lz == lot.z0 || lz == lot.z1
}

/// The voxel of a finished tower, `ry` voxels above the first one over the
/// street: concrete slabs and roof, and a shell of glass, pillars and signs.
pub open spec fn tower_voxel_spec(ry: int, lx: int, lz: int, lot: Lot) -> Option<u8> {
    if ry == lot.height - 1 || ry % FLOOR_H as int == 0 {
        Some(MAT_CONCRETE)
    } else if !on_edge(lx, lz, lot) {
        None
    } else if FLOOR_H < ry < lot.height - FLOOR_H && (lx + lz + ry) % 11 == 0 {
        Some(lot.neon)
    } else if (lx - lot.x0) % 6 == 0 || (lz - lot.z0) % 6 == 0 || ry % FLOOR_H as int == 1 {
        Some(MAT_CONCRETE)
    } else {
        Some(MAT_DARK_GLASS)
    }
}

/// A lot and a column of it, as [`lot_for`] gives them.
pub open spec fn covers(lot: Lot, lx: int, lz: int) -> bool {
    &&& 0 <= lot.x0 <= lx <= lot.x1 < BLOCK
    &&& 0 <= lot.z0 <= lz <= lot.z1 < BLOCK
    &&& 0 <= lot.height <= 65
}

pub fn tower_voxel(pos: IVec3, lx: i32, lz: i32, lot: Lot) -> (v: Option<u8>)
    requires
        covers(lot, lx as int, lz as int),
        CITY_SURFACE_Y < pos.y <= CITY_SURFACE_Y + lot.height,
    ensures
        v == tower_voxel_spec(pos.y - CITY_SURFACE_Y - 1, lx as int, lz as int, lot),
{
    let ry: i32 = pos.y - CITY_SURFACE_Y - 1;
    let shell = lx == lot.x0 || lx == lot.x1 || lz == lot.z0 || lz == lot.z1;
    let roof = pos.y == CITY_SURFACE_Y + lot.height;
    let storey: i32 = floor_mod(ry, FLOOR_H);
    if roof || storey == 0 {
        return Some(MAT_CONCRETE);
    }
    if !shell {
        return None;
    }
    let pillar = floor_mod(lx - lot.x0, 6) == 0 || floor_mod(lz - lot.z0, 6) == 0;
    let sign_band = ry > FLOOR_H && ry < lot.height - FLOOR_H && floor_mod(lx + lz + ry, 11) == 0;
    if sign_band {
        return Some(lot.neon);
    }
    if pillar || storey == 1 {
        Some(MAT_CONCRETE)
    } else {
        Some(MAT_DARK_GLASS)
    }
}

/// The voxel of a building under construction: slabs up to the last storey but
/// one, a frame around the edge, and columns inside.
pub open spec fn construction_voxel_spec(ry: int, lx: int, lz: int, lot: Lot) -> Option<u8> {
    let frame_x = (lx - lot.x0) % 5 == 0;
    let frame_z = (lz - lot.z0) % 5 == 0;
    if ry % FLOOR_H as int == 0 && ry < lot.height - FLOOR_H {
        Some(MAT_CONCRETE)
    } else if on_edge(lx, lz, lot) && (frame_x || frame_z) {
        Some(MAT_NEON_YELLOW)
    } else if frame_x && frame_z && ry < lot.height - FLOOR_H {
        Some(MAT_CONCRETE)
    } else {
        None
    }
}

pub fn construction_voxel(pos: IVec3, lx: i32, lz: i32, lot: Lot) -> (v: Option<u8>)
    requires
        covers(lot, lx as int, lz as int),
        CITY_SURFACE_Y < pos.y <= CITY_SURFACE_Y + lot.height,
    ensures
        v == construction_voxel_spec(pos.y - CITY_SURFACE_Y - 1, lx as int, lz as int, lot),
{
    let ry: i32 = pos.y - CITY_SURFACE_Y - 1;
    let floor = floor_mod(ry, FLOOR_H) == 0;
    let edge = lx == lot.x0 || lx == lot.x1 || lz == lot.z0 || lz == lot.z1;
    let frame_x = floor_mod(lx - lot.x0, 5) == 0;
    let frame_z = floor_mod(lz - lot.z0, 5) == 0;
    if floor && pos.y <= CITY_SURFACE_Y + lot.height - FLOOR_H {
        return Some(MAT_CONCRETE);
    }
    if edge && (frame_x || frame_z) {
        return Some(MAT_NEON_YELLOW);
    }
    if (frame_x && frame_z) && ry < lot.height - FLOOR_H {
        return Some(MAT_CONCRETE);
    }
    None
}

/// The city's voxel at `pos`: concrete bedrock, a street surface, and above it
/// open roads, sidewalks and alleys between the buildings on the lots.
pub open spec fn voxel_at_spec(pos: IVec3) -> Option<u8> {
    let bx = pos.x as int / BLOCK as int;
    let bz = pos.z as int / BLOCK as int;
    let lx = pos.x as int % BLOCK as int;
    let lz = pos.z as int % BLOCK as int;
    let open = is_road(lx, lz) || is_alley_spec(lx, lz, bx, bz);
    if pos.y < CITY_SURFACE_Y - 5 {
        Some(MAT_CONCRETE)
    } else if pos.y <= CITY_SURFACE_Y {
        Some(
            if open {
                MAT_ASPHALT
            } else {
                MAT_CONCRETE
            },
        )
    } else if open || is_sidewalk(lx, lz) {
        None
    } else {
        match lot_for_spec(lx, lz, bx, bz) {
            Some(lot) => if pos.y > CITY_SURFACE_Y + lot.height {
                None
            } else if lot.construction {
                construction_voxel_spec(pos.y - CITY_SURFACE_Y - 1, lx, lz, lot)
            } else {
                tower_voxel_spec(pos.y - CITY_SURFACE_Y - 1, lx, lz, lot)
            },
            None => None,
        }
    }
}

/// Base cyberpunk city voxel at `pos`, before player edits. `None` means air.
pub fn voxel_at(pos: IVec3) -> (v: Option<u8>)
    ensures
        v == voxel_at_spec(pos),
{
    let bx: i32 = floor_div(pos.x, BLOCK);
    let bz: i32 = floor_div(pos.z, BLOCK);
    let lx: i32 = floor_mod(pos.x, BLOCK);
    let lz: i32 = floor_mod(pos.z, BLOCK);
    if pos.y < CITY_SURFACE_Y - 5 {
        return Some(MAT_CONCRETE);
    }
    let road = lx < ROAD || lz < ROAD;
    let sidewalk = !road && (lx < ROAD + SIDEWALK || lz < ROAD + SIDEWALK);
    let alley = is_alley(lx, lz, bx, bz);
    if pos.y <= CITY_SURFACE_Y {
        return Some(
            if road || alley {
                MAT_ASPHALT
            } else {
                MAT_CONCRETE
            },
        );
    }
    if road || sidewalk || alley {
        return None;
    }
    let lot = match lot_for(lx, lz, bx, bz) {
        Some(lot) => lot,
        None => {
            return None;
        },
    };
    if pos.y > CITY_SURFACE_Y + lot.height {
        return None;
    }
    if lot.construction {
        return construction_voxel(pos, lx, lz, lot);
    }
    tower_voxel(pos, lx, lz, lot)
}

/// Up to the street surface the city is solid everywhere; over the tallest
/// tower it is air; in between, roads are open to the sky.
pub proof fn city_has_floor_and_ceiling(pos: IVec3)
    ensures
        pos.y <= CITY_SURFACE_Y ==> voxel_at_spec(pos) is Some,
        pos.y > CITY_SURFACE_Y + 65 ==> voxel_at_spec(pos) is None,
        pos.y > CITY_SURFACE_Y && is_road(
            pos.x as int % BLOCK as int,
            pos.z as int % BLOCK as int,
        ) ==> voxel_at_spec(pos) is None,
{
}

/// The city is built of its own six materials only.
pub proof fn city_materials(pos: IVec3)
    ensures
        voxel_at_spec(pos) matches Some(m) ==> MAT_ASPHALT <= m <= MAT_NEON_YELLOW,
{
}

/// The column is taken by a street: a road on the block's first 6 cells of either
/// axis, the sidewalk on the next 2, or an alley.
pub open spec fn on_street(pos: IVec3) -> bool {
    let lx = pos.x as int % 48;
    let lz = pos.z as int % 48;
    lx < 8 || lz < 8 || is_alley_spec(lx, lz, pos.x as int / 48, pos.z as int / 48)
}

/// The lot that covers a column, if one does.
pub open spec fn lot_at(pos: IVec3) -> Option<Lot> {
    lot_for_spec(
        pos.x as int % 48,
        pos.z as int % 48,
        pos.x as int / 48,
        pos.z as int / 48,
    )
}

/// Above the street surface, streets and columns without a lot are open to the sky.
pub proof fn streets_are_open(pos: IVec3)
    requires
        pos.y > 8,
        on_street(pos) || lot_at(pos) is None,
    ensures
        voxel_at_spec(pos) is None,
{
}

/// The street surface, and the 5 layers under it, are asphalt on roads and alleys
/// and concrete elsewhere; below that everything is concrete.
pub proof fn street_surface_tells_the_roads(pos: IVec3)
    requires
        pos.y <= 8,
    ensures
        ({
            let lx = pos.x as int % 48;
            let lz = pos.z as int % 48;
            let road = lx < 6 || lz < 6 || is_alley_spec(
                lx,
                lz,
                pos.x as int / 48,
                pos.z as int / 48,
            );
            &&& voxel_at_spec(pos) == Some(MAT_ASPHALT) <==> road && pos.y >= 3
            &&& voxel_at_spec(pos) == Some(MAT_CONCRETE) <==> !(road && pos.y >= 3)
        }),
{
}

/// Every lot carries a building: off the streets, in a column that a lot covers, the
/// slabs of the first two storeys are concrete, and there is nothing above the lot's
/// height.
pub proof fn lots_carry_buildings(pos: IVec3)
    requires
        pos.y > 8,
        !on_street(pos),
        lot_at(pos) is Some,
    ensures
        ({
            let lot = lot_at(pos)->0;
            &&& 15 <= lot.height <= 65
            &&& lot.height % 5 == 0
            &&& pos.y <= 18 && (pos.y - 9) % 5 == 0 ==> voxel_at_spec(pos) == Some(MAT_CONCRETE)
            &&& pos.y > 8 + lot.height ==> voxel_at_spec(pos) is None
        }),
{
    lemma_lot_bounds(pos);
}

proof fn lemma_lot_bounds(pos: IVec3)
    requires
        lot_at(pos) is Some,
    ensures
        ({
            let lot = lot_at(pos)->0;
            &&& 15 <= lot.height <= 65
            &&& lot.height % 5 == 0
            &&& 9 <= lot.x0 <= pos.x as int % 48 <= lot.x1 <= 44
            &&& 9 <= lot.z0 <= pos.z as int % 48 <= lot.z1 <= 44
            &&& MAT_NEON_CYAN <= lot.neon <= MAT_NEON_YELLOW
        }),
{
}

/// A finished tower: a concrete slab at every storey and a concrete roof, a shell
/// along the edge of the lot that is solid from the street to the roof, and rooms
/// inside. On the shell, neon stays away from the first and the last storey and is
/// the lot's own.
pub proof fn towers_are_closed(pos: IVec3)
    requires
        pos.y > 8,
        !on_street(pos),
        lot_at(pos) is Some,
        !(lot_at(pos)->0).construction,
        pos.y <= 8 + (lot_at(pos)->0).height,
    ensures
        ({
            let lot = lot_at(pos)->0;
            let lx = pos.x as int % 48;
            let lz = pos.z as int % 48;
            let shell = lx == lot.x0 || lx == lot.x1 || lz == lot.z0 || lz == lot.z1;
            let slab = (pos.y - 9) % 5 == 0 || pos.y == 8 + lot.height;
            let v = voxel_at_spec(pos);
            &&& slab ==> v == Some(MAT_CONCRETE)
            &&& shell ==> v is Some
            &&& !slab && !shell ==> v is None
            &&& v is Some && MAT_NEON_CYAN <= v->0 && v->0 <= MAT_NEON_YELLOW ==> {
                &&& v == Some(lot.neon)
                &&& 14 < pos.y < 4 + lot.height
                &&& (lx + lz + pos.y - 9) % 11 == 0
            }
            &&& shell && !slab && 14 < pos.y < 4 + lot.height && (lx + lz + pos.y - 9) % 11 == 0
                ==> v == Some(lot.neon)
            &&& v == Some(MAT_DARK_GLASS) <==> {
                &&& shell && !slab && (pos.y - 9) % 5 > 1
                &&& (lx - lot.x0) % 6 != 0 && (lz - lot.z0) % 6 != 0
                &&& !(14 < pos.y < 4 + lot.height && (lx + lz + pos.y - 9) % 11 == 0)
            }
            &&& v != Some(MAT_ASPHALT)
        }),
{
    lemma_lot_bounds(pos);
}

/// A building under construction: slabs below its last storey, a yellow frame along
/// the edge every 5 cells, concrete columns where the frame lines cross inside,
/// below the last storey, and air elsewhere.
pub proof fn construction_is_a_frame(pos: IVec3)
    requires
        pos.y > 8,
        !on_street(pos),
        lot_at(pos) is Some,
        (lot_at(pos)->0).construction,
        pos.y <= 8 + (lot_at(pos)->0).height,
    ensures
        ({
            let lot = lot_at(pos)->0;
            let lx = pos.x as int % 48;
            let lz = pos.z as int % 48;
            let shell = lx == lot.x0 || lx == lot.x1 || lz == lot.z0 || lz == lot.z1;
            let line_x = (lx - lot.x0) % 5 == 0;
            let line_z = (lz - lot.z0) % 5 == 0;
            let low = pos.y - 9 < lot.height - 5;
            let slab = (pos.y - 9) % 5 == 0 && low;
            let v = voxel_at_spec(pos);
            &&& slab ==> v == Some(MAT_CONCRETE)
            &&& !slab ==> (v == Some(MAT_NEON_YELLOW) <==> shell && (line_x || line_z))
            &&& !slab && !shell ==> (v == Some(MAT_CONCRETE) <==> line_x && line_z && low)
            &&& !slab && !shell && !(line_x && line_z && low) ==> v is None
            &&& !slab && shell && !line_x && !line_z ==> v is None
        }),
{
    lemma_lot_bounds(pos);
}

/// Lots keep off the streets and off the middle of the block: in each half of the
/// block a lot spans a margin of 1 to 3 cells less than the room there is, the same
/// on all sides, and the columns of one quarter share one lot.
pub proof fn lots_keep_their_margin(a: IVec3, b: IVec3)
    requires
        lot_at(a) is Some,
        b.x as int / 48 == a.x as int / 48 && b.z as int / 48 == a.z as int / 48,
        (a.x as int % 48 < 25) == (b.x as int % 48 < 25),
        (a.z as int % 48 < 25) == (b.z as int % 48 < 25),
    ensures
        ({
            let lot = lot_at(a)->0;
            let lx = b.x as int % 48;
            let lz = b.z as int % 48;
            let margin = if a.x as int % 48 < 25 {
                lot.x0 - 8
            } else {
                lot.x0 - 28
            };
            &&& 1 <= margin <= 3
            &&& a.x as int % 48 < 25 ==> lot.x1 == 21 - margin
            &&& a.x as int % 48 >= 25 ==> lot.x1 == 45 - margin
            &&& a.z as int % 48 < 25 ==> lot.z0 == 8 + margin && lot.z1 == 21 - margin
            &&& a.z as int % 48 >= 25 ==> lot.z0 == 28 + margin && lot.z1 == 45 - margin
            &&& lot_at(b) == (if lot.x0 <= lx <= lot.x1 && lot.z0 <= lz <= lot.z1 {
                Some(lot)
            } else {
                None
            })
        }),
{
}

/// Alleys run through the middle of a block, three cells wide and clear of the
/// streets, and a block that has one has all of it.
pub proof fn alleys_cross_the_block(lx: int, lz: int, other: int, bx: int, bz: int)
    ensures
        is_alley_spec(lx, lz, bx, bz) ==> (24 <= lx <= 26 && lz >= 8) || (24 <= lz <= 26 && lx >= 8),
        24 <= lx <= 26 && lz >= 8 && !(24 <= lz <= 26) && other >= 8 && is_alley_spec(
            lx,
            lz,
            bx,
            bz,
        ) ==> is_alley_spec(lx, other, bx, bz),
        24 <= lz <= 26 && lx >= 8 && !(24 <= lx <= 26) && other >= 8 && is_alley_spec(
            lx,
            lz,
            bx,
            bz,
        ) ==> is_alley_spec(other, lz, bx, bz),
{
}

/// Every quarter of every block has a lot, and the lot covers the middle of the
/// quarter whatever its margin; its look comes from a hash of the block and the
/// quarter.
pub proof fn every_quarter_has_a_lot(pos: IVec3)
    requires
        11 <= pos.x as int % 48 <= 18 || 31 <= pos.x as int % 48 <= 42,
        11 <= pos.z as int % 48 <= 18 || 31 <= pos.z as int % 48 <= 42,
    ensures
        !on_street(pos),
        lot_at(pos) is Some,
        ({
            let lot = lot_at(pos)->0;
            let east = pos.x as int % 48 >= 25;
            let south = pos.z as int % 48 >= 25;
            let quarter = if south {
                if east {
                    3int
                } else {
                    2
                }
            } else if east {
                1
            } else {
                0
            };
            let h = hash3_spec(pos.x as int / 48, pos.z as int / 48, quarter) as int;
            &&& lot.height == 15 + 5 * (h % 11)
            &&& lot.construction <==> h % 7 == 0
            &&& lot.neon == MAT_NEON_CYAN + h % 3
            &&& lot.x0 == (if east {
                29 + h % 3
            } else {
                9 + h % 3
            })
        }),
{
}

/// A block has an alley along z when the lowest bit of its hash is clear, and one
/// along x when the next bit is.
pub proof fn alleys_come_from_the_hash(lx: int, lz: int, bx: int, bz: int)
    requires
        lx >= 8,
        lz >= 8,
    ensures
        ({
            let h = hash3_spec(bx, bz, 99);
            is_alley_spec(lx, lz, bx, bz) <==> (h & 1 == 0 && 24 <= lx <= 26) || (h & 2 == 0
                && 24 <= lz <= 26)
        }),
{
}

/// Multiplying by a factor and then by its inverse gives the number back.
proof fn lemma_factor_undone(x: u32, factor: u32, inverse: u32, k: int)
    requires
        factor * inverse == 0x1_0000_0000 * k + 1,
    ensures
        x.wrapping_mul(factor).wrapping_mul(inverse) == x,
{
    let m: int = 0x1_0000_0000;
    vstd::arithmetic::div_mod::lemma_mul_mod_noop_left(x * factor, inverse as int, m);
    assert((x * factor) * inverse == m * (x * k) + x) by (nonlinear_arith)
        requires
            factor * inverse == m * k + 1,
    ;
    vstd::arithmetic::div_mod::lemma_mod_multiples_vanish(x * k, x as int, m);
}

/// The hash mixes without loss: undone step by step, it gives back the three words it
/// was made from, each times its own factor, joined with a fourth.
pub proof fn hashes_can_be_undone(a: int, b: int, c: int)
    ensures
        ({
            let h = hash3_spec(a, b, c);
            let s = h ^ (h >> 16);
            let t = s.wrapping_mul(0x4302_1123);
            let u = t ^ (t >> 15) ^ (t >> 30);
            let v = u.wrapping_mul(0x1d69_e2a5);
            v ^ (v >> 16) == bits(a).wrapping_mul(0x9e37_79b9) ^ bits(b).wrapping_mul(0x85eb_ca6b)
                ^ bits(c).wrapping_mul(0xc2b2_ae35) ^ 0x51ed_270b
        }),
{
    let x0 = bits(a).wrapping_mul(0x9e37_79b9) ^ bits(b).wrapping_mul(0x85eb_ca6b) ^ bits(
        c,
    ).wrapping_mul(0xc2b2_ae35) ^ 0x51ed_270b;
    let x1 = x0 ^ (x0 >> 16);
    let x2 = x1.wrapping_mul(0x7feb_352d);
    let x3 = x2 ^ (x2 >> 15);
    let x4 = x3.wrapping_mul(0x846c_a68b);
    let h = x4 ^ (x4 >> 16);
    assert(h ^ (h >> 16) == x4) by (bit_vector)
        requires
            h == x4 ^ (x4 >> 16),
    ;
    lemma_factor_undone(x3, 0x846c_a68b, 0x4302_1123, 581534029);
    assert(x3 ^ (x3 >> 15) ^ (x3 >> 30) == x2) by (bit_vector)
        requires
            x3 == x2 ^ (x2 >> 15),
    ;
    lemma_factor_undone(x1, 0x7feb_352d, 0x1d69_e2a5, 246582719);
    assert(x1 ^ (x1 >> 16) == x0) by (bit_vector)
        requires
            x1 == x0 ^ (x0 >> 16),
    ;
}

/// Negative numbers are hashed as their two's complement.
pub proof fn hashed_bits_are_twos_complement(a: i32)
    ensures
        bits(a as int) as int == a as int % 0x1_0000_0000,
        a >= 0 ==> bits(a as int) == a,
        bits(-1) == 0xffff_ffff,
{
}

/// The materials of the city follow on the terrain's and are told apart; the street is
/// at height 8.
pub proof fn city_materials_are_told_apart()
    ensures
        MAT_ASPHALT == 4,
        MAT_CONCRETE == 5,
        MAT_DARK_GLASS == 6,
        MAT_NEON_CYAN == 7,
        MAT_NEON_MAGENTA == 8,
        MAT_NEON_YELLOW == 9,
        CITY_SURFACE_Y == 8,
{
}

} // verus!
