//! A single tile.

use vstd::prelude::*;

verus! {

/// Discriminator for a tile's biome / surface.
#[derive(Clone, Copy, Debug, PartialEq, Eq, Hash, Structural)]
pub enum TileKind {
    Grass,
    Sand,
    Water,
    Stone,
    Dirt,
    Snow,
    /// Stair / ramp tile: bridges two-step elevation gaps that ordinary tiles
    /// can't cross.
    Stairs,
}

impl Default for TileKind {
    fn default() -> (k: TileKind)
        ensures
            k == TileKind::Grass,
    {
        TileKind::Grass
    }
}

/// The atlas slot of a kind. Slots 6, 7 and 8 are the animated water frames.
pub open spec fn atlas_slot(kind: TileKind) -> u32 {
    match kind {
        TileKind::Grass => 0,
        TileKind::Sand => 1,
        TileKind::Water => 2,
        TileKind::Stone => 3,
        TileKind::Dirt => 4,
        TileKind::Snow => 5,
        TileKind::Stairs => 9,
    }
}

/// Water and stone block movement.
pub open spec fn solid(kind: TileKind) -> bool {
    kind == TileKind::Water || kind == TileKind::Stone
}

impl TileKind {
    /// Stable atlas slot.
    pub fn atlas_index(self) -> (i: u32)
        ensures
            i == atlas_slot(self),
    {
        match self {
            TileKind::Grass => 0,
            TileKind::Sand => 1,
            TileKind::Water => 2,
            TileKind::Stone => 3,
            TileKind::Dirt => 4,
            TileKind::Snow => 5,
            TileKind::Stairs => 9,
        }
    }

    /// Whether the tile contributes a solid collider. Stairs are explicitly
    /// traversable.
    pub fn is_solid(self) -> (r: bool)
        ensures
            r == solid(self),
    {
        matches!(self, TileKind::Water | TileKind::Stone)
    }

    /// Every kind, in atlas order.
    pub fn all() -> (v: [TileKind; 7])
        ensures
            v@ == seq![
                TileKind::Grass,
                TileKind::Sand,
                TileKind::Water,
                TileKind::Stone,
                TileKind::Dirt,
                TileKind::Snow,
                TileKind::Stairs,
            ],
    {
        let v = [
            TileKind::Grass,
            TileKind::Sand,
            TileKind::Water,
            TileKind::Stone,
            TileKind::Dirt,
            TileKind::Snow,
            TileKind::Stairs,
        ];
        assert(v@ =~= seq![
            TileKind::Grass,
            TileKind::Sand,
            TileKind::Water,
            TileKind::Stone,
            TileKind::Dirt,
            TileKind::Snow,
            TileKind::Stairs,
        ]);
        v
    }
}

/// Per-tile data. `height` is a signed step count: `0` is ground level, positive
/// is up, negative is down.
#[derive(Clone, Copy, Debug, PartialEq, Eq, Structural)]
pub struct Tile {
    pub kind: TileKind,
    pub height: i8,
}

impl Default for Tile {
    fn default() -> (t: Tile)
        ensures
            t == (Tile { kind: TileKind::Grass, height: 0 }),
    {
        Tile { kind: TileKind::Grass, height: 0 }
    }
}

impl Tile {
    /// A tile of the given `kind` at ground level.
    pub fn of(kind: TileKind) -> (t: Tile)
        ensures
            t == (Tile { kind, height: 0 }),
    {
        Tile { kind, height: 0 }
    }

    /// A tile with an explicit height step.
    pub fn with_height(kind: TileKind, height: i8) -> (t: Tile)
        ensures
            t == (Tile { kind, height }),
    {
        Tile { kind, height }
    }
}

/// No two kinds share an atlas slot, and none uses the slots of the water
/// frames.
pub proof fn atlas_slots_are_distinct(a: TileKind, b: TileKind)
    ensures
        atlas_slot(a) == atlas_slot(b) ==> a == b,
        !(6 <= atlas_slot(a) <= 8),
{
}

/// Only water and stone block movement: everything else can be walked on.
pub proof fn only_water_and_stone_are_solid(kind: TileKind)
    ensures
        solid(TileKind::Water) && solid(TileKind::Stone),
        !solid(TileKind::Grass) && !solid(TileKind::Sand) && !solid(TileKind::Dirt),
        !solid(TileKind::Snow) && !solid(TileKind::Stairs),
        atlas_slot(kind) <= 9,
        atlas_slot(TileKind::Grass) < atlas_slot(TileKind::Sand) < atlas_slot(TileKind::Water)
            < atlas_slot(TileKind::Stone) < atlas_slot(TileKind::Dirt) < atlas_slot(TileKind::Snow)
            < 6,
        atlas_slot(TileKind::Stairs) == 9,
{
}

} // verus!
