//! Streaming grass: a ring of tiles around the player, each with a capped
//! scatter of instances.

use vstd::prelude::*;

use crate::grid::IVec2;
use crate::grid_map::{lists, GridMap};

verus! {

/// Side length (in voxel columns) of one grass streaming tile.
pub const GRASS_TILE: i32 = 16;

/// Ring radius, in tiles, kept populated around the player.
pub const GRASS_RADIUS_TILES: i32 = 3;

/// Hard cap on instances per tile.
pub const MAX_PER_TILE: usize = 12;

/// The two's complement bits of a coordinate, widened to 64.
pub open spec fn wide_bits(v: int) -> u64 {
    (if v < 0 {
        v + 0x1_0000_0000_0000_0000
    } else {
        v
    }) as u64
}

/// The seed of a tile's scatter.
pub open spec fn tile_seed_spec(tile: IVec2) -> u64 {
    wide_bits(tile.x as int).wrapping_mul(0x9E37_79B9_7F4A_7C15) ^ wide_bits(
        tile.y as int,
    ).wrapping_mul(0xC2B2_AE3D_27D4_EB4F)
}

fn widen(v: i32) -> (r: u64)
    ensures
        r == wide_bits(v as int),
{
    if v < 0 {
        (v as i128 + 0x1_0000_0000_0000_0000) as u64
    } else {
        v as u64
    }
}

/// The seed of a tile's scatter, so that placement is deterministic per tile.
pub fn tile_seed(tile: IVec2) -> (s: u64)
    ensures
        s == tile_seed_spec(tile),
{
    widen(tile.x).wrapping_mul(0x9E37_79B9_7F4A_7C15) ^ widen(tile.y).wrapping_mul(
        0xC2B2_AE3D_27D4_EB4F,
    )
}

/// The tile lies in the ring around `center`.
pub open spec fn in_ring(center: IVec2, tile: IVec2) -> bool {
    &&& -GRASS_RADIUS_TILES <= tile.x - center.x <= GRASS_RADIUS_TILES
    &&& -GRASS_RADIUS_TILES <= tile.y - center.y <= GRASS_RADIUS_TILES
}

pub fn is_in_ring(center: IVec2, tile: IVec2) -> (r: bool)
    ensures
        r == in_ring(center, tile),
{
    let dx: i64 = tile.x as i64 - center.x as i64;
    let dz: i64 = tile.y as i64 - center.y as i64;
    -3 <= dx && dx <= 3 && -3 <= dz && dz <= 3
}

/// The ring has room on the grid.
pub open spec fn ring_fits(center: IVec2) -> bool {
    &&& i32::MIN + 3 <= center.x <= i32::MAX - 3
    &&& i32::MIN + 3 <= center.y <= i32::MAX - 3
}

/// Tile to parent entity, for the tiles that have grass.
#[derive(Debug)]
pub struct GrassField {
    pub tiles: GridMap<IVec2, u64>,
}

/// The first `n` columns of the ring's row `dx`, without those present.
pub open spec fn absent_row(center: IVec2, present: Map<IVec2, u64>, dx: int, n: nat) -> Seq<IVec2>
    decreases n,
{
    if n == 0 {
        Seq::empty()
    } else {
        let tile = IVec2 {
            x: (center.x + dx) as i32,
            y: (center.y + (n - 1 - GRASS_RADIUS_TILES)) as i32,
        };
        let before = absent_row(center, present, dx, (n - 1) as nat);
        if present.contains_key(tile) {
            before
        } else {
            before.push(tile)
        }
    }
}

/// The tiles of the ring's first `n` rows that are not present.
pub open spec fn absent(center: IVec2, present: Map<IVec2, u64>, n: nat) -> Seq<IVec2>
    decreases n,
{
    if n == 0 {
        Seq::empty()
    } else {
        absent(center, present, (n - 1) as nat) + absent_row(
            center,
            present,
            n - 1 - GRASS_RADIUS_TILES,
            7,
        )
    }
}

/// The tiles of the ring that have no grass yet, in the order in which they are
/// filled.
pub fn tiles_to_spawn(field: &GrassField, center: IVec2) -> (v: Vec<IVec2>)
    requires
        ring_fits(center),
    ensures
        v@ == absent(center, field.tiles@, 7),
{
    let mut v: Vec<IVec2> = Vec::new();
    let mut a: i32 = 0;
    let ghost m = field.tiles@;
    while a < 7
        invariant
            0 <= a <= 7,
            ring_fits(center),
            m == field.tiles@,
            v@ == absent(center, m, a as nat),
        decreases 7 - a,
    {
        let ghost base = v@;
        let mut b: i32 = 0;
        assert(base + absent_row(center, m, a - 3, 0) =~= base);
        while b < 7
            invariant
                0 <= a < 7,
                0 <= b <= 7,
                ring_fits(center),
                m == field.tiles@,
                v@ == base + absent_row(center, m, a - 3, b as nat),
            decreases 7 - b,
        {
            let tile = IVec2 { x: center.x + (a - 3), y: center.y + (b - 3) };
            if field.tiles.get(tile).is_none() {
                v.push(tile);
            }
            b += 1;
            assert(v@ =~= base + absent_row(center, m, a - 3, b as nat));
        }
        a += 1;
    }
    v
}

/// The tiles that stay when the ring moves to `center`.
pub open spec fn kept(m: Map<IVec2, u64>, center: IVec2) -> Map<IVec2, u64> {
    Map::new(|t: IVec2| m.contains_key(t) && in_ring(center, t), |t: IVec2| m[t])
}

/// The tiles that go when the ring moves to `center`.
pub open spec fn dropped(m: Map<IVec2, u64>, center: IVec2) -> Map<IVec2, u64> {
    Map::new(|t: IVec2| m.contains_key(t) && !in_ring(center, t), |t: IVec2| m[t])
}

/// The entities of a list of tiles.
pub open spec fn entities_of(list: Seq<(IVec2, u64)>) -> Seq<u64> {
    list.map_values(|e: (IVec2, u64)| e.1)
}

/// Distinct entries that are those of `m` list it.
proof fn lemma_lists(list: Seq<(IVec2, u64)>, m: Map<IVec2, u64>)
    requires
        forall|i: int|
            0 <= i < list.len() ==> m.contains_key((#[trigger] list[i]).0) && m[list[i].0]
                == list[i].1,
        forall|i: int, j: int| 0 <= i < j < list.len() ==> list[i].0 != list[j].0,
        forall|t: IVec2| #[trigger]
            m.contains_key(t) ==> exists|i: int| 0 <= i < list.len() && list[i].0 == t,
    ensures
        lists(list, m),
{
    let keys = list.map_values(|e: (IVec2, u64)| e.0);
    assert(keys.no_duplicates());
    keys.unique_seq_to_set();
    assert forall|t: IVec2| keys.to_set().contains(t) == m.dom().contains(t) by {
        if m.contains_key(t) {
            let i = choose|i: int| 0 <= i < list.len() && list[i].0 == t;
            assert(keys[i] == t);
        }
        if keys.contains(t) {
            let i = keys.index_of(t);
            assert(m.contains_key(list[i].0));
        }
    }
    assert(keys.to_set() =~= m.dom());
}

/// Drops the tiles that have left the ring and returns their entities, in no
/// particular order.
pub fn drop_distant(field: &mut GrassField, center: IVec2) -> (gone: Vec<u64>)
    requires
        old(field).tiles.wf(),
    ensures
        final(field).tiles.wf(),
        final(field).tiles@ == kept(old(field).tiles@, center),
        exists|list: Seq<(IVec2, u64)>| #[trigger]
            lists(list, dropped(old(field).tiles@, center)) && gone@ == entities_of(list),
{
    let list = field.tiles.to_vec();
    let ghost m = field.tiles@;
    let mut next: GridMap<IVec2, u64> = GridMap::new();
    let mut gone: Vec<u64> = Vec::new();
    let ghost mut out: Seq<(IVec2, u64)> = Seq::empty();
    let ghost mut from: Seq<int> = Seq::empty();
    let mut i: usize = 0;
    assert(gone@ =~= entities_of(out));
    while i < list.len()
        invariant
            i <= list@.len(),
            lists(list@, m),
            next.wf(),
            forall|t: IVec2| #[trigger]
                next@.contains_key(t) ==> m.contains_key(t) && in_ring(center, t) && next@[t]
                    == m[t],
            gone@ == entities_of(out),
            from.len() == out.len(),
            forall|k: int|
                0 <= k < out.len() ==> 0 <= #[trigger] from[k] < i && out[k] == list@[from[k]]
                    && !in_ring(center, out[k].0),
            forall|j: int, k: int| 0 <= j < k < out.len() ==> from[j] < from[k],
            forall|k: int|
                0 <= k < i ==> (if in_ring(center, (#[trigger] list@[k]).0) {
                    next@.contains_key(list@[k].0)
                } else {
                    from.contains(k)
                }),
        decreases list@.len() - i,
    {
        let (tile, entity): (IVec2, u64) = list[i];
        assert(m.contains_key(list@[i as int].0));
        let ghost went = from;
        if is_in_ring(center, tile) {
            next.insert(tile, entity);
        } else {
            gone.push(entity);
            proof {
                out = out.push(list@[i as int]);
                from = from.push(i as int);
                assert(gone@ =~= entities_of(out));
                assert(from[went.len() as int] == i);
                assert forall|k: int| went.contains(k) implies from.contains(k) by {
                    let j = went.index_of(k);
                    assert(from[j] == k);
                }
            }
        }
        i += 1;
    }
    proof {
        assert forall|t: IVec2| m.contains_key(t) && in_ring(center, t) implies next@.contains_key(
            t,
        ) by {
            let k = choose|k: int| 0 <= k < list@.len() && list@[k].0 == t;
            assert(in_ring(center, list@[k].0));
        }
        assert(next@ =~= kept(m, center));
        let away = dropped(m, center);
        assert forall|k: int| 0 <= k < out.len() implies away.contains_key((#[trigger] out[k]).0)
            && away[out[k].0] == out[k].1 by {
            assert(0 <= from[k] < i);
            assert(m.contains_key(list@[from[k]].0));
        }
        assert forall|j: int, k: int| 0 <= j < k < out.len() implies out[j].0 != out[k].0 by {
            assert(from[j] < from[k] && 0 <= from[j] && from[k] < i);
        }
        assert forall|t: IVec2| #[trigger] away.contains_key(t) implies exists|k: int|
            0 <= k < out.len() && out[k].0 == t by {
            let j = choose|j: int| 0 <= j < list@.len() && list@[j].0 == t;
            assert(!in_ring(center, list@[j].0));
            let k = from.index_of(j);
            assert(from[k] == j);
            assert(out[k].0 == t);
        }
        lemma_lists(out, away);
    }
    field.tiles = next;
    gone
}

proof fn lemma_absent_row(
    center: IVec2,
    present: Map<IVec2, u64>,
    dx: int,
    n: nat,
    t: IVec2,
)
    requires
        ring_fits(center),
        -3 <= dx <= 3,
        n <= 7,
    ensures
        absent_row(center, present, dx, n).contains(t) <==> !present.contains_key(t) && t.x
            == center.x + dx && -3 <= t.y - center.y < n - 3,
    decreases n,
{
    let all = absent_row(center, present, dx, n);
    if n > 0 {
        lemma_absent_row(center, present, dx, (n - 1) as nat, t);
        let before = absent_row(center, present, dx, (n - 1) as nat);
        if all.contains(t) {
            let i = all.index_of(t);
            if i < before.len() {
                assert(before[i] == t);
            }
        }
        if before.contains(t) {
            let i = before.index_of(t);
            assert(all[i] == t);
        }
        if all.len() > before.len() {
            assert(all[before.len() as int] == all.last());
        }
    }
}

proof fn lemma_absent(center: IVec2, present: Map<IVec2, u64>, n: nat, t: IVec2)
    requires
        ring_fits(center),
        n <= 7,
    ensures
        absent(center, present, n).contains(t) <==> !present.contains_key(t) && -3 <= t.x - center.x
            < n - 3 && -3 <= t.y - center.y <= 3,
    decreases n,
{
    let all = absent(center, present, n);
    if n > 0 {
        lemma_absent(center, present, (n - 1) as nat, t);
        lemma_absent_row(center, present, n - 1 - GRASS_RADIUS_TILES, 7, t);
        let before = absent(center, present, (n - 1) as nat);
        let row = absent_row(center, present, n - 1 - GRASS_RADIUS_TILES, 7);
        if all.contains(t) {
            let i = all.index_of(t);
            if i < before.len() {
                assert(before[i] == t);
            } else {
                assert(row[i - before.len()] == t);
            }
        }
        if before.contains(t) {
            let i = before.index_of(t);
            assert(all[i] == t);
        }
        if row.contains(t) {
            let i = row.index_of(t);
            assert(all[before.len() + i] == t);
        }
    }
}

/// Streaming fills the ring and nothing else: once the absent tiles are spawned and
/// the distant ones dropped, exactly the tiles of the ring have grass, and those
/// that had it before kept theirs.
pub proof fn grass_covers_the_ring(
    before: Map<IVec2, u64>,
    spawned: Map<IVec2, u64>,
    center: IVec2,
)
    requires
        ring_fits(center),
        forall|t: IVec2| #[trigger]
            spawned.contains_key(t) <==> before.contains_key(t) || absent(
                center,
                before,
                7,
            ).contains(t),
        forall|t: IVec2| #[trigger] before.contains_key(t) ==> spawned[t] == before[t],
    ensures
        forall|t: IVec2| #[trigger] kept(spawned, center).contains_key(t) <==> in_ring(center, t),
        forall|t: IVec2| #[trigger]
            before.contains_key(t) && in_ring(center, t) ==> kept(spawned, center)[t] == before[t],
{
    assert forall|t: IVec2| #[trigger] kept(spawned, center).contains_key(t) <==> in_ring(
        center,
        t,
    ) by {
        lemma_absent(center, before, 7, t);
    }
}

/// The scatter of one tile: its columns are visited row by row, and a column gets
/// an instance if its draw comes up and it is land, until the tile is full.
#[derive(Clone, Copy, Debug, PartialEq, Eq, Structural)]
pub struct TileScatter {
    pub visited: u32,
    pub placed: usize,
}

impl TileScatter {
    pub open spec fn wf(&self) -> bool {
        self.visited <= 256 && self.placed <= MAX_PER_TILE && self.placed <= self.visited
    }

    /// No column is left, or the tile is full.
    pub open spec fn done(&self) -> bool {
        self.visited == 256 || self.placed == MAX_PER_TILE
    }

    pub fn new() -> (s: TileScatter)
        ensures
            s.wf(),
            s.visited == 0,
            s.placed == 0,
    {
        TileScatter { visited: 0, placed: 0 }
    }

    /// The next column to draw for, or `None` when the tile is done.
    pub fn next_column(&self, tile: IVec2) -> (c: Option<IVec2>)
        requires
            self.wf(),
            -0x0800_0000 <= tile.x < 0x0800_0000,
            -0x0800_0000 <= tile.y < 0x0800_0000,
        ensures
            match c {
                Some(col) => !self.done() && col.x == tile.x * 16 + self.visited / 16 && col.y
                    == tile.y * 16 + self.visited % 16,
                None => self.done(),
            },
    {
        if self.visited == 256 || self.placed == MAX_PER_TILE {
            return None;
        }
        Some(
            IVec2 {
                x: tile.x * GRASS_TILE + (self.visited / 16) as i32,
                y: tile.y * GRASS_TILE + (self.visited % 16) as i32,
            },
        )
    }

    /// Records a column's draw; tells whether it gets an instance. A column whose
    /// draw did not come up needs no look at the terrain.
    pub fn record(&mut self, drawn: bool, land: bool) -> (place: bool)
        requires
            old(self).wf(),
            !old(self).done(),
        ensures
            final(self).wf(),
            place == (drawn && land),
            final(self).visited == old(self).visited + 1,
            final(self).placed == old(self).placed + (if drawn && land {
                1int
            } else {
                0
            }),
    {
        self.visited = self.visited + 1;
        if drawn && land {
            self.placed = self.placed + 1;
            true
        } else {
            false
        }
    }
}

/// The ring is a square of 7 tiles around the centre. A tile of it that is there stays
/// with its grass, a tile outside goes, and nothing is added.
pub proof fn rings_keep_their_tiles(m: Map<IVec2, u64>, center: IVec2, tile: IVec2)
    ensures
        in_ring(center, tile) <==> -3 <= tile.x - center.x <= 3 && -3 <= tile.y - center.y <= 3,
        kept(m, center).contains_key(tile) <==> m.contains_key(tile) && in_ring(center, tile),
        dropped(m, center).contains_key(tile) <==> m.contains_key(tile) && !in_ring(center, tile),
        kept(m, center).contains_key(tile) ==> kept(m, center)[tile] == m[tile],
        dropped(m, center).contains_key(tile) ==> dropped(m, center)[tile] == m[tile],
{
}

/// A tile's seed mixes its two coordinates, each widened as its two's complement and
/// times an odd factor of its own.
pub proof fn tile_seeds_mix_the_coordinates(tile: IVec2)
    ensures
        ({
            let x = (tile.x as int % 0x1_0000_0000_0000_0000) as u64;
            let y = (tile.y as int % 0x1_0000_0000_0000_0000) as u64;
            tile_seed_spec(tile) == x.wrapping_mul(0x9E37_79B9_7F4A_7C15) ^ y.wrapping_mul(
                0xC2B2_AE3D_27D4_EB4F,
            )
        }),
{
}

/// The tiles to fill are those of the ring that have no grass, all of them.
pub proof fn absent_tiles_are_those_without_grass(
    center: IVec2,
    present: Map<IVec2, u64>,
    tile: IVec2,
)
    requires
        ring_fits(center),
    ensures
        absent(center, present, 7).contains(tile) <==> !present.contains_key(tile) && -3 <= tile.x
            - center.x <= 3 && -3 <= tile.y - center.y <= 3,
{
    lemma_absent(center, present, 7, tile);
}

/// Negative coordinates are widened as their two's complement.
pub proof fn widened_bits_are_twos_complement(v: i32)
    ensures
        wide_bits(v as int) as int == v as int % 0x1_0000_0000_0000_0000,
        v >= 0 ==> wide_bits(v as int) == v,
        wide_bits(-1) == 0xffff_ffff_ffff_ffff,
{
}

/// A grass tile is 16 columns wide and holds up to 12 tufts; the columns are visited
/// until the tile is full or all of them were.
pub proof fn grass_tiles_fill_up(s: TileScatter)
    requires
        s.wf(),
    ensures
        GRASS_TILE == 16,
        s.placed <= 12,
        s.visited <= 256,
        s.done() <==> s.placed == 12 || s.visited == 256,
{
}

/// The entities that go are those of the dropped tiles, one for each.
pub proof fn dropped_tiles_take_their_grass(list: Seq<(IVec2, u64)>, m: Map<IVec2, u64>, tile: IVec2)
    requires
        lists(list, m),
    ensures
        entities_of(list).len() == m.dom().len(),
        m.contains_key(tile) ==> entities_of(list).contains(m[tile]),
{
    if m.contains_key(tile) {
        let i = choose|i: int| 0 <= i < list.len() && list[i].0 == tile;
        assert(m[list[i].0] == list[i].1);
        assert(entities_of(list)[i] == m[tile]);
    }
}

} // verus!
