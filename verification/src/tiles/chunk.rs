//! The dense tile grid of one chunk.

use vstd::prelude::*;

use crate::tiles::coords::{LocalTilePos, CHUNK_TILES};
use crate::tiles::tile::{solid, Tile, TileKind};

verus! {

/// Dense storage of `CHUNK_SIZE * CHUNK_SIZE` tiles in row-major order
/// (`y * CHUNK_SIZE + x`).
#[derive(Debug)]
pub struct ChunkData {
    tiles: Vec<Tile>,
}

impl View for ChunkData {
    type V = Seq<Tile>;

    closed spec fn view(&self) -> Seq<Tile> {
        self.tiles@
    }
}

/// How many of the flags are set.
pub open spec fn count_true(flags: Seq<bool>) -> nat
    decreases flags.len(),
{
    if flags.len() == 0 {
        0
    } else {
        count_true(flags.drop_last()) + (if flags.last() {
            1nat
        } else {
            0
        })
    }
}

/// Which tiles are solid.
pub open spec fn solid_flags(tiles: Seq<Tile>) -> Seq<bool> {
    tiles.map_values(|t: Tile| solid(t.kind))
}

impl ChunkData {
    /// The chunk has all its tiles.
    pub open spec fn wf(&self) -> bool {
        self@.len() == CHUNK_TILES
    }

    /// Build a chunk where every tile is `fill`.
    pub fn filled(fill: Tile) -> (c: ChunkData)
        ensures
            c.wf(),
            forall|i: int| 0 <= i < CHUNK_TILES ==> #[trigger] c@[i] == fill,
    {
        let mut tiles: Vec<Tile> = Vec::new();
        let mut i: usize = 0;
        while i < CHUNK_TILES
            invariant
                i <= CHUNK_TILES,
                tiles@.len() == i,
                forall|k: int| 0 <= k < i ==> #[trigger] tiles@[k] == fill,
            decreases CHUNK_TILES - i,
        {
            tiles.push(fill);
            i += 1;
        }
        ChunkData { tiles }
    }

    /// Build from a flat row-major array (`y * CHUNK_SIZE + x`).
    pub fn from_array(tiles: Box<[Tile; 1024]>) -> (c: ChunkData)
        ensures
            c.wf(),
            c@ == tiles@,
    {
        let mut v: Vec<Tile> = Vec::new();
        let mut i: usize = 0;
        while i < 1024
            invariant
                i <= 1024,
                tiles@.len() == 1024,
                v@ == tiles@.take(i as int),
            decreases 1024 - i,
        {
            v.push(tiles[i]);
            i += 1;
            assert(v@ =~= tiles@.take(i as int));
        }
        assert(v@ =~= tiles@);
        ChunkData { tiles: v }
    }

    pub fn get(&self, local: LocalTilePos) -> (t: Tile)
        requires
            self.wf(),
            local.valid(),
        ensures
            t == self@[local.spec_index()],
    {
        self.tiles[local.index()]
    }

    pub fn set(&mut self, local: LocalTilePos, tile: Tile)
        requires
            old(self).wf(),
            local.valid(),
        ensures
            final(self).wf(),
            final(self)@ == old(self)@.update(local.spec_index(), tile),
    {
        let i: usize = local.index();
        self.tiles.set(i, tile);
    }

    /// Read-only access to the raw tile slice. Row-major, length `CHUNK_TILES`.
    pub fn raw(&self) -> (s: &[Tile])
        ensures
            s@ == self@,
    {
        self.tiles.as_slice()
    }

    /// Mutable raw access, for bulk fills inside generators.
    pub fn raw_mut(&mut self) -> (s: &mut [Tile])
        ensures
            s@ == old(self)@,
            final(self)@ == final(s)@,
    {
        self.tiles.as_mut_slice()
    }

    /// The `(local_pos, tile)` of every cell, in row-major order.
    pub fn iter(&self) -> (v: Vec<(LocalTilePos, Tile)>)
        requires
            self.wf(),
        ensures
            v@.len() == CHUNK_TILES,
            forall|i: int|
                0 <= i < CHUNK_TILES ==> (#[trigger] v@[i]).0.valid() && v@[i].0.spec_index() == i
                    && v@[i].1 == self@[i],
    {
        let mut v: Vec<(LocalTilePos, Tile)> = Vec::new();
        let mut i: usize = 0;
        while i < CHUNK_TILES
            invariant
                i <= CHUNK_TILES,
                self.wf(),
                v@.len() == i,
                forall|k: int|
                    0 <= k < i ==> (#[trigger] v@[k]).0.valid() && v@[k].0.spec_index() == k
                        && v@[k].1 == self@[k],
            decreases CHUNK_TILES - i,
        {
            v.push((LocalTilePos::from_index(i), self.tiles[i]));
            i += 1;
        }
        v
    }

    /// Count tiles matching the predicate.
    pub fn count_where<F: Fn(Tile) -> bool>(&self, pred: F) -> (n: usize)
        requires
            forall|t: Tile| pred.requires((t,)),
        ensures
            exists|flags: Seq<bool>|
                flags.len() == self@.len() && n == #[trigger] count_true(flags) && forall|i: int|
                    0 <= i < flags.len() ==> pred.ensures((self@[i],), #[trigger] flags[i]),
    {
        let mut n: usize = 0;
        let mut i: usize = 0;
        let ghost mut flags: Seq<bool> = Seq::empty();
        while i < self.tiles.len()
            invariant
                i <= self.tiles@.len(),
                forall|t: Tile| pred.requires((t,)),
                flags.len() == i,
                n == count_true(flags),
                n <= i,
                forall|k: int|
                    0 <= k < flags.len() ==> pred.ensures((self@[k],), #[trigger] flags[k]),
            decreases self.tiles@.len() - i,
        {
            let hit = pred(self.tiles[i]);
            proof {
                let next = flags.push(hit);
                assert(next.drop_last() =~= flags);
                flags = next;
            }
            if hit {
                n += 1;
            }
            i += 1;
        }
        n
    }

    /// True if any tile is solid.
    pub fn has_solid(&self) -> (r: bool)
        ensures
            r == exists|i: int| 0 <= i < self@.len() && solid((#[trigger] self@[i]).kind),
    {
        let mut i: usize = 0;
        while i < self.tiles.len()
            invariant
                i <= self.tiles@.len(),
                forall|k: int| 0 <= k < i ==> !solid((#[trigger] self@[k]).kind),
            decreases self.tiles@.len() - i,
        {
            if self.tiles[i].kind.is_solid() {
                assert(solid(self@[i as int].kind));
                return true;
            }
            i += 1;
        }
        false
    }

    /// Count the solid tiles in this chunk.
    pub fn count_solid(&self) -> (n: usize)
        ensures
            n == count_true(solid_flags(self@)),
    {
        let mut n: usize = 0;
        let mut i: usize = 0;
        let ghost all = solid_flags(self@);
        assert(all.take(0) =~= Seq::<bool>::empty());
        while i < self.tiles.len()
            invariant
                i <= self.tiles@.len(),
                all == solid_flags(self@),
                n == count_true(all.take(i as int)),
                n <= i,
            decreases self.tiles@.len() - i,
        {
            assert(all.take(i + 1).drop_last() =~= all.take(i as int));
            assert(all.take(i + 1).last() == all[i as int]);
            if self.tiles[i].kind.is_solid() {
                n += 1;
            }
            i += 1;
        }
        assert(all.take(i as int) =~= all);
        n
    }
}

impl Default for ChunkData {
    fn default() -> (c: ChunkData)
        ensures
            c.wf(),
            forall|i: int|
                0 <= i < CHUNK_TILES ==> #[trigger] c@[i] == (Tile {
                    kind: TileKind::Grass,
                    height: 0,
                }),
    {
        ChunkData::filled(Tile::of(TileKind::Grass))
    }
}

/// Counting counts each flag once: none for no flags, and one more for each that is
/// set, wherever it stands.
pub proof fn each_flag_counts_once(a: Seq<bool>, b: Seq<bool>)
    ensures
        count_true(Seq::<bool>::empty()) == 0,
        count_true(seq![true]) == 1,
        count_true(seq![false]) == 0,
        count_true(a + b) == count_true(a) + count_true(b),
    decreases b.len(),
{
    reveal_with_fuel(count_true, 2);
    if b.len() == 0 {
        assert(a + b =~= a);
    } else {
        assert((a + b).drop_last() =~= a + b.drop_last());
        each_flag_counts_once(a, b.drop_last());
    }
}

/// A tile is flagged exactly if it is water or stone.
pub proof fn solid_tiles_are_flagged(tiles: Seq<Tile>, i: int)
    requires
        0 <= i < tiles.len(),
    ensures
        solid_flags(tiles).len() == tiles.len(),
        solid_flags(tiles)[i] <==> tiles[i].kind == TileKind::Water || tiles[i].kind
            == TileKind::Stone,
{
}

} // verus!
