//! Where chunks come from.

use vstd::prelude::*;

use crate::tiles::chunk::ChunkData;
use crate::tiles::coords::{ChunkPos, CHUNK_TILES};
use crate::tiles::tile::{Tile, TileKind};

verus! {

/// Anything that can produce a [`ChunkData`] for a given chunk coordinate.
/// Implementations are deterministic: the same `(generator, chunk)` pair produces
/// the same data every time, so chunks can be regenerated on demand.
pub trait Generator {
    /// The `i`-th tile of a chunk, in row-major order.
    spec fn tile_of(&self, chunk: ChunkPos, i: usize) -> Tile;

    fn generate(&self, chunk: ChunkPos) -> (data: ChunkData)
        ensures
            data.wf(),
            forall|i: usize|
                i < CHUNK_TILES ==> #[trigger] data@[i as int] == self.tile_of(chunk, i),
    ;
}

/// The tiles that a generator gives a chunk.
pub open spec fn tiles_of<G: Generator>(generator: &G, chunk: ChunkPos) -> Seq<Tile> {
    Seq::new(CHUNK_TILES as nat, |i: int| generator.tile_of(chunk, i as usize))
}

/// Trivial generator that fills every tile of every chunk with the same kind.
#[derive(Clone, Copy, Debug)]
pub struct FlatGenerator {
    kind: TileKind,
}

impl FlatGenerator {
    pub closed spec fn spec_kind(&self) -> TileKind {
        self.kind
    }

    pub fn new(kind: TileKind) -> (g: FlatGenerator)
        ensures
            g.spec_kind() == kind,
    {
        FlatGenerator { kind }
    }
}

impl Generator for FlatGenerator {
    open spec fn tile_of(&self, chunk: ChunkPos, i: usize) -> Tile {
        Tile { kind: self.spec_kind(), height: 0 }
    }

    fn generate(&self, chunk: ChunkPos) -> (data: ChunkData) {
        ChunkData::filled(Tile::of(self.kind))
    }
}

/// The generator that chunks are made with.
#[derive(Debug)]
pub struct ActiveGenerator<G>(pub G);

impl<G: Generator> ActiveGenerator<G> {
    /// Wrap any generator.
    pub fn new(generator: G) -> (a: ActiveGenerator<G>)
        ensures
            a.0 == generator,
    {
        ActiveGenerator(generator)
    }

    /// Run the generator.
    pub fn generate(&self, chunk: ChunkPos) -> (data: ChunkData)
        ensures
            data.wf(),
            data@ == tiles_of(&self.0, chunk),
    {
        let data = self.0.generate(chunk);
        assert forall|i: int| 0 <= i < CHUNK_TILES implies #[trigger] data@[i] == self.0.tile_of(
            chunk,
            i as usize,
        ) by {
            assert(data@[(i as usize) as int] == self.0.tile_of(chunk, i as usize));
        }
        assert(data@ =~= tiles_of(&self.0, chunk));
        data
    }
}

/// The flat generator gives every chunk the same level tiles, all of its kind.
pub proof fn flat_worlds_are_flat(g: FlatGenerator, a: ChunkPos, b: ChunkPos, i: int)
    requires
        0 <= i < 1024,
    ensures
        tiles_of(&g, a).len() == 1024,
        tiles_of(&g, a)[i].kind == g.spec_kind(),
        tiles_of(&g, a)[i].height == 0,
        tiles_of(&g, a) == tiles_of(&g, b),
{
    assert(tiles_of(&g, a) =~= tiles_of(&g, b));
}

} // verus!
