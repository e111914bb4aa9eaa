//! Prop scatter for chunks: trees on grass and dirt, spaced apart.

use vstd::prelude::*;

use crate::column_table::{lists_members, members, set_insert, set_list, set_new, PairSet};
use crate::dice::{
    draw_below, drawn_so_far, number_drawn, range_draw, repeated, rng_from_seed, seed_of,
};
use crate::tiles::chunk::ChunkData;
use crate::tiles::coords::{
    abs_int, chunk_fits, world_coord, ChunkPos, LocalTilePos, WorldTile, CHUNK_SIZE,
};
use crate::tiles::tile::{Tile, TileKind};

verus! {

/// World seed used when none has been set.
pub const FALLBACK_WORLD_SEED: u64 = 0xCAFE_F00D;

/// Minimum Chebyshev tile distance between any two trees inside a chunk.
pub const MIN_TREE_SPACING_TILES: i32 = 3;

/// Number of candidate samples taken per chunk.
pub const POISSON_CANDIDATES_PER_CHUNK: u32 = 50;

/// The seed of the world.
#[derive(Clone, Copy, Debug, PartialEq, Eq, Structural)]
pub struct WorldSeed(pub u64);

impl Default for WorldSeed {
    fn default() -> (s: WorldSeed)
        ensures
            s.0 == FALLBACK_WORLD_SEED,
            s.0 == 0xCAFE_F00D,
    {
        WorldSeed(FALLBACK_WORLD_SEED)
    }
}

/// The greater of the distances along the two axes.
pub open spec fn spacing(a: (i32, i32), b: (i32, i32)) -> int {
    let dx = abs_int(a.0 - b.0);
    let dy = abs_int(a.1 - b.1);
    if dx < dy {
        dy
    } else {
        dx
    }
}

/// The place is in the chunk.
pub open spec fn in_chunk(s: (i32, i32)) -> bool {
    0 <= s.0 < CHUNK_SIZE && 0 <= s.1 < CHUNK_SIZE
}

/// The tile at a place of a chunk.
pub open spec fn tile_at(tiles: Seq<Tile>, s: (i32, i32)) -> Tile {
    tiles[s.1 * 32 + s.0]
}

/// Trees grow on grass and dirt at or above sea level.
pub open spec fn grows(t: Tile) -> bool {
    (t.kind == TileKind::Grass || t.kind == TileKind::Dirt) && t.height >= 0
}

/// A tree can be placed at `s` when others stand at `placed`.
pub open spec fn accepted(tiles: Seq<Tile>, placed: Seq<(i32, i32)>, s: (i32, i32)) -> bool {
    &&& grows(tile_at(tiles, s))
    &&& forall|i: int|
        0 <= i < placed.len() ==> spacing(s, #[trigger] placed[i]) >= MIN_TREE_SPACING_TILES
}

/// The places where trees stand after the samples were tried in order.
pub open spec fn tree_places(tiles: Seq<Tile>, samples: Seq<(i32, i32)>) -> Seq<(i32, i32)>
    decreases samples.len(),
{
    if samples.len() == 0 {
        Seq::empty()
    } else {
        let before = tree_places(tiles, samples.drop_last());
        if accepted(tiles, before, samples.last()) {
            before.push(samples.last())
        } else {
            before
        }
    }
}

/// A tree at a place of a chunk: its world tile and height.
pub open spec fn tree_of(tiles: Seq<Tile>, chunk: ChunkPos, s: (i32, i32)) -> (WorldTile, i32) {
    (
        WorldTile {
            x: world_coord(chunk.x as int, s.0 as int) as i32,
            y: world_coord(chunk.y as int, s.1 as int) as i32,
        },
        tile_at(tiles, s).height as i32,
    )
}

pub open spec fn trees_of(
    tiles: Seq<Tile>,
    chunk: ChunkPos,
    places: Seq<(i32, i32)>,
) -> Seq<(WorldTile, i32)> {
    places.map_values(|s: (i32, i32)| tree_of(tiles, chunk, s))
}

/// Whether a place is too close to one of a set.
fn too_close(placed: &PairSet, s: (i32, i32)) -> (r: bool)
    requires
        in_chunk(s),
        forall|p: (i32, i32)| #[trigger] members(*placed).contains(p) ==> in_chunk(p),
    ensures
        r == exists|p: (i32, i32)| #[trigger]
            members(*placed).contains(p) && spacing(s, p) < MIN_TREE_SPACING_TILES,
{
    let list = set_list(placed);
    let ghost all = members(*placed);
    let mut i: usize = 0;
    while i < list.len()
        invariant
            i <= list@.len(),
            all == members(*placed),
            lists_members(list@, all),
            in_chunk(s),
            forall|p: (i32, i32)| #[trigger] all.contains(p) ==> in_chunk(p),
            forall|k: int| 0 <= k < i ==> spacing(s, #[trigger] list@[k]) >= MIN_TREE_SPACING_TILES,
        decreases list@.len() - i,
    {
        let p: (i32, i32) = list[i];
        assert(list@.contains(p));
        assert(list@.to_set().contains(p));
        let dx: i32 = if s.0 < p.0 {
            p.0 - s.0
        } else {
            s.0 - p.0
        };
        let dy: i32 = if s.1 < p.1 {
            p.1 - s.1
        } else {
            s.1 - p.1
        };
        if dx < MIN_TREE_SPACING_TILES && dy < MIN_TREE_SPACING_TILES {
            assert(all.contains(p) && spacing(s, p) < MIN_TREE_SPACING_TILES);
            return true;
        }
        i += 1;
    }
    proof {
        assert forall|p: (i32, i32)| #[trigger] all.contains(p) implies spacing(s, p)
            >= MIN_TREE_SPACING_TILES by {
            assert(list@.to_set().contains(p));
            let k = list@.index_of(p);
            assert(list@[k] == p);
        }
    }
    false
}

/// Tries the samples in order: a tree is placed where it grows and stands apart
/// from every tree placed before.
pub fn scatter(chunk: ChunkPos, data: &ChunkData, samples: &Vec<(i32, i32)>) -> (out: Vec<
    (WorldTile, i32),
>)
    requires
        data.wf(),
        chunk_fits(chunk),
        forall|i: int| 0 <= i < samples@.len() ==> in_chunk(#[trigger] samples@[i]),
    ensures
        out@ == trees_of(data@, chunk, tree_places(data@, samples@)),
{
    let mut placed = set_new();
    let mut out: Vec<(WorldTile, i32)> = Vec::new();
    let ghost mut places: Seq<(i32, i32)> = Seq::empty();
    let mut i: usize = 0;
    assert(samples@.take(0) =~= Seq::<(i32, i32)>::empty());
    assert(out@ =~= trees_of(data@, chunk, places));
    assert(members(placed) =~= places.to_set());
    while i < samples.len()
        invariant
            i <= samples@.len(),
            data.wf(),
            chunk_fits(chunk),
            forall|k: int| 0 <= k < samples@.len() ==> in_chunk(#[trigger] samples@[k]),
            places == tree_places(data@, samples@.take(i as int)),
            members(placed) == places.to_set(),
            forall|k: int| 0 <= k < places.len() ==> in_chunk(#[trigger] places[k]),
            out@ == trees_of(data@, chunk, places),
        decreases samples@.len() - i,
    {
        let s: (i32, i32) = samples[i];
        assert(in_chunk(samples@[i as int]));
        let local = LocalTilePos { x: s.0 as u32, y: s.1 as u32 };
        let tile = data.get(local);
        assert(tile == tile_at(data@, s));
        let kind_ok = matches!(tile.kind, TileKind::Grass | TileKind::Dirt);
        proof {
            assert(samples@.take(i + 1).drop_last() =~= samples@.take(i as int));
            assert forall|p: (i32, i32)| #[trigger] members(placed).contains(p) implies in_chunk(
                p,
            ) by {
                let k = places.index_of(p);
                assert(places[k] == p);
            }
        }
        if kind_ok && tile.height >= 0 {
            let close = too_close(&placed, s);
            proof {
                assert(close == !accepted(data@, places, s)) by {
                    if close {
                        let p = choose|p: (i32, i32)| #[trigger]
                            members(placed).contains(p) && spacing(s, p) < MIN_TREE_SPACING_TILES;
                        let k = places.index_of(p);
                        assert(places[k] == p);
                    } else {
                        assert forall|k: int| 0 <= k < places.len() implies spacing(
                            s,
                            #[trigger] places[k],
                        ) >= MIN_TREE_SPACING_TILES by {
                            assert(places.contains(places[k]));
                            assert(members(placed).contains(places[k]));
                        }
                    }
                }
            }
            if !close {
                set_insert(&mut placed, s);
                let world = local.to_world(chunk);
                let ghost before = places;
                out.push((world, tile.height as i32));
                proof {
                    places = places.push(s);
                    assert(out@ =~= trees_of(data@, chunk, places));
                    assert forall|p: (i32, i32)| places.to_set().contains(p)
                        == before.to_set().insert(s).contains(p) by {
                        if before.contains(p) {
                            let k = before.index_of(p);
                            assert(places[k] == p);
                        }
                        if p == s {
                            assert(places[before.len() as int] == p);
                        }
                        if places.contains(p) {
                            let k = places.index_of(p);
                            if k < before.len() {
                                assert(before[k] == p);
                            }
                        }
                    }
                    assert(members(placed) =~= places.to_set());
                }
            }
        }
        i += 1;
    }
    assert(samples@.take(i as int) =~= samples@);
    out
}

/// The first `n` places that a scatter stream tries.
pub open spec fn candidates(stream_seed: u64, n: nat) -> Seq<(i32, i32)> {
    Seq::new(
        n,
        |k: int|
            (
                number_drawn(stream_seed, repeated(range_draw(32), (2 * k) as nat), 32),
                number_drawn(stream_seed, repeated(range_draw(32), (2 * k + 1) as nat), 32),
            ),
    )
}

/// The trees of a chunk, as its scatter stream places them.
pub open spec fn scattered(stream_seed: u64, chunk: ChunkPos, tiles: Seq<Tile>) -> Seq<
    (WorldTile, i32),
> {
    trees_of(
        tiles,
        chunk,
        tree_places(tiles, candidates(stream_seed, POISSON_CANDIDATES_PER_CHUNK as nat)),
    )
}

/// The tree positions of a chunk: up to one per candidate, drawn by the chunk's
/// scatter stream. `stream_seed` seeds that stream, and with the tiles it decides
/// the result.
pub fn poisson_disk_tiles(stream_seed: u64, chunk: ChunkPos, data: &ChunkData) -> (out: Vec<
    (WorldTile, i32),
>)
    requires
        data.wf(),
        chunk_fits(chunk),
    ensures
        out@ == scattered(stream_seed, chunk, data@),
        forall|i: int|
            0 <= i < POISSON_CANDIDATES_PER_CHUNK ==> in_chunk(
                #[trigger] candidates(stream_seed, POISSON_CANDIDATES_PER_CHUNK as nat)[i],
            ),
{
    let mut rng = rng_from_seed(stream_seed);
    let mut samples: Vec<(i32, i32)> = Vec::new();
    let mut i: u32 = 0;
    assert(drawn_so_far(rng) =~= repeated(range_draw(32), 0));
    while i < POISSON_CANDIDATES_PER_CHUNK
        invariant
            i <= POISSON_CANDIDATES_PER_CHUNK,
            seed_of(rng) == stream_seed,
            drawn_so_far(rng) == repeated(range_draw(32), (2 * i) as nat),
            samples@ == candidates(stream_seed, i as nat),
            forall|k: int| 0 <= k < i ==> in_chunk(#[trigger] samples@[k]),
        decreases POISSON_CANDIDATES_PER_CHUNK - i,
    {
        let lx: i32 = draw_below(&mut rng, CHUNK_SIZE as i32);
        assert(drawn_so_far(rng) =~= repeated(range_draw(32), (2 * i + 1) as nat));
        let ly: i32 = draw_below(&mut rng, CHUNK_SIZE as i32);
        assert(drawn_so_far(rng) =~= repeated(range_draw(32), (2 * i + 2) as nat));
        samples.push((lx, ly));
        i += 1;
        assert(samples@ =~= candidates(stream_seed, i as nat));
    }
    scatter(chunk, data, &samples)
}

/// Whatever the samples: trees stand where they grow and apart from each other,
/// at sampled places, at most one per sample.
pub proof fn trees_stand_apart(tiles: Seq<Tile>, samples: Seq<(i32, i32)>)
    ensures
        tree_places(tiles, samples).len() <= samples.len(),
        forall|i: int|
            0 <= i < tree_places(tiles, samples).len() ==> grows(
                tile_at(tiles, #[trigger] tree_places(tiles, samples)[i]),
            ) && samples.contains(tree_places(tiles, samples)[i]),
        forall|i: int, j: int|
            0 <= i < j < tree_places(tiles, samples).len() ==> spacing(
                tree_places(tiles, samples)[i],
                tree_places(tiles, samples)[j],
            ) >= MIN_TREE_SPACING_TILES,
    decreases samples.len(),
{
    if samples.len() > 0 {
        let rest = samples.drop_last();
        trees_stand_apart(tiles, rest);
        let before = tree_places(tiles, rest);
        let all = tree_places(tiles, samples);
        let s = samples.last();
        assert forall|i: int| 0 <= i < all.len() implies grows(
            tile_at(tiles, #[trigger] all[i]),
        ) && samples.contains(all[i]) by {
            if i < before.len() {
                assert(all[i] == before[i]);
                let k = rest.index_of(before[i]);
                assert(samples[k] == all[i]);
            } else {
                assert(samples[samples.len() - 1] == all[i]);
            }
        }
        assert forall|i: int, j: int| 0 <= i < j < all.len() implies spacing(all[i], all[j])
            >= MIN_TREE_SPACING_TILES by {
            assert(all[i] == before[i]);
            if j < before.len() {
                assert(all[j] == before[j]);
            } else {
                assert(spacing(s, before[i]) >= MIN_TREE_SPACING_TILES);
            }
        }
    }
}

/// A tree grows on the tile: grass or dirt that is not under sea level.
pub open spec fn fertile(tiles: Seq<Tile>, s: (i32, i32)) -> bool {
    let t = tiles[s.1 * 32 + s.0];
    (t.kind == TileKind::Grass || t.kind == TileKind::Dirt) && t.height >= 0
}

/// The two places are less than 3 tiles apart along both axes.
pub open spec fn crowded(a: (i32, i32), b: (i32, i32)) -> bool {
    -3 < a.0 - b.0 < 3 && -3 < a.1 - b.1 < 3
}

proof fn lemma_every_sample_covered(tiles: Seq<Tile>, samples: Seq<(i32, i32)>, k: int)
    requires
        0 <= k < samples.len(),
        fertile(tiles, samples[k]),
    ensures
        exists|i: int|
            0 <= i < tree_places(tiles, samples).len() && crowded(
                samples[k],
                #[trigger] tree_places(tiles, samples)[i],
            ),
    decreases samples.len(),
{
    let rest = samples.drop_last();
    let before = tree_places(tiles, rest);
    let all = tree_places(tiles, samples);
    let s = samples[k];
    if k < rest.len() {
        assert(rest[k] == s);
        lemma_every_sample_covered(tiles, rest, k);
        let i = choose|i: int| 0 <= i < before.len() && crowded(s, #[trigger] before[i]);
        assert(all[i] == before[i]);
    } else if accepted(tiles, before, s) {
        assert(all[before.len() as int] == s);
    } else {
        let i = choose|i: int|
            0 <= i < before.len() && spacing(s, #[trigger] before[i]) < MIN_TREE_SPACING_TILES;
        assert(all[i] == before[i]);
    }
}

/// No sample is passed over without reason: a fertile place that was sampled has a
/// tree on it or less than 3 tiles from it. Trees stand on fertile places only, and
/// no two of them are that close.
pub proof fn trees_fill_the_chunk(tiles: Seq<Tile>, samples: Seq<(i32, i32)>, k: int)
    requires
        0 <= k < samples.len(),
    ensures
        fertile(tiles, samples[k]) ==> exists|i: int|
            0 <= i < tree_places(tiles, samples).len() && crowded(
                samples[k],
                #[trigger] tree_places(tiles, samples)[i],
            ),
        forall|i: int|
            0 <= i < tree_places(tiles, samples).len() ==> fertile(
                tiles,
                #[trigger] tree_places(tiles, samples)[i],
            ),
        forall|i: int, j: int|
            0 <= i < j < tree_places(tiles, samples).len() ==> !crowded(
                #[trigger] tree_places(tiles, samples)[i],
                #[trigger] tree_places(tiles, samples)[j],
            ),
{
    if fertile(tiles, samples[k]) {
        lemma_every_sample_covered(tiles, samples, k);
    }
    trees_stand_apart(tiles, samples);
    let all = tree_places(tiles, samples);
    assert forall|i: int| 0 <= i < all.len() implies fertile(tiles, #[trigger] all[i]) by {
        assert(grows(tile_at(tiles, all[i])));
    }
    assert forall|i: int, j: int| 0 <= i < j < all.len() implies !crowded(
        #[trigger] all[i],
        #[trigger] all[j],
    ) by {
        assert(spacing(all[i], all[j]) >= 3);
    }
}

/// The first fertile place that is sampled gets a tree.
pub proof fn first_fertile_sample_gets_a_tree(
    tiles: Seq<Tile>,
    samples: Seq<(i32, i32)>,
    k: int,
)
    requires
        0 <= k < samples.len(),
        fertile(tiles, samples[k]),
        forall|j: int| 0 <= j < k ==> !fertile(tiles, #[trigger] samples[j]),
    ensures
        tree_places(tiles, samples).len() > 0,
        tree_places(tiles, samples)[0] == samples[k],
    decreases samples.len(),
{
    let rest = samples.drop_last();
    if k < rest.len() {
        assert forall|j: int| 0 <= j < k implies !fertile(tiles, #[trigger] rest[j]) by {
            assert(rest[j] == samples[j]);
        }
        assert(rest[k] == samples[k]);
        first_fertile_sample_gets_a_tree(tiles, rest, k);
    } else {
        trees_stand_apart(tiles, rest);
        let before = tree_places(tiles, rest);
        if before.len() > 0 {
            assert(grows(tile_at(tiles, before[0])));
            let j = rest.index_of(before[0]);
            assert(rest[j] == samples[j]);
            assert(fertile(tiles, samples[j]));
        }
    }
}

/// Trees that stand stay when more samples are tried.
pub proof fn trees_are_placed_in_order(tiles: Seq<Tile>, samples: Seq<(i32, i32)>, n: int)
    requires
        0 <= n <= samples.len(),
    ensures
        tree_places(tiles, samples.take(n)).len() <= tree_places(tiles, samples).len(),
        tree_places(tiles, samples).take(tree_places(tiles, samples.take(n)).len() as int)
            == tree_places(tiles, samples.take(n)),
    decreases samples.len(),
{
    let all = tree_places(tiles, samples);
    let some = tree_places(tiles, samples.take(n));
    if n == samples.len() {
        assert(samples.take(n) =~= samples);
        assert(all.take(all.len() as int) =~= all);
    } else {
        let rest = samples.drop_last();
        trees_are_placed_in_order(tiles, rest, n);
        assert(rest.take(n) =~= samples.take(n));
        let before = tree_places(tiles, rest);
        assert(all.take(some.len() as int) =~= before.take(some.len() as int));
    }
}

/// A tree stands in the world where its place in the chunk is, 32 tiles to a chunk, at
/// the height of its tile; 50 places are tried in each chunk, drawn one after the
/// other from its stream.
pub proof fn trees_stand_on_their_tiles(
    stream_seed: u64,
    tiles: Seq<Tile>,
    chunk: ChunkPos,
    s: (i32, i32),
    k: int,
)
    requires
        chunk_fits(chunk),
        0 <= s.0 < 32,
        0 <= s.1 < 32,
        0 <= k < 50,
    ensures
        tree_of(tiles, chunk, s).0.x == 32 * chunk.x + s.0,
        tree_of(tiles, chunk, s).0.y == 32 * chunk.y + s.1,
        tree_of(tiles, chunk, s).1 == tiles[s.1 * 32 + s.0].height,
        scattered(stream_seed, chunk, tiles).len() == tree_places(
            tiles,
            candidates(stream_seed, 50),
        ).len(),
        candidates(stream_seed, 50).len() == 50,
        candidates(stream_seed, 50)[k] == (
            number_drawn(stream_seed, Seq::new((2 * k) as nat, |j: int| (32u32, 0u32)), 32),
            number_drawn(stream_seed, Seq::new((2 * k + 1) as nat, |j: int| (32u32, 0u32)), 32),
        ),
{
    assert(repeated(range_draw(32), (2 * k) as nat) =~= Seq::new(
        (2 * k) as nat,
        |j: int| (32u32, 0u32),
    ));
    assert(repeated(range_draw(32), (2 * k + 1) as nat) =~= Seq::new(
        (2 * k + 1) as nat,
        |j: int| (32u32, 0u32),
    ));
}

} // verus!
