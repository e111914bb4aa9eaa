//! Stair landings that bridge two-step elevation gaps.

use vstd::prelude::*;

use crate::dice::{
    chance_draw, chance_drawn, draw_ratio, drawn_so_far, repeated, rng_from_seed, seed_of,
};
use crate::tiles::chunk::ChunkData;
use crate::tiles::coords::{LocalTilePos, CHUNK_TILES};
use crate::tiles::tile::{solid, Tile, TileKind};

verus! {

/// Chance of converting a qualifying tile: 2 in 5.
pub const STAIR_CHANCE: u32 = 2;

pub const STAIR_CHANCE_OF: u32 = 5;

/// The neighbours in (north, east, south, west) order.
pub open spec fn cardinal(k: int) -> (int, int) {
    if k == 0 {
        (0, 1)
    } else if k == 1 {
        (1, 0)
    } else if k == 2 {
        (0, -1)
    } else {
        (-1, 0)
    }
}

/// The place is in the chunk.
pub open spec fn on_grid(x: int, y: int) -> bool {
    0 <= x < 32 && 0 <= y < 32
}

/// The `k`-th neighbour of tile `i` is in the chunk, can be walked on, and sits
/// two steps above or below the tile.
pub open spec fn bridges(tiles: Seq<Tile>, i: int, k: int) -> bool {
    let x = i % 32 + cardinal(k).0;
    let y = i / 32 + cardinal(k).1;
    &&& on_grid(x, y)
    &&& !solid(tiles[y * 32 + x].kind)
    &&& (tiles[i].height - tiles[y * 32 + x].height == 2 || tiles[y * 32 + x].height
        - tiles[i].height == 2)
}

/// The first of the neighbours from `k` on that tile `i` can bridge to.
pub open spec fn first_bridge(tiles: Seq<Tile>, i: int, k: int) -> Option<int>
    decreases 4 - k,
{
    if k < 0 || k >= 4 {
        None
    } else if bridges(tiles, i, k) {
        Some(k)
    } else {
        first_bridge(tiles, i, k + 1)
    }
}

/// The height of the landing that tile `i` can become: halfway to the first
/// neighbour two steps away. Solid tiles and stairs stay what they are.
pub open spec fn landing(tiles: Seq<Tile>, i: int) -> Option<int> {
    if solid(tiles[i].kind) || tiles[i].kind == TileKind::Stairs {
        None
    } else {
        match first_bridge(tiles, i, 0) {
            Some(k) => {
                let x = i % 32 + cardinal(k).0;
                let y = i / 32 + cardinal(k).1;
                Some((tiles[i].height + tiles[y * 32 + x].height) / 2)
            },
            None => None,
        }
    }
}

/// How many of the first `n` tiles qualify.
pub open spec fn qualifying(tiles: Seq<Tile>, n: int) -> int
    decreases n,
{
    if n <= 0 {
        0
    } else {
        qualifying(tiles, n - 1) + (if landing(tiles, n - 1) is Some {
            1int
        } else {
            0
        })
    }
}

/// Tile `i` after the pass: a landing if it qualifies and its draw, one of
/// `draws` per qualifying tile, is a hit.
pub open spec fn stepped(tiles: Seq<Tile>, draws: Seq<bool>, i: int) -> Tile {
    match landing(tiles, i) {
        Some(h) if draws[qualifying(tiles, i)] => Tile {
            kind: TileKind::Stairs,
            height: h as i8,
        },
        _ => tiles[i],
    }
}

/// All tiles after the pass.
pub open spec fn with_landings(tiles: Seq<Tile>, draws: Seq<bool>) -> Seq<Tile> {
    Seq::new(tiles.len(), |i: int| stepped(tiles, draws, i))
}

fn cardinal_of(k: usize) -> (o: (i32, i32))
    ensures
        (o.0 as int, o.1 as int) == cardinal(k as int),
{
    if k == 0 {
        (0, 1)
    } else if k == 1 {
        (1, 0)
    } else if k == 2 {
        (0, -1)
    } else {
        (-1, 0)
    }
}

/// The height of the landing that tile `i` can become.
pub fn landing_at(tiles: &[Tile], i: usize) -> (h: Option<i8>)
    requires
        tiles@.len() == CHUNK_TILES,
        i < CHUNK_TILES,
    ensures
        match h {
            Some(v) => landing(tiles@, i as int) == Some(v as int),
            None => landing(tiles@, i as int) is None,
        },
{
    let here = tiles[i];
    if here.kind.is_solid() || here.kind == TileKind::Stairs {
        return None;
    }
    let local = LocalTilePos::from_index(i);
    let mut k: usize = 0;
    while k < 4
        invariant
            k <= 4,
            tiles@.len() == CHUNK_TILES,
            i < CHUNK_TILES,
            here == tiles@[i as int],
            !solid(here.kind),
            here.kind != TileKind::Stairs,
            local.x == i % 32,
            local.y == i / 32,
            first_bridge(tiles@, i as int, 0) == first_bridge(tiles@, i as int, k as int),
        decreases 4 - k,
    {
        let (dx, dy): (i32, i32) = cardinal_of(k);
        let nx: i32 = local.x as i32 + dx;
        let ny: i32 = local.y as i32 + dy;
        if 0 <= nx && nx < 32 && 0 <= ny && ny < 32 {
            let there = tiles[(ny * 32 + nx) as usize];
            let gap: i32 = here.height as i32 - there.height as i32;
            if !there.kind.is_solid() && (gap == 2 || gap == -2) {
                proof {
                    let x = i as int % 32 + cardinal(k as int).0;
                    let y = i as int / 32 + cardinal(k as int).1;
                    assert(x == nx && y == ny);
                    assert(tiles@[y * 32 + x] == there);
                    assert(bridges(tiles@, i as int, k as int));
                    assert(first_bridge(tiles@, i as int, k as int) == Some(k as int));
                }
                // the sum of two heights two apart is even
                let mid: i32 = if gap == 2 {
                    here.height as i32 - 1
                } else {
                    here.height as i32 + 1
                };
                return Some(mid as i8);
            }
        }
        k += 1;
    }
    None
}

/// How many draws the pass takes: one per qualifying tile.
pub fn count_qualifying(data: &ChunkData) -> (n: usize)
    requires
        data.wf(),
    ensures
        n == qualifying(data@, CHUNK_TILES as int),
{
    let tiles = data.raw();
    let mut n: usize = 0;
    let mut i: usize = 0;
    while i < CHUNK_TILES
        invariant
            i <= CHUNK_TILES,
            tiles@ == data@,
            tiles@.len() == CHUNK_TILES,
            n == qualifying(data@, i as int),
            n <= i,
        decreases CHUNK_TILES - i,
    {
        if landing_at(tiles, i).is_some() {
            n += 1;
        }
        i += 1;
    }
    n
}

proof fn lemma_qualifying_grows(tiles: Seq<Tile>, i: int, n: int)
    requires
        0 <= i <= n,
    ensures
        0 <= qualifying(tiles, i) <= qualifying(tiles, n),
    decreases n,
{
    if i < n {
        lemma_qualifying_grows(tiles, i, n - 1);
    } else if n > 0 {
        lemma_qualifying_grows(tiles, i - 1, n - 1);
    }
}

/// Converts qualifying tiles into landings, given one draw for each of them. The
/// decision reads the terrain as it was before the pass.
pub fn place_landings(data: &mut ChunkData, draws: &Vec<bool>)
    requires
        old(data).wf(),
        draws@.len() >= qualifying(old(data)@, CHUNK_TILES as int),
    ensures
        final(data).wf(),
        final(data)@ == with_landings(old(data)@, draws@),
{
    let ghost before = data@;
    let mut snapshot: Vec<Tile> = Vec::new();
    let mut j: usize = 0;
    while j < CHUNK_TILES
        invariant
            j <= CHUNK_TILES,
            data@ == before,
            data.wf(),
            snapshot@ == before.take(j as int),
        decreases CHUNK_TILES - j,
    {
        snapshot.push(data.raw()[j]);
        j += 1;
        assert(snapshot@ =~= before.take(j as int));
    }
    assert(snapshot@ =~= before);
    let mut used: usize = 0;
    let mut i: usize = 0;
    while i < CHUNK_TILES
        invariant
            i <= CHUNK_TILES,
            data.wf(),
            snapshot@ == before,
            before.len() == CHUNK_TILES,
            draws@.len() >= qualifying(before, CHUNK_TILES as int),
            used == qualifying(before, i as int),
            used <= i,
            forall|k: int| 0 <= k < i ==> #[trigger] data@[k] == stepped(before, draws@, k),
            forall|k: int| i <= k < CHUNK_TILES ==> #[trigger] data@[k] == before[k],
        decreases CHUNK_TILES - i,
    {
        match landing_at(snapshot.as_slice(), i) {
            Some(h) => {
                proof {
                    lemma_qualifying_grows(before, i + 1, CHUNK_TILES as int);
                }
                if draws[used] {
                    let local = LocalTilePos::from_index(i);
                    data.set(local, Tile { kind: TileKind::Stairs, height: h });
                }
                used += 1;
            },
            None => {},
        }
        i += 1;
    }
    assert(data@ =~= with_landings(before, draws@));
}

/// The first `n` draws of a stair stream.
pub open spec fn stair_draws(stream_seed: u64, n: nat) -> Seq<bool> {
    Seq::new(
        n,
        |k: int|
            chance_drawn(
                stream_seed,
                repeated(chance_draw(STAIR_CHANCE, STAIR_CHANCE_OF), k as nat),
                STAIR_CHANCE,
                STAIR_CHANCE_OF,
            ),
    )
}

/// A chunk's tiles after its stair pass.
pub open spec fn with_stairs(tiles: Seq<Tile>, stream_seed: u64) -> Seq<Tile> {
    with_landings(tiles, stair_draws(stream_seed, qualifying(tiles, CHUNK_TILES as int) as nat))
}

/// Second pass over a freshly-generated chunk: convert select tiles into
/// landings that bridge a 2-step elevation drop to one of their in-chunk
/// neighbours, with a chance of 2 in 5 for each. `stream_seed` seeds the chunk's
/// stair stream, and with the tiles it decides the result.
pub fn place_stair_landings(data: &mut ChunkData, stream_seed: u64)
    requires
        old(data).wf(),
    ensures
        final(data).wf(),
        final(data)@ == with_stairs(old(data)@, stream_seed),
{
    let n: usize = count_qualifying(data);
    let mut rng = rng_from_seed(stream_seed);
    let mut draws: Vec<bool> = Vec::new();
    let mut i: usize = 0;
    assert(drawn_so_far(rng) =~= repeated(chance_draw(STAIR_CHANCE, STAIR_CHANCE_OF), 0));
    while i < n
        invariant
            i <= n,
            seed_of(rng) == stream_seed,
            drawn_so_far(rng) == repeated(chance_draw(STAIR_CHANCE, STAIR_CHANCE_OF), i as nat),
            draws@ == stair_draws(stream_seed, i as nat),
        decreases n - i,
    {
        draws.push(draw_ratio(&mut rng, STAIR_CHANCE, STAIR_CHANCE_OF));
        i += 1;
        assert(draws@ =~= stair_draws(stream_seed, i as nat));
        assert(drawn_so_far(rng) =~= repeated(
            chance_draw(STAIR_CHANCE, STAIR_CHANCE_OF),
            i as nat,
        ));
    }
    place_landings(data, &draws);
}

/// Whatever the draws: a landing is one step from the tile it replaces and one
/// from the neighbour it bridges to; solid tiles, stairs and tiles without a
/// two-step neighbour stay as they are.
pub proof fn landings_bridge_two_steps(tiles: Seq<Tile>, draws: Seq<bool>, i: int)
    requires
        tiles.len() == CHUNK_TILES,
        0 <= i < CHUNK_TILES,
    ensures
        ({
            let t = with_landings(tiles, draws)[i];
            &&& t == tiles[i] || (t.kind == TileKind::Stairs && !solid(tiles[i].kind)
                && exists|k: int|
                0 <= k < 4 && #[trigger] bridges(tiles, i, k) && {
                    let there = tiles[(i / 32 + cardinal(k).1) * 32 + (i % 32 + cardinal(k).0)];
                    (t.height - tiles[i].height == 1 && there.height - t.height == 1) || (
                    tiles[i].height - t.height == 1 && t.height - there.height == 1)
                })
            &&& (solid(tiles[i].kind) || tiles[i].kind == TileKind::Stairs) ==> t == tiles[i]
            &&& (forall|k: int| 0 <= k < 4 ==> !#[trigger] bridges(tiles, i, k)) ==> t == tiles[i]
        }),
{
    lemma_first_bridge(tiles, i, 0);
}

proof fn lemma_first_bridge(tiles: Seq<Tile>, i: int, k: int)
    requires
        0 <= k <= 4,
    ensures
        match first_bridge(tiles, i, k) {
            Some(j) => k <= j < 4 && bridges(tiles, i, j) && forall|m: int|
                k <= m < j ==> !#[trigger] bridges(tiles, i, m),
            None => forall|m: int| k <= m < 4 ==> !#[trigger] bridges(tiles, i, m),
        },
    decreases 4 - k,
{
    if k < 4 {
        lemma_first_bridge(tiles, i, k + 1);
    }
}

/// A chunk of one height gets no landings.
pub proof fn flat_chunks_stay_flat(tiles: Seq<Tile>, draws: Seq<bool>, height: i8)
    requires
        tiles.len() == CHUNK_TILES,
        forall|i: int| 0 <= i < CHUNK_TILES ==> (#[trigger] tiles[i]).height == height,
    ensures
        with_landings(tiles, draws) == tiles,
{
    assert forall|i: int| 0 <= i < CHUNK_TILES implies with_landings(tiles, draws)[i]
        == tiles[i] by {
        lemma_first_bridge(tiles, i, 0);
        if first_bridge(tiles, i, 0) is Some {
            let k = first_bridge(tiles, i, 0)->0;
            let x = i % 32 + cardinal(k).0;
            let y = i / 32 + cardinal(k).1;
            assert(bridges(tiles, i, k));
            assert(on_grid(x, y));
            assert(tiles[y * 32 + x].height == height);
            assert(tiles[i].height == height);
        }
    }
    assert(with_landings(tiles, draws) =~= tiles);
}

/// Tile `i` can become a landing towards the tile at `(x, y)`: they are neighbours
/// along a side, neither is water or stone, the tile is no landing yet, and they are
/// two steps apart.
pub open spec fn two_apart(tiles: Seq<Tile>, i: int, x: int, y: int) -> bool {
    let here = tiles[i];
    let there = tiles[y * 32 + x];
    &&& 0 <= x < 32 && 0 <= y < 32
    &&& (x == i % 32 && (y == i / 32 + 1 || y == i / 32 - 1)) || (y == i / 32 && (x == i % 32 + 1
        || x == i % 32 - 1))
    &&& here.kind != TileKind::Water && here.kind != TileKind::Stone && here.kind
        != TileKind::Stairs
    &&& there.kind != TileKind::Water && there.kind != TileKind::Stone
    &&& here.height - there.height == 2 || there.height - here.height == 2
}

/// The tiles that qualify are those with such a neighbour, and each of them takes one
/// draw, in the order of the tiles.
pub proof fn landings_need_a_gap_of_two(tiles: Seq<Tile>, i: int)
    requires
        tiles.len() == CHUNK_TILES,
        0 <= i < CHUNK_TILES,
    ensures
        landing(tiles, i) is Some <==> exists|x: int, y: int| #[trigger] two_apart(tiles, i, x, y),
        qualifying(tiles, 0) == 0,
        qualifying(tiles, i + 1) - qualifying(tiles, i) == (if exists|x: int, y: int| #[trigger]
            two_apart(tiles, i, x, y) {
            1int
        } else {
            0
        }),
{
    lemma_first_bridge(tiles, i, 0);
    if landing(tiles, i) is Some {
        let k = first_bridge(tiles, i, 0)->0;
        assert(bridges(tiles, i, k));
        assert(two_apart(tiles, i, i % 32 + cardinal(k).0, i / 32 + cardinal(k).1));
    }
    if exists|x: int, y: int| #[trigger] two_apart(tiles, i, x, y) {
        let (x, y) = choose|x: int, y: int| #[trigger] two_apart(tiles, i, x, y);
        let k: int = if y == i / 32 + 1 {
            0
        } else if x == i % 32 + 1 {
            1
        } else if y == i / 32 - 1 {
            2
        } else {
            3
        };
        assert(x == i % 32 + cardinal(k).0 && y == i / 32 + cardinal(k).1);
        assert(bridges(tiles, i, k));
    }
}

/// A tile that qualifies becomes a landing exactly if its own draw hits; a tile that
/// does not qualify never does. With no hit at all the chunk stays as it was.
pub proof fn hits_decide_the_landings(tiles: Seq<Tile>, draws: Seq<bool>, i: int)
    requires
        tiles.len() == CHUNK_TILES,
        0 <= i < CHUNK_TILES,
    ensures
        ({
            let t = with_landings(tiles, draws)[i];
            let gap = exists|x: int, y: int| #[trigger] two_apart(tiles, i, x, y);
            &&& gap && draws[qualifying(tiles, i)] ==> t.kind == TileKind::Stairs
            &&& !gap || !draws[qualifying(tiles, i)] ==> t == tiles[i]
        }),
        with_landings(tiles, draws).len() == CHUNK_TILES,
{
    landings_need_a_gap_of_two(tiles, i);
}

/// A landing is halfway to the first neighbour two steps away, looking north, east,
/// south and west, in that order.
pub proof fn landings_look_north_first(tiles: Seq<Tile>, i: int)
    requires
        tiles.len() == CHUNK_TILES,
        0 <= i < CHUNK_TILES,
    ensures
        ({
            let x = i % 32;
            let y = i / 32;
            let h = tiles[i].height as int;
            let n = two_apart(tiles, i, x, y + 1);
            let e = two_apart(tiles, i, x + 1, y);
            let s = two_apart(tiles, i, x, y - 1);
            let w = two_apart(tiles, i, x - 1, y);
            &&& n ==> landing(tiles, i) == Some((h + tiles[(y + 1) * 32 + x].height) / 2)
            &&& !n && e ==> landing(tiles, i) == Some((h + tiles[y * 32 + x + 1].height) / 2)
            &&& !n && !e && s ==> landing(tiles, i) == Some((h + tiles[(y - 1) * 32 + x].height) / 2)
            &&& !n && !e && !s && w ==> landing(tiles, i) == Some(
                (h + tiles[y * 32 + x - 1].height) / 2,
            )
        }),
{
    let x = i % 32;
    let y = i / 32;
    let plain = tiles[i].kind != TileKind::Water && tiles[i].kind != TileKind::Stone
        && tiles[i].kind != TileKind::Stairs;
    assert(plain ==> bridges(tiles, i, 0) == two_apart(tiles, i, x, y + 1));
    assert(plain ==> bridges(tiles, i, 1) == two_apart(tiles, i, x + 1, y));
    assert(plain ==> bridges(tiles, i, 2) == two_apart(tiles, i, x, y - 1));
    assert(plain ==> bridges(tiles, i, 3) == two_apart(tiles, i, x - 1, y));
    reveal_with_fuel(first_bridge, 5);
}

/// The draws of a chunk are those of its own stream, one after the other, each with a
/// chance of 2 in 5.
pub proof fn stairs_draw_two_in_five(stream_seed: u64, n: nat, k: int)
    requires
        0 <= k < n,
    ensures
        stair_draws(stream_seed, n).len() == n,
        stair_draws(stream_seed, n)[k] == chance_drawn(
            stream_seed,
            Seq::new(k as nat, |j: int| (2u32, 5u32)),
            2,
            5,
        ),
{
    assert(repeated(chance_draw(2, 5), k as nat) =~= Seq::new(k as nat, |j: int| (2u32, 5u32)));
}

} // verus!
