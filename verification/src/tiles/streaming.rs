//! Which chunks to generate, to cancel and to unload as the focus moves.

use vstd::prelude::*;

use crate::grid_map::lists;
use crate::tiles::coords::{chebyshev, ChunkPos};
use crate::tiles::manager::{
    chunk_key, key_entries, key_entry, ChunkManager, PendingChunkGenerations, StreamingConfig,
};

verus! {

/// The offsets at distance `d` in row `dy`, among the first `n` columns.
pub open spec fn ring_row(d: int, dy: int, n: nat) -> Seq<(int, int)>
    decreases n,
{
    if n == 0 {
        Seq::empty()
    } else {
        let dx = n - 1 - d;
        let before = ring_row(d, dy, (n - 1) as nat);
        if dx == -d || dx == d || dy == -d || dy == d {
            before.push((dx, dy))
        } else {
            before
        }
    }
}

/// The offsets at distance `d` in the first `n` rows.
pub open spec fn ring_rows(d: int, n: nat) -> Seq<(int, int)>
    decreases n,
{
    if n == 0 {
        Seq::empty()
    } else {
        ring_rows(d, (n - 1) as nat) + ring_row(d, n - 1 - d, (2 * d + 1) as nat)
    }
}

/// The offsets of the first `n` rings, nearest first, each ring row by row.
pub open spec fn rings(n: nat) -> Seq<(int, int)>
    decreases n,
{
    if n == 0 {
        Seq::empty()
    } else {
        rings((n - 1) as nat) + ring_rows(n - 1, (2 * (n - 1) + 1) as nat)
    }
}

pub open spec fn offset_chunk(center: ChunkPos, o: (int, int)) -> ChunkPos {
    ChunkPos { x: (center.x + o.0) as i32, y: (center.y + o.1) as i32 }
}

/// The chunks at the offsets that are neither loaded nor being generated.
pub open spec fn missing(
    center: ChunkPos,
    offsets: Seq<(int, int)>,
    loaded: Map<(i32, i32), u64>,
    pending: Map<(i32, i32), u64>,
) -> Seq<ChunkPos>
    decreases offsets.len(),
{
    if offsets.len() == 0 {
        Seq::empty()
    } else {
        let before = missing(center, offsets.drop_last(), loaded, pending);
        let pos = offset_chunk(center, offsets.last());
        if loaded.contains_key(chunk_key(pos)) || pending.contains_key(chunk_key(pos)) {
            before
        } else {
            before.push(pos)
        }
    }
}

/// There is room for a window of `n` rings around the centre.
pub open spec fn window_fits(center: ChunkPos, n: int) -> bool {
    &&& i32::MIN + (n - 1) <= center.x <= i32::MAX - (n - 1)
    &&& i32::MIN + (n - 1) <= center.y <= i32::MAX - (n - 1)
}

/// The first `n` items.
pub open spec fn at_most<A>(s: Seq<A>, n: int) -> Seq<A> {
    if s.len() <= n {
        s
    } else {
        s.take(n)
    }
}

/// The larger of the load and the imposter radius, as a number of rings.
pub open spec fn ring_count(cfg: StreamingConfig) -> nat {
    let r = if cfg.load_radius < cfg.hlod_radius {
        cfg.hlod_radius
    } else {
        cfg.load_radius
    };
    if r < 0 {
        0
    } else {
        (r + 1) as nat
    }
}

/// How many tasks may start in a frame with `in_flight` tasks running.
pub open spec fn frame_budget(cfg: StreamingConfig, in_flight: int) -> int {
    let headroom = if in_flight < cfg.max_pending_tasks {
        cfg.max_pending_tasks - in_flight
    } else {
        0
    };
    if headroom < cfg.max_loads_per_frame {
        headroom
    } else {
        cfg.max_loads_per_frame as int
    }
}

proof fn lemma_missing_push(
    center: ChunkPos,
    offsets: Seq<(int, int)>,
    o: (int, int),
    loaded: Map<(i32, i32), u64>,
    pending: Map<(i32, i32), u64>,
)
    ensures
        missing(center, offsets.push(o), loaded, pending) == (if loaded.contains_key(
            chunk_key(offset_chunk(center, o)),
        ) || pending.contains_key(chunk_key(offset_chunk(center, o))) {
            missing(center, offsets, loaded, pending)
        } else {
            missing(center, offsets, loaded, pending).push(offset_chunk(center, o))
        }),
{
    assert(offsets.push(o).drop_last() =~= offsets);
}

/// The chunks to start generating this frame: those inside the spawn window (the
/// larger of `load_radius` and `hlod_radius`) that are neither loaded nor already
/// being generated, closest first, bounded per frame by `max_loads_per_frame` and
/// overall by `max_pending_tasks`.
pub fn schedule_chunk_generations(
    center: ChunkPos,
    cfg: &StreamingConfig,
    manager: &ChunkManager,
    pending: &PendingChunkGenerations,
) -> (out: Vec<ChunkPos>)
    requires
        frame_budget(*cfg, pending@.dom().len() as int) == 0 || (ring_count(*cfg) <= 23170
            && window_fits(center, ring_count(*cfg) as int)),
    ensures
        out@ == at_most(
            missing(center, rings(ring_count(*cfg)), manager@, pending@),
            frame_budget(*cfg, pending@.dom().len() as int),
        ),
        out@.len() + pending@.dom().len() <= cfg.max_pending_tasks || out@.len() == 0,
{
    let mut out: Vec<ChunkPos> = Vec::new();
    let in_flight: usize = pending.in_flight();
    let headroom: usize = cfg.max_pending_tasks.saturating_sub(in_flight);
    let budget: usize = if headroom < cfg.max_loads_per_frame {
        headroom
    } else {
        cfg.max_loads_per_frame
    };
    let ghost all = missing(center, rings(ring_count(*cfg)), manager@, pending@);
    assert(budget == frame_budget(*cfg, in_flight as int));
    if budget == 0 {
        assert(out@ =~= at_most(all, 0));
        return out;
    }
    let radius: i32 = if cfg.load_radius < cfg.hlod_radius {
        cfg.hlod_radius
    } else {
        cfg.load_radius
    };
    let mut d: i32 = 0;
    let ghost mut seen: Seq<(int, int)> = Seq::empty();
    assert(out@ =~= at_most(missing(center, seen, manager@, pending@), budget as int));
    while d <= radius
        invariant
            0 <= d,
            d <= radius + 1 || d == 0,
            radius < 23170,
            radius < 0 || window_fits(center, radius + 1),
            seen == rings(d as nat),
            out@ == at_most(missing(center, seen, manager@, pending@), budget as int),
        decreases radius + 1 - d,
    {
        let ghost base = seen;
        let mut dy: i32 = -d;
        assert(base + ring_rows(d as int, 0) =~= base);
        while dy <= d
            invariant
                0 <= d < 23170,
                -d <= dy <= d + 1,
                window_fits(center, d + 1),
                seen == base + ring_rows(d as int, (dy + d) as nat),
                out@ == at_most(missing(center, seen, manager@, pending@), budget as int),
            decreases d + 1 - dy,
        {
            let ghost row_base = seen;
            let mut dx: i32 = -d;
            assert(row_base + ring_row(d as int, dy as int, 0) =~= row_base);
            while dx <= d
                invariant
                    0 <= d < 23170,
                    -d <= dy <= d,
                    -d <= dx <= d + 1,
                    window_fits(center, d + 1),
                    seen == row_base + ring_row(d as int, dy as int, (dx + d) as nat),
                    out@ == at_most(missing(center, seen, manager@, pending@), budget as int),
                decreases d + 1 - dx,
            {
                let ghost before = seen;
                if dx == -d || dx == d || dy == -d || dy == d {
                    let pos = ChunkPos { x: center.x + dx, y: center.y + dy };
                    let ghost o: (int, int) = (dx as int, dy as int);
                    proof {
                        lemma_missing_push(center, seen, o, manager@, pending@);
                        seen = seen.push(o);
                    }
                    let ghost found = missing(center, before, manager@, pending@);
                    if !manager.is_loaded(pos) && !pending.is_pending(pos) {
                        if out.len() < budget {
                            out.push(pos);
                        } else {
                            assert(found.push(pos).take(budget as int) =~= found.take(
                                budget as int,
                            ));
                        }
                    }
                    assert(out@ =~= at_most(
                        missing(center, seen, manager@, pending@),
                        budget as int,
                    ));
                }
                dx += 1;
                assert(seen =~= row_base + ring_row(d as int, dy as int, (dx + d) as nat));
            }
            dy += 1;
            assert(seen =~= base + ring_rows(d as int, (dy + d) as nat));
        }
        d += 1;
        assert(seen =~= rings(d as nat));
    }
    out
}

/// The chunks of a list that lie beyond a radius.
pub open spec fn beyond(list: Seq<(ChunkPos, u64)>, center: ChunkPos, radius: int) -> Seq<
    (ChunkPos, u64),
>
    decreases list.len(),
{
    if list.len() == 0 {
        Seq::empty()
    } else {
        let before = beyond(list.drop_last(), center, radius);
        if chebyshev(list.last().0, center) > radius {
            before.push(list.last())
        } else {
            before
        }
    }
}

/// Where an entry goes in a list sorted farthest first: behind all that are not
/// nearer.
pub open spec fn place_in(
    sorted: Seq<(ChunkPos, u64)>,
    e: (ChunkPos, u64),
    center: ChunkPos,
) -> int
    decreases sorted.len(),
{
    if sorted.len() > 0 && chebyshev(sorted.last().0, center) < chebyshev(e.0, center) {
        place_in(sorted.drop_last(), e, center)
    } else {
        sorted.len() as int
    }
}

/// The list farthest first; entries at equal distance keep their order.
pub open spec fn farthest_first(list: Seq<(ChunkPos, u64)>, center: ChunkPos) -> Seq<
    (ChunkPos, u64),
>
    decreases list.len(),
{
    if list.len() == 0 {
        Seq::empty()
    } else {
        let sorted = farthest_first(list.drop_last(), center);
        sorted.insert(place_in(sorted, list.last(), center), list.last())
    }
}

proof fn lemma_place_in(sorted: Seq<(ChunkPos, u64)>, e: (ChunkPos, u64), center: ChunkPos)
    ensures
        0 <= place_in(sorted, e, center) <= sorted.len(),
        forall|k: int|
            place_in(sorted, e, center) <= k < sorted.len() ==> chebyshev(
                (#[trigger] sorted[k]).0,
                center,
            ) < chebyshev(e.0, center),
        place_in(sorted, e, center) > 0 ==> chebyshev(
            sorted[place_in(sorted, e, center) - 1].0,
            center,
        ) >= chebyshev(e.0, center),
    decreases sorted.len(),
{
    if sorted.len() > 0 && chebyshev(sorted.last().0, center) < chebyshev(e.0, center) {
        let rest = sorted.drop_last();
        lemma_place_in(rest, e, center);
        assert forall|k: int| place_in(sorted, e, center) <= k < sorted.len() implies chebyshev(
            (#[trigger] sorted[k]).0,
            center,
        ) < chebyshev(e.0, center) by {
            if k < rest.len() {
                assert(rest[k] == sorted[k]);
            }
        }
    }
}

/// No entry of a list sorted farthest first is nearer than a later one, and the
/// list holds the same entries as before.
pub proof fn farthest_first_is_sorted(list: Seq<(ChunkPos, u64)>, center: ChunkPos)
    ensures
        forall|i: int, j: int|
            0 <= i <= j < farthest_first(list, center).len() ==> chebyshev(
                farthest_first(list, center)[i].0,
                center,
            ) >= chebyshev(farthest_first(list, center)[j].0, center),
        farthest_first(list, center).to_multiset() == list.to_multiset(),
    decreases list.len(),
{
    broadcast use vstd::seq_lib::group_to_multiset_ensures;

    if list.len() > 0 {
        let rest = list.drop_last();
        let e = list.last();
        farthest_first_is_sorted(rest, center);
        let s = farthest_first(rest, center);
        lemma_place_in(s, e, center);
        let p = place_in(s, e, center);
        let t = farthest_first(list, center);
        assert(t == s.insert(p, e));
        assert(list =~= rest.push(e));
        assert forall|i: int, j: int| 0 <= i <= j < t.len() implies chebyshev(t[i].0, center)
            >= chebyshev(t[j].0, center) by {
            let a = if i < p {
                i
            } else {
                i - 1
            };
            let b = if j < p {
                j
            } else {
                j - 1
            };
            if i == p && j == p {
            } else if i == p {
                assert(t[j] == s[b]);
            } else if j == p {
                assert(t[i] == s[a]);
                assert(chebyshev(s[a].0, center) >= chebyshev(s[p - 1].0, center));
            } else {
                assert(t[i] == s[a] && t[j] == s[b]);
            }
        }
    }
}

/// Inserts an entry into a list sorted farthest first.
fn insert_sorted(list: &mut Vec<(ChunkPos, u64)>, e: (ChunkPos, u64), center: ChunkPos)
    ensures
        final(list)@ == old(list)@.insert(place_in(old(list)@, e, center), e),
{
    let d: i64 = e.0.chebyshev_distance(center);
    let mut i: usize = list.len();
    proof {
        assert(list@.take(i as int) =~= list@);
    }
    while i > 0 && list[i - 1].0.chebyshev_distance(center) < d
        invariant
            i <= list@.len(),
            list@ == old(list)@,
            d == chebyshev(e.0, center),
            place_in(list@, e, center) == place_in(list@.take(i as int), e, center),
        decreases i,
    {
        assert(list@.take(i as int).drop_last() =~= list@.take(i - 1));
        assert(list@.take(i as int).last() == list@[i - 1]);
        i -= 1;
    }
    proof {
        if i > 0 {
            assert(list@.take(i as int).last() == list@[i - 1]);
        }
        assert(place_in(list@, e, center) == i);
    }
    list.insert(i, e);
}

/// The chunks of a list to release this frame: those past `unload_radius`,
/// farthest first, at most `max_unloads_per_frame`.
pub fn pick_unloads(list: &Vec<(ChunkPos, u64)>, center: ChunkPos, cfg: &StreamingConfig) -> (out:
    Vec<(ChunkPos, u64)>)
    ensures
        out@ == at_most(
            farthest_first(beyond(list@, center, cfg.unload_radius as int), center),
            cfg.max_unloads_per_frame as int,
        ),
{
    let mut sorted: Vec<(ChunkPos, u64)> = Vec::new();
    let mut i: usize = 0;
    let ghost r = cfg.unload_radius as int;
    assert(list@.take(0) =~= Seq::<(ChunkPos, u64)>::empty());
    while i < list.len()
        invariant
            i <= list@.len(),
            r == cfg.unload_radius,
            sorted@ == farthest_first(beyond(list@.take(i as int), center, r), center),
        decreases list@.len() - i,
    {
        proof {
            let head = list@.take(i + 1);
            assert(head.drop_last() =~= list@.take(i as int));
            assert(head.last() == list@[i as int]);
            let before = beyond(list@.take(i as int), center, r);
            assert(before.push(list@[i as int]).drop_last() =~= before);
        }
        if list[i].0.chebyshev_distance(center) > cfg.unload_radius as i64 {
            insert_sorted(&mut sorted, list[i], center);
        }
        i += 1;
    }
    assert(list@.take(i as int) =~= list@);
    if sorted.len() > cfg.max_unloads_per_frame {
        sorted.truncate(cfg.max_unloads_per_frame);
        assert(sorted@ =~= at_most(
            farthest_first(beyond(list@, center, r), center),
            cfg.max_unloads_per_frame as int,
        ));
    }
    sorted
}

/// The keys of the chunks of a list.
pub open spec fn keys_of(list: Seq<(ChunkPos, u64)>) -> Set<(i32, i32)> {
    Set::new(|k: (i32, i32)| exists|i: int| 0 <= i < list.len() && #[trigger] chunk_key(list[i].0) == k)
}

/// Takes the chunks to release this frame out of the manager and returns them
/// with their entities.
pub fn unload_distant_chunks(manager: &mut ChunkManager, center: ChunkPos, cfg: &StreamingConfig) -> (
    out: Vec<(ChunkPos, u64)>)
    ensures
        exists|list: Seq<(ChunkPos, u64)>| #[trigger]
            lists(key_entries(list), old(manager)@) && out@ == at_most(
                farthest_first(beyond(list, center, cfg.unload_radius as int), center),
                cfg.max_unloads_per_frame as int,
            ),
        final(manager)@ == old(manager)@.remove_keys(keys_of(out@)),
{
    let list = manager.iter();
    let out = pick_unloads(&list, center, cfg);
    let mut i: usize = 0;
    assert(old(manager)@.remove_keys(keys_of(out@.take(0))) =~= old(manager)@);
    while i < out.len()
        invariant
            i <= out@.len(),
            manager@ == old(manager)@.remove_keys(keys_of(out@.take(i as int))),
        decreases out@.len() - i,
    {
        manager.remove(out[i].0);
        i += 1;
        proof {
            let before = out@.take(i - 1);
            let now = out@.take(i as int);
            assert forall|k: (i32, i32)| keys_of(now).contains(k) == (keys_of(before).contains(k)
                || k == chunk_key(out@[i - 1].0)) by {
                if keys_of(before).contains(k) {
                    let j = choose|j: int|
                        0 <= j < before.len() && #[trigger] chunk_key(before[j].0) == k;
                    assert(chunk_key(now[j].0) == k);
                }
                if k == chunk_key(out@[i - 1].0) {
                    assert(chunk_key(now[i - 1].0) == k);
                }
                if keys_of(now).contains(k) {
                    let j = choose|j: int|
                        0 <= j < now.len() && #[trigger] chunk_key(now[j].0) == k;
                    if j < i - 1 {
                        assert(chunk_key(before[j].0) == k);
                    }
                }
            }
            assert(manager@ =~= old(manager)@.remove_keys(keys_of(now)));
        }
    }
    assert(out@.take(i as int) =~= out@);
    out
}

/// The entries of a table that are not beyond a radius.
pub open spec fn within(m: Map<(i32, i32), u64>, center: ChunkPos, radius: int) -> Map<
    (i32, i32),
    u64,
> {
    Map::new(
        |k: (i32, i32)|
            m.contains_key(k) && chebyshev(ChunkPos { x: k.0, y: k.1 }, center) <= radius,
        |k: (i32, i32)| m[k],
    )
}

/// Cancels the generation of chunks that have left the streaming window; returns
/// them.
pub fn cancel_distant(pending: &mut PendingChunkGenerations, center: ChunkPos, cfg: &StreamingConfig) -> (
    out: Vec<ChunkPos>)
    ensures
        final(pending)@ == within(old(pending)@, center, cfg.unload_radius as int),
        forall|p: ChunkPos|
            out@.contains(p) <==> #[trigger] old(pending)@.contains_key(chunk_key(p)) && chebyshev(
                p,
                center,
            ) > cfg.unload_radius,
        out@.no_duplicates(),
{
    let list = pending.iter();
    let ghost m = pending@;
    let ghost keyed = key_entries(list@);
    let ghost r = cfg.unload_radius as int;
    let mut out: Vec<ChunkPos> = Vec::new();
    let mut i: usize = 0;
    while i < list.len()
        invariant
            i <= list@.len(),
            m == old(pending)@,
            keyed == key_entries(list@),
            lists(keyed, m),
            r == cfg.unload_radius,
            forall|k: (i32, i32)| #[trigger]
                pending@.contains_key(k) ==> m.contains_key(k) && pending@[k] == m[k],
            forall|k: (i32, i32)| #[trigger]
                m.contains_key(k) && !pending@.contains_key(k) ==> chebyshev(
                    ChunkPos { x: k.0, y: k.1 },
                    center,
                ) > r,
            forall|j: int|
                0 <= j < i && chebyshev((#[trigger] list@[j]).0, center) > r
                    ==> !pending@.contains_key(chunk_key(list@[j].0)) && out@.contains(list@[j].0),
            forall|p: ChunkPos| #[trigger]
                out@.contains(p) ==> m.contains_key(chunk_key(p)) && chebyshev(p, center) > r,
            forall|p: ChunkPos| #[trigger]
                out@.contains(p) ==> exists|j: int| 0 <= j < i && list@[j].0 == p,
            out@.no_duplicates(),
        decreases list@.len() - i,
    {
        let pos = list[i].0;
        assert(keyed[i as int] == key_entry(list@[i as int]));
        assert(m.contains_key(keyed[i as int].0));
        if pos.chebyshev_distance(center) > cfg.unload_radius as i64 {
            pending.remove(pos);
            let ghost before = out@;
            proof {
                if before.contains(pos) {
                    let j = choose|j: int| 0 <= j < i && list@[j].0 == pos;
                    assert(keyed[j] == key_entry(list@[j]));
                    assert(keyed[j].0 == keyed[i as int].0);
                }
            }
            out.push(pos);
            proof {
                assert forall|p: ChunkPos| #[trigger] out@.contains(p) implies exists|j: int|
                    0 <= j < i + 1 && list@[j].0 == p by {
                    let j = out@.index_of(p);
                    if j < before.len() {
                        assert(before[j] == p);
                        assert(before.contains(p));
                        let k = choose|k: int| 0 <= k < i && list@[k].0 == p;
                        assert(list@[k].0 == p);
                    } else {
                        assert(list@[i as int].0 == p);
                    }
                }
                assert forall|a: int, b: int| 0 <= a < b < out@.len() implies out@[a] != out@[b] by {
                    assert(out@[a] == before[a]);
                    if b == before.len() {
                        assert(before.contains(before[a]));
                    }
                }
                assert(out@[before.len() as int] == pos);
                assert forall|p: ChunkPos| before.contains(p) implies out@.contains(p) by {
                    let j = before.index_of(p);
                    assert(out@[j] == p);
                }
                assert forall|p: ChunkPos| #[trigger] out@.contains(p) implies m.contains_key(
                    chunk_key(p),
                ) && chebyshev(p, center) > r by {
                    let j = out@.index_of(p);
                    if j < before.len() {
                        assert(before[j] == p);
                        assert(before.contains(p));
                    }
                }
            }
        }
        i += 1;
    }
    proof {
        assert forall|k: (i32, i32)| #[trigger]
            m.contains_key(k) && chebyshev(
                ChunkPos { x: k.0, y: k.1 },
                center,
            ) > r implies !pending@.contains_key(k) && out@.contains(
            ChunkPos { x: k.0, y: k.1 },
        ) by {
            let j = choose|j: int| 0 <= j < keyed.len() && keyed[j].0 == k;
            assert(keyed[j] == key_entry(list@[j]));
            assert(list@[j].0 == (ChunkPos { x: k.0, y: k.1 }));
        }
        assert(pending@ =~= within(m, center, r));
    }
    out
}

/// A finished chunk becomes a loaded one.
pub fn promote(
    pending: &mut PendingChunkGenerations,
    manager: &mut ChunkManager,
    pos: ChunkPos,
    entity: u64,
)
    ensures
        final(pending)@ == old(pending)@.remove(chunk_key(pos)),
        final(manager)@ == old(manager)@.insert(chunk_key(pos), entity),
{
    pending.remove(pos);
    manager.insert(pos, entity);
}

/// No chunk is scheduled that is loaded or being generated.
pub proof fn scheduled_are_missing(
    center: ChunkPos,
    offsets: Seq<(int, int)>,
    loaded: Map<(i32, i32), u64>,
    pending: Map<(i32, i32), u64>,
    i: int,
)
    requires
        0 <= i < missing(center, offsets, loaded, pending).len(),
    ensures
        !loaded.contains_key(chunk_key(missing(center, offsets, loaded, pending)[i])),
        !pending.contains_key(chunk_key(missing(center, offsets, loaded, pending)[i])),
    decreases offsets.len(),
{
    if offsets.len() > 0 {
        let before = missing(center, offsets.drop_last(), loaded, pending);
        if i < before.len() {
            scheduled_are_missing(center, offsets.drop_last(), loaded, pending, i);
        }
    }
}

/// The distance of an offset.
pub open spec fn reach(o: (int, int)) -> int {
    let dx = crate::tiles::coords::abs_int(o.0);
    let dy = crate::tiles::coords::abs_int(o.1);
    if dx < dy {
        dy
    } else {
        dx
    }
}

proof fn lemma_ring_row(d: int, dy: int, n: nat)
    requires
        0 <= d,
        -d <= dy <= d,
        n <= 2 * d + 1,
    ensures
        forall|o: (int, int)|
            ring_row(d, dy, n).contains(o) <==> #[trigger] reach(o) == d && o.1 == dy && o.0 < n - d,
        forall|i: int| 0 <= i < ring_row(d, dy, n).len() ==> reach(#[trigger] ring_row(d, dy, n)[i]) == d,
        ring_row(d, dy, n).no_duplicates(),
    decreases n,
{
    let all = ring_row(d, dy, n);
    if n > 0 {
        lemma_ring_row(d, dy, (n - 1) as nat);
        let before = ring_row(d, dy, (n - 1) as nat);
        let last = (n - 1 - d, dy);
        assert forall|o: (int, int)|
            all.contains(o) <==> #[trigger] reach(o) == d && o.1 == dy && o.0 < n - d by {
            if all.contains(o) {
                let i = all.index_of(o);
                if i < before.len() {
                    assert(before[i] == o);
                    assert(before.contains(o));
                }
            }
            if before.contains(o) {
                let i = before.index_of(o);
                assert(all[i] == o);
            }
            if o == last && reach(o) == d {
                assert(all[before.len() as int] == o);
            }
        }
        assert forall|i: int| 0 <= i < all.len() implies reach(#[trigger] all[i]) == d by {
            assert(all.contains(all[i]));
        }
        assert forall|i: int, j: int| 0 <= i < j < all.len() implies all[i] != all[j] by {
            assert(all[i] == before[i]);
            if j == before.len() {
                assert(before.contains(before[i]));
                assert(reach(before[i]) == d);
            }
        }
    } else {
        assert forall|o: (int, int)|
            all.contains(o) <==> #[trigger] reach(o) == d && o.1 == dy && o.0 < n - d by {}
    }
}

proof fn lemma_ring_rows(d: int, n: nat)
    requires
        0 <= d,
        n <= 2 * d + 1,
    ensures
        forall|o: (int, int)|
            ring_rows(d, n).contains(o) <==> #[trigger] reach(o) == d && o.1 < n - d,
        forall|i: int| 0 <= i < ring_rows(d, n).len() ==> reach(#[trigger] ring_rows(d, n)[i]) == d,
        ring_rows(d, n).no_duplicates(),
    decreases n,
{
    let all = ring_rows(d, n);
    if n > 0 {
        lemma_ring_rows(d, (n - 1) as nat);
        lemma_ring_row(d, n - 1 - d, (2 * d + 1) as nat);
        let before = ring_rows(d, (n - 1) as nat);
        let row = ring_row(d, n - 1 - d, (2 * d + 1) as nat);
        assert forall|o: (int, int)|
            all.contains(o) <==> #[trigger] reach(o) == d && o.1 < n - d by {
            if all.contains(o) {
                let i = all.index_of(o);
                if i < before.len() {
                    assert(before[i] == o);
                    assert(before.contains(o));
                } else {
                    assert(row[i - before.len()] == o);
                    assert(row.contains(o));
                }
            }
            if before.contains(o) {
                let i = before.index_of(o);
                assert(all[i] == o);
            }
            if row.contains(o) {
                let i = row.index_of(o);
                assert(all[before.len() + i] == o);
            }
        }
        assert forall|i: int| 0 <= i < all.len() implies reach(#[trigger] all[i]) == d by {
            assert(all.contains(all[i]));
        }
        assert forall|i: int, j: int| 0 <= i < j < all.len() implies all[i] != all[j] by {
            if j < before.len() {
                assert(all[i] == before[i] && all[j] == before[j]);
            } else {
                let r = row[j - before.len()];
                assert(all[j] == r && row.contains(r) && reach(r) == d);
                if i < before.len() {
                    assert(all[i] == before[i] && before.contains(before[i]));
                    assert(reach(before[i]) == d);
                } else {
                    assert(all[i] == row[i - before.len()]);
                }
            }
        }
    } else {
        assert forall|o: (int, int)|
            all.contains(o) <==> #[trigger] reach(o) == d && o.1 < n - d by {}
    }
}

/// The rings list exactly the offsets of the window, each once, and never a
/// nearer one after a farther one.
pub proof fn rings_list_the_window_nearest_first(n: nat)
    ensures
        forall|o: (int, int)| rings(n).contains(o) <==> #[trigger] reach(o) < n,
        forall|i: int, j: int|
            0 <= i <= j < rings(n).len() ==> reach(rings(n)[i]) <= reach(rings(n)[j]),
        rings(n).no_duplicates(),
    decreases n,
{
    let all = rings(n);
    if n > 0 {
        let d = n - 1;
        rings_list_the_window_nearest_first((n - 1) as nat);
        lemma_ring_rows(d, (2 * d + 1) as nat);
        let before = rings((n - 1) as nat);
        let ring = ring_rows(d, (2 * d + 1) as nat);
        assert forall|o: (int, int)| all.contains(o) <==> #[trigger] reach(o) < n by {
            if all.contains(o) {
                let i = all.index_of(o);
                if i < before.len() {
                    assert(before[i] == o);
                    assert(before.contains(o));
                } else {
                    assert(ring[i - before.len()] == o);
                    assert(ring.contains(o));
                }
            }
            if before.contains(o) {
                let i = before.index_of(o);
                assert(all[i] == o);
            }
            if ring.contains(o) {
                let i = ring.index_of(o);
                assert(all[before.len() + i] == o);
            }
        }
        assert forall|i: int, j: int| 0 <= i <= j < all.len() implies reach(all[i]) <= reach(
            all[j],
        ) by {
            if j < before.len() {
                assert(all[i] == before[i] && all[j] == before[j]);
            } else {
                assert(all[j] == ring[j - before.len()]);
                if i < before.len() {
                    assert(all[i] == before[i]);
                    assert(before.contains(before[i]));
                } else {
                    assert(all[i] == ring[i - before.len()]);
                }
            }
        }
        assert forall|i: int, j: int| 0 <= i < j < all.len() implies all[i] != all[j] by {
            if j < before.len() {
                assert(all[i] == before[i] && all[j] == before[j]);
            } else {
                assert(all[j] == ring[j - before.len()]);
                if i < before.len() {
                    assert(all[i] == before[i] && before.contains(before[i]));
                    assert(reach(before[i]) < d);
                } else {
                    assert(all[i] == ring[i - before.len()]);
                }
            }
        }
    } else {
        assert forall|o: (int, int)| all.contains(o) <==> #[trigger] reach(o) < n by {}
    }
}

proof fn lemma_missing_are_offsets(
    center: ChunkPos,
    offsets: Seq<(int, int)>,
    loaded: Map<(i32, i32), u64>,
    pending: Map<(i32, i32), u64>,
    p: ChunkPos,
) -> (k: int)
    requires
        missing(center, offsets, loaded, pending).contains(p),
    ensures
        0 <= k < offsets.len(),
        p == offset_chunk(center, offsets[k]),
    decreases offsets.len(),
{
    let all = missing(center, offsets, loaded, pending);
    let before = missing(center, offsets.drop_last(), loaded, pending);
    let i = all.index_of(p);
    if i < before.len() {
        assert(before[i] == p);
        lemma_missing_are_offsets(center, offsets.drop_last(), loaded, pending, p)
    } else {
        offsets.len() - 1
    }
}

proof fn lemma_missing_once(
    center: ChunkPos,
    offsets: Seq<(int, int)>,
    loaded: Map<(i32, i32), u64>,
    pending: Map<(i32, i32), u64>,
    n: int,
)
    requires
        window_fits(center, n),
        offsets.no_duplicates(),
        forall|i: int| 0 <= i < offsets.len() ==> reach(#[trigger] offsets[i]) < n,
    ensures
        missing(center, offsets, loaded, pending).no_duplicates(),
    decreases offsets.len(),
{
    if offsets.len() > 0 {
        let rest = offsets.drop_last();
        assert forall|i: int| 0 <= i < rest.len() implies reach(#[trigger] rest[i]) < n by {
            assert(rest[i] == offsets[i]);
        }
        lemma_missing_once(center, rest, loaded, pending, n);
        let before = missing(center, rest, loaded, pending);
        let p = offset_chunk(center, offsets.last());
        if before.contains(p) {
            let k = lemma_missing_are_offsets(center, rest, loaded, pending, p);
            assert(rest[k] == offsets[k]);
            assert(reach(offsets[k]) < n && reach(offsets[offsets.len() - 1]) < n);
            assert(offsets[k] == offsets.last());
        }
        let all = missing(center, offsets, loaded, pending);
        assert forall|i: int, j: int| 0 <= i < j < all.len() implies all[i] != all[j] by {
            assert(all[i] == before[i]);
            if j < before.len() {
                assert(all[j] == before[j]);
            } else {
                assert(before.contains(before[i]));
            }
        }
    }
}

proof fn lemma_missing_complete(
    center: ChunkPos,
    offsets: Seq<(int, int)>,
    loaded: Map<(i32, i32), u64>,
    pending: Map<(i32, i32), u64>,
    k: int,
)
    requires
        0 <= k < offsets.len(),
        !loaded.contains_key(chunk_key(offset_chunk(center, offsets[k]))),
        !pending.contains_key(chunk_key(offset_chunk(center, offsets[k]))),
    ensures
        missing(center, offsets, loaded, pending).contains(offset_chunk(center, offsets[k])),
    decreases offsets.len(),
{
    let all = missing(center, offsets, loaded, pending);
    let rest = offsets.drop_last();
    let before = missing(center, rest, loaded, pending);
    if k < rest.len() {
        assert(rest[k] == offsets[k]);
        lemma_missing_complete(center, rest, loaded, pending, k);
        let i = before.index_of(offset_chunk(center, offsets[k]));
        assert(all[i] == before[i]);
    } else {
        assert(all[before.len() as int] == offset_chunk(center, offsets[k]));
    }
}

/// The candidates for loading are exactly the chunks of the window that are
/// neither loaded nor being generated.
pub proof fn window_is_filled(
    center: ChunkPos,
    n: nat,
    loaded: Map<(i32, i32), u64>,
    pending: Map<(i32, i32), u64>,
    p: ChunkPos,
)
    requires
        window_fits(center, n as int),
    ensures
        missing(center, rings(n), loaded, pending).contains(p) <==> chebyshev(p, center) < n
            && !loaded.contains_key(chunk_key(p)) && !pending.contains_key(chunk_key(p)),
{
    each_chunk_is_scheduled_once(center, n, loaded, pending);
    let all = missing(center, rings(n), loaded, pending);
    if all.contains(p) {
        scheduled_are_missing(center, rings(n), loaded, pending, all.index_of(p));
    }
    if chebyshev(p, center) < n && !loaded.contains_key(chunk_key(p)) && !pending.contains_key(
        chunk_key(p),
    ) {
        rings_list_the_window_nearest_first(n);
        let o = (p.x - center.x, p.y - center.y);
        assert(reach(o) < n);
        let k = rings(n).index_of(o);
        assert(offset_chunk(center, rings(n)[k]) == p);
        lemma_missing_complete(center, rings(n), loaded, pending, k);
    }
}

/// No chunk is scheduled twice in a frame, and every one lies in the window.
pub proof fn each_chunk_is_scheduled_once(
    center: ChunkPos,
    n: nat,
    loaded: Map<(i32, i32), u64>,
    pending: Map<(i32, i32), u64>,
)
    requires
        window_fits(center, n as int),
    ensures
        missing(center, rings(n), loaded, pending).no_duplicates(),
        forall|p: ChunkPos| #[trigger]
            missing(center, rings(n), loaded, pending).contains(p) ==> chebyshev(p, center) < n,
{
    rings_list_the_window_nearest_first(n);
    let offsets = rings(n);
    assert forall|i: int| 0 <= i < offsets.len() implies reach(#[trigger] offsets[i]) < n by {
        assert(offsets.contains(offsets[i]));
    }
    lemma_missing_once(center, offsets, loaded, pending, n as int);
    assert forall|p: ChunkPos| #[trigger]
        missing(center, offsets, loaded, pending).contains(p) implies chebyshev(p, center) < n by {
        let k = lemma_missing_are_offsets(center, offsets, loaded, pending, p);
        assert(reach(offsets[k]) < n);
    }
}

/// Hysteresis: with an unload radius beyond the window, a chunk that was scheduled
/// is neither cancelled nor unloaded while the focus moves by no more than the
/// slack between the two.
pub proof fn loading_does_not_thrash(
    center: ChunkPos,
    moved: ChunkPos,
    cfg: StreamingConfig,
    loaded: Map<(i32, i32), u64>,
    pending: Map<(i32, i32), u64>,
    p: ChunkPos,
)
    requires
        window_fits(center, ring_count(cfg) as int),
        missing(center, rings(ring_count(cfg)), loaded, pending).contains(p),
        chebyshev(center, moved) <= cfg.unload_radius - (ring_count(cfg) - 1),
    ensures
        chebyshev(p, moved) <= cfg.unload_radius,
{
    each_chunk_is_scheduled_once(center, ring_count(cfg), loaded, pending);
}

proof fn lemma_missing_reach(
    center: ChunkPos,
    offsets: Seq<(int, int)>,
    n: int,
    loaded: Map<(i32, i32), u64>,
    pending: Map<(i32, i32), u64>,
)
    requires
        window_fits(center, n),
        forall|i: int| 0 <= i < offsets.len() ==> reach(#[trigger] offsets[i]) < n,
        forall|i: int, j: int|
            0 <= i <= j < offsets.len() ==> reach(#[trigger] offsets[i]) <= reach(
                #[trigger] offsets[j],
            ),
    ensures
        forall|i: int|
            0 <= i < missing(center, offsets, loaded, pending).len() ==> chebyshev(
                #[trigger] missing(center, offsets, loaded, pending)[i],
                center,
            ) <= reach(offsets.last()),
        forall|i: int, j: int|
            0 <= i <= j < missing(center, offsets, loaded, pending).len() ==> chebyshev(
                #[trigger] missing(center, offsets, loaded, pending)[i],
                center,
            ) <= chebyshev(#[trigger] missing(center, offsets, loaded, pending)[j], center),
    decreases offsets.len(),
{
    if offsets.len() > 0 {
        let rest = offsets.drop_last();
        assert forall|i: int| 0 <= i < rest.len() implies reach(#[trigger] rest[i]) < n by {
            assert(rest[i] == offsets[i]);
        }
        assert forall|i: int, j: int| 0 <= i <= j < rest.len() implies reach(#[trigger] rest[i])
            <= reach(#[trigger] rest[j]) by {
            assert(rest[i] == offsets[i] && rest[j] == offsets[j]);
        }
        lemma_missing_reach(center, rest, n, loaded, pending);
        let o = offsets.last();
        assert(reach(offsets[offsets.len() - 1]) < n);
        let pos = offset_chunk(center, o);
        assert(chebyshev(pos, center) == reach(o));
        let before = missing(center, rest, loaded, pending);
        let all = missing(center, offsets, loaded, pending);
        assert forall|i: int| 0 <= i < before.len() implies chebyshev(
            #[trigger] before[i],
            center,
        ) <= reach(o) by {
            assert(rest.len() > 0);
            assert(reach(offsets[rest.len() - 1]) <= reach(offsets[offsets.len() - 1]));
            assert(rest.last() == offsets[rest.len() - 1]);
        }
        assert forall|i: int| 0 <= i < all.len() implies chebyshev(#[trigger] all[i], center)
            <= reach(o) by {
            if i < before.len() {
                assert(all[i] == before[i]);
            }
        }
        assert forall|i: int, j: int| 0 <= i <= j < all.len() implies chebyshev(
            #[trigger] all[i],
            center,
        ) <= chebyshev(#[trigger] all[j], center) by {
            if j < before.len() {
                assert(all[i] == before[i] && all[j] == before[j]);
            } else {
                assert(all[j] == pos);
                assert(chebyshev(all[i], center) <= reach(o));
            }
        }
    }
}

/// Chunks are loaded nearest first.
pub proof fn nearest_chunks_come_first(
    center: ChunkPos,
    n: nat,
    loaded: Map<(i32, i32), u64>,
    pending: Map<(i32, i32), u64>,
    i: int,
    j: int,
)
    requires
        window_fits(center, n as int),
        0 <= i <= j < missing(center, rings(n), loaded, pending).len(),
    ensures
        chebyshev(missing(center, rings(n), loaded, pending)[i], center) <= chebyshev(
            missing(center, rings(n), loaded, pending)[j],
            center,
        ),
{
    rings_list_the_window_nearest_first(n);
    assert forall|k: int| 0 <= k < rings(n).len() implies reach(#[trigger] rings(n)[k]) < n by {
        assert(rings(n).contains(rings(n)[k]));
    }
    lemma_missing_reach(center, rings(n), n as int, loaded, pending);
}

/// A frame starts as many tasks as it may: never more than the limit per frame, never
/// so many that more than the limit are running, and otherwise no fewer.
pub proof fn frames_use_their_budget(cfg: StreamingConfig, in_flight: int)
    requires
        in_flight >= 0,
    ensures
        0 <= frame_budget(cfg, in_flight) <= cfg.max_loads_per_frame,
        frame_budget(cfg, in_flight) > 0 ==> frame_budget(cfg, in_flight) + in_flight
            <= cfg.max_pending_tasks,
        in_flight + cfg.max_loads_per_frame <= cfg.max_pending_tasks ==> frame_budget(
            cfg,
            in_flight,
        ) == cfg.max_loads_per_frame,
        in_flight <= cfg.max_pending_tasks < in_flight + cfg.max_loads_per_frame ==> frame_budget(
            cfg,
            in_flight,
        ) == cfg.max_pending_tasks - in_flight,
        in_flight >= cfg.max_pending_tasks ==> frame_budget(cfg, in_flight) == 0,
{
}

/// The window reaches as far as the larger of the two radii; a chunk is in it exactly
/// if it is that near.
pub proof fn windows_reach_the_larger_radius(cfg: StreamingConfig, d: int)
    requires
        d >= 0,
    ensures
        d < ring_count(cfg) <==> d <= cfg.load_radius || d <= cfg.hlod_radius,
{
}

/// A limit cuts a list behind its first items, and only where it is longer.
pub proof fn limits_keep_the_first<A>(s: Seq<A>, n: int, i: int)
    requires
        n >= 0,
    ensures
        at_most(s, n).len() <= n,
        at_most(s, n).len() <= s.len(),
        s.len() <= n ==> at_most(s, n) == s,
        s.len() >= n ==> at_most(s, n).len() == n,
        0 <= i < at_most(s, n).len() ==> at_most(s, n)[i] == s[i],
{
}

/// The chunks that are too far are those of the list past the radius, all of them.
pub proof fn distant_chunks_are_past_the_radius(
    list: Seq<(ChunkPos, u64)>,
    center: ChunkPos,
    radius: int,
    e: (ChunkPos, u64),
)
    ensures
        beyond(list, center, radius).contains(e) <==> list.contains(e) && chebyshev(e.0, center)
            > radius,
    decreases list.len(),
{
    if list.len() > 0 {
        let rest = list.drop_last();
        distant_chunks_are_past_the_radius(rest, center, radius, e);
        let before = beyond(rest, center, radius);
        let all = beyond(list, center, radius);
        if before.contains(e) {
            let i = before.index_of(e);
            assert(all[i] == e);
        }
        if rest.contains(e) {
            let i = rest.index_of(e);
            assert(list[i] == e);
        }
        if list.contains(e) {
            let i = list.index_of(e);
            if i < rest.len() {
                assert(rest[i] == e);
            } else if chebyshev(e.0, center) > radius {
                assert(all.last() == e);
            }
        }
        if all.contains(e) {
            let i = all.index_of(e);
            if i < before.len() {
                assert(before[i] == e);
            } else {
                assert(list[list.len() - 1] == e);
            }
        }
    }
}

/// Work on chunks within the radius goes on, and only that.
pub proof fn near_work_goes_on(
    m: Map<(i32, i32), u64>,
    center: ChunkPos,
    radius: int,
    p: ChunkPos,
)
    ensures
        within(m, center, radius).contains_key((p.x, p.y)) <==> m.contains_key((p.x, p.y)) && -radius
            <= p.x - center.x <= radius && -radius <= p.y - center.y <= radius,
        within(m, center, radius).contains_key((p.x, p.y)) ==> within(m, center, radius)[(p.x, p.y)]
            == m[(p.x, p.y)],
{
}

/// A chunk that joins the list goes behind every one that is at least as far, and
/// before every one that is nearer: chunks at equal distance stay in the order in which
/// they came.
pub proof fn equally_far_chunks_keep_their_order(
    list: Seq<(ChunkPos, u64)>,
    e: (ChunkPos, u64),
    center: ChunkPos,
)
    ensures
        exists|p: int|
            {
                &&& 0 <= p <= farthest_first(list, center).len()
                &&& farthest_first(list.push(e), center) == #[trigger] farthest_first(
                    list,
                    center,
                ).insert(p, e)
                &&& forall|k: int|
                    0 <= k < p ==> chebyshev(
                        (#[trigger] farthest_first(list, center)[k]).0,
                        center,
                    ) >= chebyshev(e.0, center)
                &&& forall|k: int|
                    p <= k < farthest_first(list, center).len() ==> chebyshev(
                        (#[trigger] farthest_first(list, center)[k]).0,
                        center,
                    ) < chebyshev(e.0, center)
            },
{
    let before = farthest_first(list, center);
    assert(list.push(e).drop_last() =~= list);
    lemma_place_in(before, e, center);
    farthest_first_is_sorted(list, center);
    let p = place_in(before, e, center);
    assert(farthest_first(list.push(e), center) == before.insert(p, e));
    assert forall|k: int| 0 <= k < p implies chebyshev((#[trigger] before[k]).0, center)
        >= chebyshev(e.0, center) by {
        assert(chebyshev(before[k].0, center) >= chebyshev(before[p - 1].0, center));
    }
}

} // verus!
