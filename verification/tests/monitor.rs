use inf3d::grass::{
    drop_distant, is_in_ring, tile_seed, tiles_to_spawn, GrassField, TileScatter,
    GRASS_RADIUS_TILES, MAX_PER_TILE,
};
use inf3d::grid::IVec2;
use inf3d::grid_map::GridMap;
use inf3d::ieee::Single;
use inf3d::mesh_grid::{
    ellipsoid_indices, grid_indices, lathe_indices, profile_neighbors, quad_indices,
};
use inf3d::monitor::{spike_cause, Cause, Counts, Monitor, Observation, SPIKE_WARMUP, WINDOW};
use inf3d::text::{same_text, trim};

fn single(v: f32) -> Single {
    Single(v.to_bits())
}

fn quiet(dt: f32) -> Observation {
    Observation {
        dt: single(dt),
        relative_limit: single(1000.0),
        counts: Counts::default(),
        waypoints: 0,
        zoom: single(12.0),
        fixed_ticks: 0,
        summary_due: false,
        state_due: false,
    }
}

#[test]
fn window_rolls_and_sorts() {
    let mut m = Monitor::new();
    let mut last = m.push_sample(single(5.0));
    assert_eq!((last.samples, last.median, last.p95), (1, single(5.0), single(5.0)));
    for i in 0..200 {
        last = m.push_sample(single(i as f32));
    }
    assert_eq!(last.samples, WINDOW);
    assert_eq!(m.times.len(), WINDOW);
    // the window holds 80..=199
    assert_eq!((last.median, last.p95), (single(140.0), single(194.0)));
}

#[test]
fn spikes_are_reported_with_a_cause() {
    let mut m = Monitor::new();
    assert_eq!(m.prev, Counts::default());
    let five = Counts { entities: 5, ..Counts::default() };
    let r = m.record_frame(Observation { counts: five, ..quiet(16.0) });
    assert_eq!(r.delta, five);
    assert!(r.spike.is_none() && r.state && r.flush);
    let r = m.record_frame(quiet(16.0));
    assert!(!r.flush);
    let r = m.record_frame(quiet(30.0));
    assert_eq!(r.spike, Some(Cause::Unknown));
    // the relative limit counts once the window has warmed up
    let relative = Observation { relative_limit: single(10.0), ..quiet(12.0) };
    for _ in 0..SPIKE_WARMUP - 1 {
        m.push_sample(single(12.0));
    }
    assert!(m.record_frame(relative).spike.is_none());
    m.push_sample(single(12.0));
    assert!(m.record_frame(relative).spike.is_some());
    let r = m.record_frame(Observation { summary_due: true, waypoints: 3, ..quiet(11.0) });
    assert_eq!((r.interval_spikes, r.interval_min, r.interval_max), (2, single(11.0), single(30.0)));
    assert!(r.summary && r.moving && r.moving_changed);
    assert_eq!((m.interval_spikes, m.frame, r.frame), (0, 6, 6));
    let r = m.record_frame(Observation { waypoints: 3, ..quiet(11.0) });
    assert!(!r.moving_changed && !r.flush);
}

#[test]
fn causes_are_ranked() {
    let none = Counts::default();
    let (far, near) = (single(70.0), single(69.9));
    assert_eq!(spike_cause(Counts { chunks: 8, ..none }, far, 9), Cause::Streaming);
    assert_eq!(spike_cause(Counts { meshes: -30, ..none }, far, 9), Cause::Streaming);
    assert_eq!(spike_cause(Counts { trees: 5, rocks: 3, ..none }, far, 9), Cause::Foliage);
    assert_eq!(spike_cause(Counts { entities: -16, ..none }, far, 9), Cause::Despawn);
    assert_eq!(spike_cause(none, far, 9), Cause::HighZoom);
    assert_eq!(spike_cause(none, near, 4), Cause::Physics);
    assert_eq!(spike_cause(none, near, 3), Cause::Unknown);
    assert_eq!(Cause::Streaming.label(), "chunk/mesh streaming burst");
    let a = Counts { chunks: 9, ..none };
    assert_eq!(a.delta(Counts { chunks: 12, ..none }).chunks, -3);
}

#[test]
fn grass_follows_the_centre() {
    let mut field = GrassField { tiles: GridMap::new() };
    let center = IVec2::new(2, -1);
    let spawn = tiles_to_spawn(&field, center);
    let side = (2 * GRASS_RADIUS_TILES + 1) as usize;
    assert_eq!(spawn.len(), side * side);
    for (i, t) in spawn.iter().enumerate() {
        assert!(is_in_ring(center, *t));
        field.tiles.insert(*t, i as u64);
    }
    assert!(tiles_to_spawn(&field, center).is_empty());
    let gone = drop_distant(&mut field, IVec2::new(3, -1));
    assert_eq!(gone.len(), side);
    assert_eq!(field.tiles.len(), side * side - side);
    let corner = IVec2::new(i32::MAX - 3, i32::MIN + 3);
    let empty = GrassField { tiles: GridMap::new() };
    assert_eq!(tiles_to_spawn(&empty, corner).len(), side * side);
    assert_ne!(tile_seed(IVec2::new(0, 1)), tile_seed(IVec2::new(1, 0)));
}

#[test]
fn a_tile_scatters_until_full() {
    let mut s = TileScatter::new();
    let tile = IVec2::new(-1, 2);
    assert_eq!(s.next_column(tile), Some(IVec2::new(-16, 32)));
    assert!(!s.record(false, true));
    assert_eq!(s.next_column(tile), Some(IVec2::new(-16, 33)));
    let mut placed = 0;
    while s.next_column(tile).is_some() {
        if s.record(true, true) {
            placed += 1;
        }
    }
    assert_eq!((placed, s.visited), (MAX_PER_TILE, 13));
}

#[test]
fn triangles_stitch_the_grid() {
    let v = grid_indices(2, 1);
    assert_eq!(v.len(), 6);
    assert!(v.iter().all(|i| *i < 4));
    assert_eq!(lathe_indices(3, 1).len(), 2 * 3 * 6);
    assert_eq!(ellipsoid_indices(1, 1).len(), 2 * 3 * 6);
    assert_eq!(quad_indices(2), vec![0, 1, 2, 0, 2, 3, 4, 5, 6, 4, 6, 7]);
    assert_eq!(profile_neighbors(0, 3), (0, 1));
    assert_eq!(profile_neighbors(2, 3), (1, 2));
}

#[test]
fn text_is_trimmed() {
    assert_eq!(trim("  a b\u{3000}\n"), "a b");
    assert_eq!(trim(" \t "), "");
    assert!(same_text("abc", "abc") && !same_text("abc", "abd") && !same_text("ab", "abc"));
}
