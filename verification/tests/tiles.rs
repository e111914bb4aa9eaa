use inf3d::ieee::Double;
use inf3d::tiles::biome::{
    build_chunk, classify_biome, generate_chunk, height_for, BiomeParams, TileSample,
};
use inf3d::tiles::chunk::ChunkData;
use inf3d::tiles::coords::{ChunkPos, LocalTilePos, WorldTile, CHUNK_SIZE, CHUNK_TILES};
use inf3d::tiles::generator::{ActiveGenerator, FlatGenerator, Generator};
use inf3d::tiles::manager::{ChunkManager, PendingChunkGenerations, StreamingConfig};
use inf3d::tiles::props::{poisson_disk_tiles, scatter, WorldSeed, FALLBACK_WORLD_SEED};
use inf3d::tiles::stairs::{count_qualifying, landing_at, place_landings, place_stair_landings};
use inf3d::tiles::streaming::{
    cancel_distant, pick_unloads, promote, schedule_chunk_generations, unload_distant_chunks,
};
use inf3d::tiles::tile::{Tile, TileKind};
use noise::{Fbm, MultiFractal, NoiseFn, Perlin};

fn double(v: f64) -> Double {
    Double(v.to_bits())
}

fn number(v: Double) -> f64 {
    f64::from_bits(v.0)
}

fn beach_top(p: &BiomeParams) -> Double {
    double(number(p.water_level) + number(p.beach_band))
}

fn steps_of(e: f64, p: &BiomeParams) -> i64 {
    let water = number(p.water_level);
    let span = (1.0 - water).max(f64::EPSILON);
    let normalized = ((e - water) / span).clamp(0.0, 1.0);
    (normalized * p.max_height_steps as f64).floor() as i64
}

fn height(e: f64, p: &BiomeParams) -> i8 {
    height_for(double(e), steps_of(e, p), p)
}

fn classify(e: f64, m: f64, p: &BiomeParams) -> TileKind {
    classify_biome(double(e), double(m), p, beach_top(p))
}

fn field(seed: u32, octaves: usize, frequency: f64, p: &BiomeParams) -> Fbm<Perlin> {
    Fbm::<Perlin>::new(seed)
        .set_octaves(octaves)
        .set_frequency(frequency)
        .set_lacunarity(number(p.elevation_lacunarity))
        .set_persistence(number(p.elevation_persistence))
}

fn sample(fbm: &Fbm<Perlin>, x: f64, y: f64, redistribution: f64) -> f64 {
    let n = ((fbm.get([x, y]) + 1.0) * 0.5).clamp(0.0, 1.0);
    if redistribution == 1.0 {
        n
    } else {
        n.powf(redistribution)
    }
}

/// Spreads every bit of a number over all others.
fn avalanche(mut z: u64) -> u64 {
    z = (z ^ (z >> 30)).wrapping_mul(0xBF58_476D_1CE4_E5B9);
    z = (z ^ (z >> 27)).wrapping_mul(0x94D0_49BB_1331_11EB);
    z ^ (z >> 31)
}

/// An independent seed for each stream of a world.
fn mixed(world_seed: u64, stream: u64) -> u64 {
    avalanche(avalanche(world_seed) ^ stream)
}

/// A chunk of noise terrain.
fn generate(p: &BiomeParams, chunk: ChunkPos) -> ChunkData {
    let wet_seed = mixed(p.world_seed, 0x1002) as u32;
    let elevation = field(mixed(p.world_seed, 0x1001) as u32, p.elevation_octaves, number(p.elevation_frequency), p);
    let moisture = field(wet_seed, p.moisture_octaves, number(p.moisture_frequency), p);
    let samples: Vec<TileSample> = (0..CHUNK_TILES)
        .map(|i| {
            let world = LocalTilePos::from_index(i).to_world(chunk);
            let (x, y) = (world.x as f64, world.y as f64);
            let e = sample(&elevation, x, y, number(p.elevation_redistribution));
            TileSample {
                elevation: double(e),
                moisture: double(sample(&moisture, x, y, 1.0)),
                steps: steps_of(e, p),
            }
        })
        .collect();
    let stair_seed = p.world_seed ^ ((chunk.x as u64) << 32) ^ chunk.y as u64;
    generate_chunk(&samples, p, beach_top(p), stair_seed)
}

#[test]
fn default_params_produce_variation() {
    let data = generate(&BiomeParams::default(), ChunkPos::new(0, 0));
    let raw = data.raw();
    let first = raw[0].kind;
    let any_different = raw.iter().any(|t| t.kind != first);
    assert!(
        any_different,
        "expected at least one non-default tile in a fresh chunk; got all {:?}",
        first
    );
}

#[test]
fn noise_terrain_varies() {
    let p = BiomeParams::default();
    let mut kinds = Vec::new();
    for x in 0..12 {
        for t in generate(&p, ChunkPos::new(x, 3 * x)).raw() {
            if !kinds.contains(&t.kind) {
                kinds.push(t.kind);
            }
        }
    }
    assert!(kinds.len() > 2, "{kinds:?}");
}

#[test]
fn generation_is_deterministic() {
    let p = BiomeParams::default();
    let a = generate(&p, ChunkPos::new(3, -7));
    let b = generate(&p, ChunkPos::new(3, -7));
    assert_eq!(a.raw(), b.raw());
}

#[test]
fn seed_changes_output() {
    let mut p1 = BiomeParams::default();
    let mut p2 = BiomeParams::default();
    p1.world_seed = 1;
    p2.world_seed = 2;
    let a = generate(&p1, ChunkPos::new(0, 0));
    let b = generate(&p2, ChunkPos::new(0, 0));
    assert_ne!(a.raw(), b.raw(), "different seeds must yield different chunks");
}

#[test]
fn water_tiles_use_configured_water_height() {
    let p = BiomeParams::default();
    let below = number(p.water_level) * 0.5;
    assert_eq!(height(below, &p), p.water_height);
}

#[test]
fn land_height_is_monotonic_in_elevation() {
    let p = BiomeParams::default();
    let water = number(p.water_level);
    let lo = height(water + 0.001, &p);
    let mid = height((water + 1.0) * 0.5, &p);
    let hi = height(0.999, &p);
    assert!(lo <= mid, "low={lo} mid={mid}");
    assert!(mid <= hi, "mid={mid} hi={hi}");
}

#[test]
fn land_height_capped_at_max_steps() {
    let p = BiomeParams::default();
    let top = height(1.0, &p);
    assert!(top <= p.max_height_steps as i8);
    assert_eq!(height_for(double(1.0), 300, &p), 6);
    let mut tall = p;
    tall.max_height_steps = 255;
    assert_eq!(height_for(double(1.0), 255, &tall), 127);
}

#[test]
fn generated_chunk_carries_height_field() {
    let data = generate(&BiomeParams::default(), ChunkPos::new(0, 0));
    let any_nonzero = data.raw().iter().any(|t| t.height != 0);
    assert!(
        any_nonzero,
        "expected at least one tile with non-zero height in a generated chunk"
    );
}

fn seam() -> ChunkData {
    let mut data = ChunkData::default();
    let tiles = data.raw_mut();
    for i in 0..CHUNK_TILES {
        let local = LocalTilePos::from_index(i);
        let h: i8 = if local.x < CHUNK_SIZE / 2 { 0 } else { 2 };
        tiles[i] = Tile::with_height(TileKind::Grass, h);
    }
    data
}

#[test]
fn stair_pass_bridges_two_step_gap() {
    let mut converted_any = false;
    for seed in 0..16u64 {
        let mut data = seam();
        place_stair_landings(&mut data, seed);
        if data.raw().iter().any(|t| t.kind == TileKind::Stairs) {
            converted_any = true;
            for t in data.raw().iter() {
                if t.kind == TileKind::Stairs {
                    assert_eq!(
                        t.height, 1,
                        "stair landing on a 0↔2 seam must have height 1, got {}",
                        t.height
                    );
                }
            }
            break;
        }
    }
    assert!(
        converted_any,
        "across 16 seeds, the stair pass produced no landings on a 0↔2 seam"
    );
}

#[test]
fn stair_pass_is_deterministic() {
    let p = BiomeParams::default();
    let mut a = seam();
    let mut b = seam();
    place_stair_landings(&mut a, p.world_seed);
    place_stair_landings(&mut b, p.world_seed);
    assert_eq!(a.raw(), b.raw(), "stair placement must be deterministic");
    // some tiles are converted and some are not
    let stairs = a.count_where(|t: Tile| t.kind == TileKind::Stairs);
    assert!(stairs > 0 && stairs < 64, "{stairs}");
    let mut other = seam();
    place_stair_landings(&mut other, p.world_seed + 1);
    assert_ne!(a.raw(), other.raw());
}

#[test]
fn stair_pass_leaves_flat_chunks_alone() {
    let mut data = ChunkData::default();
    let tiles = data.raw_mut();
    for i in 0..CHUNK_TILES {
        tiles[i] = Tile::with_height(TileKind::Grass, 0);
    }
    place_stair_landings(&mut data, 0xDEAD_BEEF);
    assert!(
        data.raw().iter().all(|t| t.kind == TileKind::Grass),
        "flat chunk must not gain any stair tiles"
    );
}

#[test]
fn landings_take_one_draw_each() {
    let mut data = seam();
    assert_eq!(count_qualifying(&data), 64);
    let at = LocalTilePos::new(15, 0).index();
    assert_eq!(landing_at(data.raw(), at), Some(1));
    assert_eq!(landing_at(data.raw(), 0), None);
    let mut draws = vec![false; 64];
    draws[0] = true;
    place_landings(&mut data, &draws);
    assert_eq!(data.get(LocalTilePos::new(15, 0)), Tile::with_height(TileKind::Stairs, 1));
    assert_eq!(data.count_where(|t: Tile| t.kind == TileKind::Stairs), 1);
}

#[test]
fn classify_water_then_beach_then_land() {
    let p = BiomeParams::default();
    let water = number(p.water_level);
    assert_eq!(classify(0.0, 0.5, &p), TileKind::Water);
    assert_eq!(classify(water + number(p.beach_band) * 0.5, 0.5, &p), TileKind::Sand);
    assert_eq!(classify(0.5, 0.5, &p), TileKind::Grass);
    assert_eq!(classify(0.5, 0.1, &p), TileKind::Sand);
    assert_eq!(classify(0.5, 0.9, &p), TileKind::Dirt);
    assert_eq!(classify(number(p.mountain_level) + 0.01, 0.5, &p), TileKind::Stone);
    assert_eq!(classify(number(p.snow_level) + 0.01, 0.5, &p), TileKind::Snow);
}

#[test]
fn default_params_validate() {
    let p = BiomeParams::default();
    p.validate(beach_top(&p)).expect("defaults must validate");
    assert_eq!(number(p.elevation_frequency), 1.0 / 256.0);
    assert_eq!(number(p.elevation_redistribution), 1.8);
    assert_eq!(number(p.moisture_frequency), 1.0 / 200.0);
    assert_eq!((number(p.water_level), number(p.beach_band)), (0.35, 0.05));
    assert_eq!((number(p.mountain_level), number(p.snow_level)), (0.78, 0.92));
}

#[test]
fn inverted_thresholds_rejected() {
    let mut p = BiomeParams::default();
    p.mountain_level = double(0.10);
    assert!(p.validate(beach_top(&p)).is_err());
}

#[test]
fn nonpositive_frequency_rejected() {
    let mut p = BiomeParams::default();
    p.elevation_frequency = double(0.0);
    assert!(p.validate(beach_top(&p)).is_err());
    p = BiomeParams::default();
    p.moisture_frequency = double(-1.0);
    assert!(p.validate(beach_top(&p)).is_err());
}

#[test]
fn every_fault_has_its_message() {
    let ok = BiomeParams::default();
    let bad = |p: BiomeParams| p.validate(beach_top(&p)).unwrap_err();
    let nan = double(f64::NAN);
    let two = double(2.0);
    assert_eq!(
        bad(BiomeParams { elevation_frequency: nan, ..ok }),
        "elevation_frequency must be finite and > 0"
    );
    assert_eq!(
        bad(BiomeParams { moisture_frequency: nan, ..ok }),
        "moisture_frequency must be finite and > 0"
    );
    assert_eq!(bad(BiomeParams { elevation_octaves: 0, ..ok }), "elevation_octaves must be >= 1");
    assert_eq!(bad(BiomeParams { moisture_octaves: 0, ..ok }), "moisture_octaves must be >= 1");
    assert_eq!(
        bad(BiomeParams { elevation_lacunarity: double(1.0), ..ok }),
        "elevation_lacunarity must be finite and > 1"
    );
    assert_eq!(
        bad(BiomeParams { elevation_persistence: double(1.0), ..ok }),
        "elevation_persistence must be in (0, 1)"
    );
    assert_eq!(
        bad(BiomeParams { elevation_redistribution: double(0.0), ..ok }),
        "elevation_redistribution must be finite and > 0"
    );
    assert_eq!(bad(BiomeParams { water_level: two, ..ok }), "water_level must be in [0, 1]");
    assert_eq!(bad(BiomeParams { mountain_level: two, ..ok }), "mountain_level must be in [0, 1]");
    assert_eq!(bad(BiomeParams { snow_level: two, ..ok }), "snow_level must be in [0, 1]");
    assert_eq!(bad(BiomeParams { beach_band: two, ..ok }), "beach_band must be in [0, 1]");
    assert_eq!(
        bad(BiomeParams { beach_band: double(0.6), ..ok }),
        "water_level + beach_band must be < mountain_level"
    );
    assert_eq!(
        bad(BiomeParams { snow_level: double(0.5), ..ok }),
        "mountain_level must be < snow_level"
    );
    assert_eq!(bad(BiomeParams { max_height_steps: 0, ..ok }), "max_height_steps must be >= 1");
}

#[test]
fn samples_become_tiles() {
    let p = BiomeParams::default();
    let s = TileSample { elevation: double(0.6), moisture: double(0.8), steps: 2 };
    let data = build_chunk(&vec![s; CHUNK_TILES], &p, beach_top(&p));
    assert!(data.raw().iter().all(|t| *t == Tile::with_height(TileKind::Dirt, 2)));
}

#[test]
fn chunk_coordinates_round_trip() {
    let chunk = ChunkPos::new(-2, 3);
    for i in [0, 31, 32, 1023] {
        let local = LocalTilePos::from_index(i);
        assert_eq!(local.index(), i);
        let world = local.to_world(chunk);
        assert_eq!(ChunkPos::from_tile(world), chunk);
    }
    assert_eq!(LocalTilePos::new(5, 2).to_world(chunk), WorldTile { x: -59, y: 98 });
    assert_eq!(ChunkPos::new(0, 0).chebyshev_distance(chunk), 3);
}

#[test]
fn tiles_and_chunks() {
    let slots: Vec<u32> = TileKind::all().iter().map(|k| k.atlas_index()).collect();
    for (i, a) in slots.iter().enumerate() {
        assert!(!slots[..i].contains(a));
    }
    assert!(TileKind::Water.is_solid() && !TileKind::Grass.is_solid());
    let mut c = ChunkData::filled(Tile::of(TileKind::Grass));
    assert!(!c.has_solid());
    c.set(LocalTilePos::new(3, 4), Tile::of(TileKind::Stone));
    assert_eq!((c.count_solid(), c.has_solid()), (1, true));
    assert_eq!(c.iter()[4 * 32 + 3], (LocalTilePos::new(3, 4), Tile::of(TileKind::Stone)));
    let d = ChunkData::from_array(Box::new([Tile::of(TileKind::Snow); 1024]));
    assert_eq!(d.get(LocalTilePos::new(31, 31)).kind, TileKind::Snow);
    let g = ActiveGenerator::new(FlatGenerator::new(TileKind::Sand));
    assert!(g.generate(ChunkPos::new(9, 9)).raw().iter().all(|t| t.kind == TileKind::Sand));
    let f = FlatGenerator::new(TileKind::Dirt);
    assert_eq!(f.generate(ChunkPos::new(0, 0)).raw()[7].kind, TileKind::Dirt);
}

fn config() -> StreamingConfig {
    StreamingConfig {
        load_radius: 1,
        hlod_radius: 1,
        unload_radius: 2,
        max_loads_per_frame: 5,
        max_unloads_per_frame: 2,
        max_pending_tasks: 6,
    }
}

#[test]
fn nearest_chunks_are_scheduled_first() {
    let mut manager = ChunkManager::new();
    let mut pending = PendingChunkGenerations::new();
    let center = ChunkPos::new(10, -4);
    let cfg = config();
    let first = schedule_chunk_generations(center, &cfg, &manager, &pending);
    assert_eq!(first.len(), 5);
    assert_eq!(first[0], center);
    for p in &first {
        pending.insert(*p, 1);
    }
    assert_eq!(pending.in_flight(), 5);
    // one task of headroom is left
    let next = schedule_chunk_generations(center, &cfg, &manager, &pending);
    assert_eq!(next.len(), 1);
    assert!(!first.contains(&next[0]));
    promote(&mut pending, &mut manager, center, 42);
    assert!(manager.is_loaded(center) && !pending.is_pending(center));
    assert_eq!((manager.get(center), manager.loaded_count()), (Some(42), 1));
    assert_eq!(manager.iter(), vec![(center, 42)]);
}

#[test]
fn windows_reach_the_edge_of_the_grid() {
    let manager = ChunkManager::new();
    let pending = PendingChunkGenerations::new();
    let corner = ChunkPos::new(i32::MAX - 1, i32::MIN + 1);
    assert_eq!(schedule_chunk_generations(corner, &config(), &manager, &pending).len(), 5);
    // without a budget nothing is looked at
    let idle = StreamingConfig { max_loads_per_frame: 0, ..config() };
    let edge = ChunkPos::new(i32::MAX, i32::MAX);
    assert!(schedule_chunk_generations(edge, &idle, &manager, &pending).is_empty());
}

#[test]
fn the_window_fills_up_and_holds() {
    let mut manager = ChunkManager::new();
    let mut pending = PendingChunkGenerations::new();
    let cfg = StreamingConfig::default();
    let center = ChunkPos::new(-3, 7);
    let mut seen: Vec<ChunkPos> = Vec::new();
    loop {
        let next = schedule_chunk_generations(center, &cfg, &manager, &pending);
        if next.is_empty() {
            break;
        }
        for p in next {
            assert!(!seen.contains(&p), "{p:?} was scheduled twice");
            seen.push(p);
            pending.insert(p, 0);
            promote(&mut pending, &mut manager, p, seen.len() as u64);
        }
    }
    let side = 2 * cfg.load_radius.max(cfg.hlod_radius) as usize + 1;
    assert_eq!(seen.len(), side * side);
    // within the slack of the unload radius nothing goes
    let slack = cfg.unload_radius - cfg.load_radius.max(cfg.hlod_radius);
    let moved = ChunkPos::new(center.x + slack, center.y - slack);
    assert!(unload_distant_chunks(&mut manager, moved, &cfg).is_empty());
    let far = ChunkPos::new(center.x + slack + 1, center.y);
    assert!(!unload_distant_chunks(&mut manager, far, &cfg).is_empty());
}

#[test]
fn distant_chunks_are_released() {
    let mut manager = ChunkManager::default();
    for (i, x) in [0, 3, 9, 5].iter().enumerate() {
        manager.insert(ChunkPos::new(*x, 0), i as u64);
    }
    let cfg = config();
    let center = ChunkPos::new(0, 0);
    let list = manager.iter();
    let mut picked = pick_unloads(&list, center, &cfg);
    picked.truncate(9);
    let gone = unload_distant_chunks(&mut manager, center, &cfg);
    assert_eq!(gone, picked);
    assert_eq!(gone, vec![(ChunkPos::new(9, 0), 2), (ChunkPos::new(5, 0), 3)]);
    assert_eq!(manager.loaded_count(), 2);
    assert_eq!(manager.remove(ChunkPos::new(3, 0)), Some(1));
    assert_eq!(manager.remove(ChunkPos::new(3, 0)), None);

    let mut pending = PendingChunkGenerations::new();
    pending.insert(ChunkPos::new(7, 0), 1);
    pending.insert(ChunkPos::new(1, 0), 2);
    assert_eq!(cancel_distant(&mut pending, center, &cfg), vec![ChunkPos::new(7, 0)]);
    assert_eq!(pending.iter(), vec![(ChunkPos::new(1, 0), 2)]);
    assert_eq!(pending.remove(ChunkPos::new(1, 0)), Some(2));
}

#[test]
fn trees_keep_their_distance() {
    let data = ChunkData::filled(Tile::of(TileKind::Grass));
    let chunk = ChunkPos::new(1, 1);
    let samples = vec![(4, 4), (6, 6), (7, 4), (4, 4), (20, 20)];
    let trees = scatter(chunk, &data, &samples);
    let places: Vec<(i32, i32)> = trees.iter().map(|(t, _)| (t.x - 32, t.y - 32)).collect();
    assert_eq!(places, vec![(4, 4), (7, 4), (20, 20)]);

    let a = poisson_disk_tiles(5, chunk, &data);
    let b = poisson_disk_tiles(5, chunk, &data);
    assert!(!a.is_empty() && a == b);
    assert_ne!(a, poisson_disk_tiles(6, chunk, &data));
    let sea = ChunkData::filled(Tile::of(TileKind::Water));
    assert!(poisson_disk_tiles(5, chunk, &sea).is_empty());
    assert_eq!(WorldSeed::default(), WorldSeed(FALLBACK_WORLD_SEED));
}
