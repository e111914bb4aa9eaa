//! Whittaker-style biomes: elevation and moisture classified into tile kinds.
//!
//! The noise fields and the sums of thresholds are the caller's; here they are
//! compared, and the chunk is put together.

use vstd::prelude::*;

use crate::ieee::Double;
use crate::tiles::chunk::ChunkData;
use crate::tiles::coords::{LocalTilePos, CHUNK_TILES};
use crate::tiles::stairs::{place_stair_landings, with_stairs};
use crate::tiles::tile::{Tile, TileKind};

verus! {

/// Default world seed.
pub const DEFAULT_WORLD_SEED: u64 = 0xCAFE_F00D_D15E_A5E5;

/// All knobs that drive the biome generator: two noise fields (elevation +
/// moisture) plus the thresholds that split them into tile kinds.
#[derive(Clone, Copy, Debug, PartialEq, Eq, Structural)]
pub struct BiomeParams {
    pub world_seed: u64,
    pub elevation_frequency: Double,
    pub elevation_octaves: usize,
    pub elevation_lacunarity: Double,
    pub elevation_persistence: Double,
    pub elevation_redistribution: Double,
    pub moisture_frequency: Double,
    pub moisture_octaves: usize,
    pub water_level: Double,
    pub beach_band: Double,
    pub mountain_level: Double,
    pub snow_level: Double,
    /// Maximum elevation step assigned to non-water tiles.
    pub max_height_steps: u8,
    /// Step assigned to tiles classified as water.
    pub water_height: i8,
}

/// Zero.
pub open spec fn zero() -> Double {
    Double(0)
}

/// One.
pub open spec fn one() -> Double {
    Double(0x3ff0_0000_0000_0000)
}

/// The moisture below which land is sand: 0.3.
pub open spec fn dry() -> Double {
    Double(0x3fd3_3333_3333_3333)
}

/// The moisture above which land is dirt: 0.7.
pub open spec fn wet() -> Double {
    Double(0x3fe6_6666_6666_6666)
}

/// The documented defaults: elevation frequency 1/256, 5 octaves, lacunarity 2,
/// persistence 0.5, redistribution 1.8; moisture frequency 1/200, 4 octaves;
/// water level 0.35, beach band 0.05, mountain level 0.78, snow level 0.92.
pub open spec fn default_params() -> BiomeParams {
    BiomeParams {
        world_seed: DEFAULT_WORLD_SEED,
        elevation_frequency: Double(0x3f70_0000_0000_0000),
        elevation_octaves: 5,
        elevation_lacunarity: Double(0x4000_0000_0000_0000),
        elevation_persistence: Double(0x3fe0_0000_0000_0000),
        elevation_redistribution: Double(0x3ffc_cccc_cccc_cccd),
        moisture_frequency: Double(0x3f74_7ae1_47ae_147b),
        moisture_octaves: 4,
        water_level: Double(0x3fd6_6666_6666_6666),
        beach_band: Double(0x3fa9_9999_9999_999a),
        mountain_level: Double(0x3fe8_f5c2_8f5c_28f6),
        snow_level: Double(0x3fed_70a3_d70a_3d71),
        max_height_steps: 6,
        water_height: -1i8,
    }
}

impl Default for BiomeParams {
    fn default() -> (p: BiomeParams)
        ensures
            p == default_params(),
    {
        BiomeParams {
            world_seed: DEFAULT_WORLD_SEED,
            elevation_frequency: Double(0x3f70_0000_0000_0000),
            elevation_octaves: 5,
            elevation_lacunarity: Double(0x4000_0000_0000_0000),
            elevation_persistence: Double(0x3fe0_0000_0000_0000),
            elevation_redistribution: Double(0x3ffc_cccc_cccc_cccd),
            moisture_frequency: Double(0x3f74_7ae1_47ae_147b),
            moisture_octaves: 4,
            water_level: Double(0x3fd6_6666_6666_6666),
            beach_band: Double(0x3fa9_9999_9999_999a),
            mountain_level: Double(0x3fe8_f5c2_8f5c_28f6),
            snow_level: Double(0x3fed_70a3_d70a_3d71),
            max_height_steps: 6,
            water_height: -1,
        }
    }
}

/// Finite and above zero.
pub open spec fn positive(v: Double) -> bool {
    v.finite() && zero().below(v)
}

/// From zero to one, both included.
pub open spec fn unit(v: Double) -> bool {
    !v.nan() && !v.below(zero()) && !one().below(v)
}

/// The first thing that is wrong with the parameters. `beach_top` is the sum of
/// the water level and the beach band.
pub open spec fn first_fault(p: BiomeParams, beach_top: Double) -> Option<Seq<char>> {
    if !positive(p.elevation_frequency) {
        Some("elevation_frequency must be finite and > 0"@)
    } else if !positive(p.moisture_frequency) {
        Some("moisture_frequency must be finite and > 0"@)
    } else if p.elevation_octaves == 0 {
        Some("elevation_octaves must be >= 1"@)
    } else if p.moisture_octaves == 0 {
        Some("moisture_octaves must be >= 1"@)
    } else if !(p.elevation_lacunarity.finite() && one().below(p.elevation_lacunarity)) {
        Some("elevation_lacunarity must be finite and > 1"@)
    } else if !(positive(p.elevation_persistence) && p.elevation_persistence.below(one())) {
        Some("elevation_persistence must be in (0, 1)"@)
    } else if !positive(p.elevation_redistribution) {
        Some("elevation_redistribution must be finite and > 0"@)
    } else if !unit(p.water_level) {
        Some("water_level must be in [0, 1]"@)
    } else if !unit(p.mountain_level) {
        Some("mountain_level must be in [0, 1]"@)
    } else if !unit(p.snow_level) {
        Some("snow_level must be in [0, 1]"@)
    } else if !unit(p.beach_band) {
        Some("beach_band must be in [0, 1]"@)
    } else if !beach_top.below(p.mountain_level) {
        Some("water_level + beach_band must be < mountain_level"@)
    } else if !p.mountain_level.below(p.snow_level) {
        Some("mountain_level must be < snow_level"@)
    } else if p.max_height_steps == 0 {
        Some("max_height_steps must be >= 1"@)
    } else {
        None
    }
}

fn is_positive(v: Double) -> (r: bool)
    ensures
        r == positive(v),
{
    v.is_finite() && Double(0).lt(v)
}

fn is_unit(v: Double) -> (r: bool)
    ensures
        r == unit(v),
{
    !v.is_nan() && !v.lt(Double(0)) && !Double(0x3ff0_0000_0000_0000).lt(v)
}

impl BiomeParams {
    /// Reject parameter sets that would produce degenerate or empty biome bands.
    /// `beach_top` is the sum of the water level and the beach band.
    pub fn validate(&self, beach_top: Double) -> (r: Result<(), &'static str>)
        ensures
            match r {
                Ok(_) => first_fault(*self, beach_top) is None,
                Err(e) => first_fault(*self, beach_top) == Some(e@),
            },
    {
        let unity = Double(0x3ff0_0000_0000_0000);
        if !is_positive(self.elevation_frequency) {
            return Err("elevation_frequency must be finite and > 0");
        }
        if !is_positive(self.moisture_frequency) {
            return Err("moisture_frequency must be finite and > 0");
        }
        if self.elevation_octaves == 0 {
            return Err("elevation_octaves must be >= 1");
        }
        if self.moisture_octaves == 0 {
            return Err("moisture_octaves must be >= 1");
        }
        if !(self.elevation_lacunarity.is_finite() && unity.lt(self.elevation_lacunarity)) {
            return Err("elevation_lacunarity must be finite and > 1");
        }
        if !(is_positive(self.elevation_persistence) && self.elevation_persistence.lt(unity)) {
            return Err("elevation_persistence must be in (0, 1)");
        }
        if !is_positive(self.elevation_redistribution) {
            return Err("elevation_redistribution must be finite and > 0");
        }
        if !is_unit(self.water_level) {
            return Err("water_level must be in [0, 1]");
        }
        if !is_unit(self.mountain_level) {
            return Err("mountain_level must be in [0, 1]");
        }
        if !is_unit(self.snow_level) {
            return Err("snow_level must be in [0, 1]");
        }
        if !is_unit(self.beach_band) {
            return Err("beach_band must be in [0, 1]");
        }
        if !beach_top.lt(self.mountain_level) {
            return Err("water_level + beach_band must be < mountain_level");
        }
        if !self.mountain_level.lt(self.snow_level) {
            return Err("mountain_level must be < snow_level");
        }
        if self.max_height_steps == 0 {
            return Err("max_height_steps must be >= 1");
        }
        Ok(())
    }
}

/// The kind of a tile: the elevation thresholds bottom-up, then the mid-band by
/// moisture.
pub open spec fn biome(e: Double, m: Double, p: BiomeParams, beach_top: Double) -> TileKind {
    if e.below(p.water_level) {
        TileKind::Water
    } else if e.below(beach_top) {
        TileKind::Sand
    } else if p.snow_level.below(e) {
        TileKind::Snow
    } else if p.mountain_level.below(e) {
        TileKind::Stone
    } else if m.below(dry()) {
        TileKind::Sand
    } else if wet().below(m) {
        TileKind::Dirt
    } else {
        TileKind::Grass
    }
}

/// Walk the elevation thresholds bottom-up, then disambiguate the mid-band by
/// moisture.
pub fn classify_biome(e: Double, m: Double, p: &BiomeParams, beach_top: Double) -> (k: TileKind)
    ensures
        k == biome(e, m, *p, beach_top),
{
    if e.lt(p.water_level) {
        TileKind::Water
    } else if e.lt(beach_top) {
        TileKind::Sand
    } else if p.snow_level.lt(e) {
        TileKind::Snow
    } else if p.mountain_level.lt(e) {
        TileKind::Stone
    } else if m.lt(Double(0x3fd3_3333_3333_3333)) {
        TileKind::Sand
    } else if Double(0x3fe6_6666_6666_6666).lt(m) {
        TileKind::Dirt
    } else {
        TileKind::Grass
    }
}

/// The height step of a tile: the water height under the water level, else
/// `steps` within `0..=max_height_steps`.
pub open spec fn height_of(e: Double, steps: int, p: BiomeParams) -> int {
    if e.below(p.water_level) {
        p.water_height as int
    } else if steps < 0 {
        0
    } else if steps > p.max_height_steps && p.max_height_steps <= 127 {
        p.max_height_steps as int
    } else if steps > 127 {
        127
    } else {
        steps
    }
}

/// The discrete height step of a tile of elevation `e`, which lies `steps` whole
/// steps above the water level. Heights stop at 127.
pub fn height_for(e: Double, steps: i64, p: &BiomeParams) -> (h: i8)
    ensures
        h == height_of(e, steps as int, *p),
{
    if e.lt(p.water_level) {
        return p.water_height;
    }
    let max: i64 = if p.max_height_steps > 127 {
        127
    } else {
        p.max_height_steps as i64
    };
    let clamped: i64 = if steps < 0 {
        0
    } else if steps > max {
        max
    } else {
        steps
    };
    clamped as i8
}

/// Higher ground never has a lower step, and with a recessed water height no
/// land lies below the water.
pub proof fn heights_are_monotonic(a: Double, b: Double, m: int, n: int, p: BiomeParams)
    requires
        !a.nan(),
        !b.nan(),
        a.rank() <= b.rank(),
        m <= n,
        p.water_height <= 0,
    ensures
        height_of(a, m, p) <= height_of(b, n, p),
        !b.below(p.water_level) ==> 0 <= height_of(b, n, p) <= p.max_height_steps,
{
}

/// One sample of the noise fields.
#[derive(Clone, Copy, Debug, PartialEq, Eq, Structural)]
pub struct TileSample {
    pub elevation: Double,
    pub moisture: Double,
    /// Whole height steps above the water level.
    pub steps: i64,
}

/// The tile that a sample gives.
pub open spec fn sampled(s: TileSample, p: BiomeParams, beach_top: Double) -> Tile {
    Tile {
        kind: biome(s.elevation, s.moisture, p, beach_top),
        height: height_of(s.elevation, s.steps as int, p) as i8,
    }
}

pub open spec fn sampled_all(samples: Seq<TileSample>, p: BiomeParams, beach_top: Double) -> Seq<
    Tile,
> {
    samples.map_values(|s: TileSample| sampled(s, p, beach_top))
}

/// The chunk of a full set of samples, in row-major order.
pub fn build_chunk(samples: &[TileSample], p: &BiomeParams, beach_top: Double) -> (data: ChunkData)
    requires
        samples@.len() == CHUNK_TILES,
    ensures
        data.wf(),
        data@ == sampled_all(samples@, *p, beach_top),
{
    let mut data = ChunkData::default();
    let mut i: usize = 0;
    while i < CHUNK_TILES
        invariant
            i <= CHUNK_TILES,
            samples@.len() == CHUNK_TILES,
            data.wf(),
            forall|k: int| 0 <= k < i ==> #[trigger] data@[k] == sampled(samples@[k], *p, beach_top),
        decreases CHUNK_TILES - i,
    {
        let s = samples[i];
        let kind = classify_biome(s.elevation, s.moisture, p, beach_top);
        let height: i8 = height_for(s.elevation, s.steps, p);
        data.set(LocalTilePos::from_index(i), Tile { kind, height });
        i += 1;
    }
    assert(data@ =~= sampled_all(samples@, *p, beach_top));
    data
}

/// A generated chunk: its biomes, then the stair pass. `stair_seed` seeds the
/// chunk's stair stream.
pub fn generate_chunk(
    samples: &[TileSample],
    p: &BiomeParams,
    beach_top: Double,
    stair_seed: u64,
) -> (data: ChunkData)
    requires
        samples@.len() == CHUNK_TILES,
    ensures
        data.wf(),
        data@ == with_stairs(sampled_all(samples@, *p, beach_top), stair_seed),
{
    let mut data = build_chunk(samples, p, beach_top);
    place_stair_landings(&mut data, stair_seed);
    data
}

/// Valid parameters swallow no biome: right at the mountain level the moisture
/// decides, and right at the snow level there is stone.
pub proof fn valid_params_keep_every_band(p: BiomeParams, beach_top: Double, m: Double)
    requires
        first_fault(p, beach_top) is None,
        !beach_top.below(p.water_level),
    ensures
        biome(p.mountain_level, m, p, beach_top) != TileKind::Stone,
        biome(p.mountain_level, m, p, beach_top) != TileKind::Snow,
        biome(p.mountain_level, m, p, beach_top) != TileKind::Water,
        biome(p.snow_level, m, p, beach_top) == TileKind::Stone,
        p.water_level.rank() <= beach_top.rank() < p.mountain_level.rank()
            < p.snow_level.rank(),
{
}

/// A tile is water exactly when its elevation is below the water level, whatever the
/// moisture.
pub proof fn water_is_told_by_elevation(e: Double, m: Double, p: BiomeParams, beach_top: Double)
    requires
        !e.nan() && !p.water_level.nan(),
    ensures
        biome(e, m, p, beach_top) == TileKind::Water <==> e.rank() < p.water_level.rank(),
{
}

/// With valid parameters the bands follow each other by elevation: water, a sand
/// beach, land by moisture up to the mountain level, stone up to the snow level, and
/// snow. Only on land does the moisture decide: sand below 0.3, dirt above 0.7, and
/// grass in between.
pub proof fn bands_follow_each_other(e: Double, m: Double, p: BiomeParams, beach_top: Double)
    requires
        first_fault(p, beach_top) is None,
        !beach_top.below(p.water_level),
        !e.nan(),
        !m.nan(),
    ensures
        ({
            let k = biome(e, m, p, beach_top);
            let r = e.rank();
            &&& r < p.water_level.rank() <==> k == TileKind::Water
            &&& p.water_level.rank() <= r < beach_top.rank() ==> k == TileKind::Sand
            &&& p.mountain_level.rank() < r <= p.snow_level.rank() <==> k == TileKind::Stone
            &&& p.snow_level.rank() < r <==> k == TileKind::Snow
            &&& beach_top.rank() <= r <= p.mountain_level.rank() ==> {
                // 0.3 and 0.7
                &&& k == TileKind::Sand <==> m.rank() < 0x3fd3_3333_3333_3333
                &&& k == TileKind::Dirt <==> m.rank() > 0x3fe6_6666_6666_6666
                &&& k == TileKind::Grass <==> 0x3fd3_3333_3333_3333 <= m.rank()
                    <= 0x3fe6_6666_6666_6666
            }
            &&& k != TileKind::Stairs
        }),
{
}

/// The height of a tile: under the water level the configured water height, whatever
/// the steps; on land the steps, but at least 0 and at most the smaller of the
/// configured number of steps and 127.
pub proof fn heights_follow_the_steps(e: Double, steps: int, p: BiomeParams)
    requires
        !e.nan() && !p.water_level.nan(),
    ensures
        ({
            let h = height_of(e, steps, p);
            &&& e.rank() < p.water_level.rank() ==> h == p.water_height
            &&& e.rank() >= p.water_level.rank() ==> {
                &&& 0 <= h <= 127
                &&& h <= p.max_height_steps
                &&& steps <= 0 ==> h == 0
                &&& 0 <= steps <= p.max_height_steps && steps <= 127 ==> h == steps
                &&& steps >= p.max_height_steps && p.max_height_steps <= 127 ==> h
                    == p.max_height_steps
                &&& steps >= 127 && p.max_height_steps >= 127 ==> h == 127
            }
        }),
{
}

/// Parameters are valid exactly when the frequencies and the redistribution are
/// finite and above 0, there are octaves and height steps, the lacunarity is finite
/// and above 1, the persistence is between 0 and 1, the levels and the beach band are
/// from 0 to 1, and the bands ascend.
pub proof fn valid_parameters(p: BiomeParams, beach_top: Double)
    ensures
        first_fault(p, beach_top) is None <==> {
            &&& above_zero(p.elevation_frequency) && above_zero(p.moisture_frequency)
            &&& above_zero(p.elevation_redistribution)
            &&& p.elevation_octaves >= 1 && p.moisture_octaves >= 1
            &&& p.max_height_steps >= 1
            &&& above_zero(p.elevation_lacunarity) && p.elevation_lacunarity.rank()
                > 0x3ff0_0000_0000_0000
            &&& above_zero(p.elevation_persistence) && p.elevation_persistence.rank()
                < 0x3ff0_0000_0000_0000
            &&& from_zero_to_one(p.water_level) && from_zero_to_one(p.mountain_level)
            &&& from_zero_to_one(p.snow_level) && from_zero_to_one(p.beach_band)
            &&& !beach_top.nan() && beach_top.rank() < p.mountain_level.rank()
                < p.snow_level.rank()
        },
{
}

/// A finite number above zero, by its place on the number line.
pub open spec fn above_zero(v: Double) -> bool {
    v.rank() > 0 && v.rank() < 0x7ff0_0000_0000_0000
}

/// A number from zero to one, by its place on the number line.
pub open spec fn from_zero_to_one(v: Double) -> bool {
    !v.nan() && 0 <= v.rank() <= 0x3ff0_0000_0000_0000
}

/// A generated chunk has, tile by tile, the biome and the height of its sample, but
/// where the stair pass put a landing on land that can be walked on.
pub proof fn chunks_follow_their_samples(
    samples: Seq<TileSample>,
    p: BiomeParams,
    beach_top: Double,
    stair_seed: u64,
    i: int,
)
    requires
        samples.len() == CHUNK_TILES,
        0 <= i < CHUNK_TILES,
    ensures
        ({
            let t = with_stairs(sampled_all(samples, p, beach_top), stair_seed)[i];
            let s = samples[i];
            let kind = biome(s.elevation, s.moisture, p, beach_top);
            t.kind == TileKind::Stairs || (t.kind == kind && t.height == height_of(
                s.elevation,
                s.steps as int,
                p,
            ))
        }),
        samples[i].elevation.below(p.water_level) ==> with_stairs(
            sampled_all(samples, p, beach_top),
            stair_seed,
        )[i].kind == TileKind::Water,
{
    let tiles = sampled_all(samples, p, beach_top);
    assert(tiles[i] == sampled(samples[i], p, beach_top));
}

/// The first fault is the one named: each check fails only after those before it
/// passed, so the message says what to mend first.
pub proof fn faults_are_named(p: BiomeParams, beach_top: Double)
    ensures
        !above_zero(p.elevation_frequency) ==> first_fault(p, beach_top) == Some(
            "elevation_frequency must be finite and > 0"@,
        ),
        above_zero(p.elevation_frequency) && !above_zero(p.moisture_frequency) ==> first_fault(
            p,
            beach_top,
        ) == Some("moisture_frequency must be finite and > 0"@),
        above_zero(p.elevation_frequency) && above_zero(p.moisture_frequency) ==> {
            &&& p.elevation_octaves == 0 ==> first_fault(p, beach_top) == Some(
                "elevation_octaves must be >= 1"@,
            )
            &&& p.elevation_octaves > 0 && p.moisture_octaves == 0 ==> first_fault(p, beach_top)
                == Some("moisture_octaves must be >= 1"@)
        },
        first_fault(p, beach_top) is Some && first_fault(
            BiomeParams { max_height_steps: 1, ..p },
            beach_top,
        ) is None ==> first_fault(p, beach_top) == Some("max_height_steps must be >= 1"@),
{
}

/// The documented defaults are what they say, and are valid with their own beach.
pub proof fn defaults_are_valid(beach_top: Double)
    requires
        // 0.4, as the sum comes out
        beach_top.0 == 0x3fd9_9999_9999_9999 || beach_top.0 == 0x3fd9_9999_9999_999a,
    ensures
        first_fault(default_params(), beach_top) is None,
        default_params().water_level.below(beach_top),
        default_params().max_height_steps == 6,
        default_params().water_height == -1,
        default_params().elevation_octaves == 5,
        default_params().moisture_octaves == 4,
{
}

/// The documented thresholds, by the bit patterns of 0.35, 0.05, 0.78 and 0.92, and the
/// documented noise: frequencies of a 256th and a 200th, a lacunarity of 2, a
/// persistence of a half and a redistribution of 1.8.
pub proof fn defaults_are_documented()
    ensures
        default_params().water_level.0 == 0x3fd6_6666_6666_6666,
        default_params().beach_band.0 == 0x3fa9_9999_9999_999a,
        default_params().mountain_level.0 == 0x3fe8_f5c2_8f5c_28f6,
        default_params().snow_level.0 == 0x3fed_70a3_d70a_3d71,
        default_params().elevation_frequency.0 == 0x3f70_0000_0000_0000,
        default_params().moisture_frequency.0 == 0x3f74_7ae1_47ae_147b,
        default_params().elevation_lacunarity.0 == 0x4000_0000_0000_0000,
        default_params().elevation_persistence.0 == 0x3fe0_0000_0000_0000,
        default_params().elevation_redistribution.0 == 0x3ffc_cccc_cccc_cccd,
        default_params().world_seed == 0xCAFE_F00D_D15E_A5E5,
{
}

} // verus!
