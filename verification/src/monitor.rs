//! The flight recorder: rolling frame-time statistics, spike detection, and which
//! lines a frame writes to the log.

use std::collections::VecDeque;

use vstd::prelude::*;

use crate::ieee::{spec_max, spec_min, Single};

verus! {

/// Rolling frame-time window length (samples) for median / p95.
pub const WINDOW: usize = 120;

/// Minimum samples before the relative (median-based) spike test engages.
pub const SPIKE_WARMUP: usize = 30;

/// Frame-over-frame countable quantities.
#[derive(Clone, Copy, Debug, PartialEq, Eq, Structural)]
pub struct Counts {
    pub entities: i64,
    pub meshes: i64,
    pub chunks: i64,
    pub foliage_tiles: i64,
    pub trees: i64,
    pub rocks: i64,
}

impl Default for Counts {
    fn default() -> (c: Counts)
        ensures
            c == (Counts {
                entities: 0,
                meshes: 0,
                chunks: 0,
                foliage_tiles: 0,
                trees: 0,
                rocks: 0,
            }),
    {
        Counts { entities: 0, meshes: 0, chunks: 0, foliage_tiles: 0, trees: 0, rocks: 0 }
    }
}

impl Counts {
    /// Numbers of things: their differences and sums are in range.
    pub open spec fn counted(self) -> bool {
        &&& 0 <= self.entities <= 0x0fff_ffff_ffff_ffff
        &&& 0 <= self.meshes <= 0x0fff_ffff_ffff_ffff
        &&& 0 <= self.chunks <= 0x0fff_ffff_ffff_ffff
        &&& 0 <= self.foliage_tiles <= 0x0fff_ffff_ffff_ffff
        &&& 0 <= self.trees <= 0x0fff_ffff_ffff_ffff
        &&& 0 <= self.rocks <= 0x0fff_ffff_ffff_ffff
    }

    pub open spec fn minus(self, prev: Counts) -> Counts {
        Counts {
            entities: (self.entities - prev.entities) as i64,
            meshes: (self.meshes - prev.meshes) as i64,
            chunks: (self.chunks - prev.chunks) as i64,
            foliage_tiles: (self.foliage_tiles - prev.foliage_tiles) as i64,
            trees: (self.trees - prev.trees) as i64,
            rocks: (self.rocks - prev.rocks) as i64,
        }
    }

    pub fn delta(self, prev: Counts) -> (d: Counts)
        requires
            self.counted(),
            prev.counted(),
        ensures
            d == self.minus(prev),
    {
        Counts {
            entities: self.entities - prev.entities,
            meshes: self.meshes - prev.meshes,
            chunks: self.chunks - prev.chunks,
            foliage_tiles: self.foliage_tiles - prev.foliage_tiles,
            trees: self.trees - prev.trees,
            rocks: self.rocks - prev.rocks,
        }
    }
}

/// Why a frame was slow.
#[derive(Clone, Copy, Debug, PartialEq, Eq, Structural)]
pub enum Cause {
    Streaming,
    Foliage,
    Despawn,
    HighZoom,
    Physics,
    Unknown,
}

/// The likely cause: the actual work deltas first; many fixed ticks are a symptom
/// of an already-slow frame, so they come last.
pub open spec fn likely_cause(d: Counts, zoom: Single, fixed_ticks: u32) -> Cause {
    if d.chunks >= 8 || d.chunks <= -8 || d.meshes >= 30 || d.meshes <= -30 {
        Cause::Streaming
    } else if d.trees + d.rocks >= 8 || d.meshes >= 12 {
        Cause::Foliage
    } else if d.entities <= -16 {
        Cause::Despawn
    } else if zoom_limit().at_most(zoom) {
        Cause::HighZoom
    } else if fixed_ticks >= 4 {
        Cause::Physics
    } else {
        Cause::Unknown
    }
}

/// The zoom from which rendering is heavy: 70.
pub open spec fn zoom_limit() -> Single {
    Single(0x428c_0000)
}

/// The likely cause of a spike, from the change of the counts, the zoom and the
/// fixed ticks of the frame.
pub fn spike_cause(d: Counts, zoom: Single, fixed_ticks: u32) -> (c: Cause)
    requires
        -0x1fff_ffff_ffff_ffff <= d.trees <= 0x1fff_ffff_ffff_ffff,
        -0x1fff_ffff_ffff_ffff <= d.rocks <= 0x1fff_ffff_ffff_ffff,
    ensures
        c == likely_cause(d, zoom, fixed_ticks),
{
    if d.chunks >= 8 || d.chunks <= -8 || d.meshes >= 30 || d.meshes <= -30 {
        Cause::Streaming
    } else if d.trees + d.rocks >= 8 || d.meshes >= 12 {
        Cause::Foliage
    } else if d.entities <= -16 {
        Cause::Despawn
    } else if Single(0x428c_0000).le(zoom) {
        Cause::HighZoom
    } else if fixed_ticks >= 4 {
        Cause::Physics
    } else {
        Cause::Unknown
    }
}

impl Cause {
    pub fn label(self) -> (s: &'static str)
        ensures
            s@ == (match self {
                Cause::Streaming => "chunk/mesh streaming burst"@,
                Cause::Foliage => "foliage spawn burst"@,
                Cause::Despawn => "despawn burst"@,
                Cause::HighZoom => "high-zoom render load"@,
                Cause::Physics => "physics catch-up (amplifier)"@,
                Cause::Unknown => "unknown (GPU/asset upload?)"@,
            }),
    {
        match self {
            Cause::Streaming => "chunk/mesh streaming burst",
            Cause::Foliage => "foliage spawn burst",
            Cause::Despawn => "despawn burst",
            Cause::HighZoom => "high-zoom render load",
            Cause::Physics => "physics catch-up (amplifier)",
            Cause::Unknown => "unknown (GPU/asset upload?)",
        }
    }
}

/// In ascending order.
pub open spec fn ascending(s: Seq<Single>) -> bool {
    forall|i: int, j: int| 0 <= i <= j < s.len() ==> s[i].rank() <= s[j].rank()
}

/// `s` is `samples` in ascending order.
pub open spec fn is_sorting(s: Seq<Single>, samples: Seq<Single>) -> bool {
    ascending(s) && s.to_multiset() == samples.to_multiset()
}

/// Inserts a sample into a list in ascending order.
fn insert_ascending(list: &mut Vec<Single>, v: Single)
    requires
        ascending(old(list)@),
        !v.nan(),
        forall|i: int| 0 <= i < old(list)@.len() ==> !(#[trigger] old(list)@[i]).nan(),
    ensures
        ascending(final(list)@),
        final(list)@.to_multiset() == old(list)@.to_multiset().insert(v),
        final(list)@.len() == old(list)@.len() + 1,
        forall|i: int| 0 <= i < final(list)@.len() ==> !(#[trigger] final(list)@[i]).nan(),
{
    let ghost before = list@;
    let mut i: usize = list.len();
    while i > 0 && v.lt(list[i - 1])
        invariant
            i <= list@.len(),
            list@ == before,
            !v.nan(),
            forall|k: int| 0 <= k < before.len() ==> !(#[trigger] before[k]).nan(),
            forall|k: int| i <= k < before.len() ==> v.rank() <= (#[trigger] before[k]).rank(),
        decreases i,
    {
        i -= 1;
    }
    list.insert(i, v);
    proof {
        broadcast use vstd::seq_lib::group_to_multiset_ensures;

        let after = list@;
        assert(after =~= before.insert(i as int, v));
        assert forall|a: int, b: int| 0 <= a <= b < after.len() implies after[a].rank()
            <= after[b].rank() by {
            let a0 = if a < i {
                a
            } else {
                a - 1
            };
            let b0 = if b < i {
                b
            } else {
                b - 1
            };
            if a == i && b == i {
            } else if a == i {
                assert(after[b] == before[b0]);
            } else if b == i {
                assert(after[a] == before[a0]);
                assert(before[a0].rank() <= before[i - 1].rank());
            } else {
                assert(after[a] == before[a0] && after[b] == before[b0]);
            }
        }
        assert forall|k: int| 0 <= k < after.len() implies !(#[trigger] after[k]).nan() by {
            if k < i {
                assert(after[k] == before[k]);
            } else if k > i {
                assert(after[k] == before[k - 1]);
            }
        }
    }
}

/// Rolling statistics of the frame times.
#[derive(Clone, Copy, Debug, PartialEq, Eq, Structural)]
pub struct WindowStats {
    pub samples: usize,
    pub median: Single,
    pub p95: Single,
}

/// The recorder's own state.
#[derive(Debug)]
pub struct Monitor {
    pub frame: u64,
    pub times: VecDeque<Single>,
    pub prev: Counts,
    /// Previous-frame movement, for edge-triggered event lines.
    pub prev_moving: bool,
    /// Shortest and longest frame and number of spikes since the last summary.
    pub interval_min: Single,
    pub interval_max: Single,
    pub interval_spikes: u32,
}

/// The window after one more frame time: the oldest goes when it is full.
pub open spec fn windowed(times: Seq<Single>, dt: Single) -> Seq<Single> {
    if times.len() == WINDOW {
        times.skip(1).push(dt)
    } else {
        times.push(dt)
    }
}

pub open spec fn median_index(n: int) -> int {
    n / 2
}

pub open spec fn p95_index(n: int) -> int {
    if n * 95 / 100 < n - 1 {
        n * 95 / 100
    } else {
        n - 1
    }
}

/// What a frame looked like.
#[derive(Clone, Copy, Debug, PartialEq, Eq, Structural)]
pub struct Observation {
    /// Frame time.
    pub dt: Single,
    /// The relative spike limit: a multiple of the rolling median.
    pub relative_limit: Single,
    pub counts: Counts,
    /// Waypoints ahead of the player, who moves while there are any.
    pub waypoints: usize,
    pub zoom: Single,
    /// Fixed ticks since the frame before.
    pub fixed_ticks: u32,
    /// The summary interval has elapsed.
    pub summary_due: bool,
    /// The state interval has elapsed.
    pub state_due: bool,
}

/// The lines a frame writes.
#[derive(Clone, Copy, Debug, PartialEq, Eq, Structural)]
pub struct Report {
    /// Number of the frame, from 1 on.
    pub frame: u64,
    /// The cause, if the frame was a spike.
    pub spike: Option<Cause>,
    pub moving: bool,
    /// Movement started or stopped.
    pub moving_changed: bool,
    pub summary: bool,
    pub state: bool,
    /// Change of each count since the frame before.
    pub delta: Counts,
    /// The interval statistics, this frame included.
    pub interval_min: Single,
    pub interval_max: Single,
    pub interval_spikes: u32,
    /// Something was written, so the log is flushed.
    pub flush: bool,
}

/// The absolute spike limit: 24 milliseconds.
pub open spec fn spike_limit() -> Single {
    Single(0x41c0_0000)
}

/// A frame is a spike if it is slower than the absolute limit, or, once enough
/// samples are behind the median, than the relative one.
pub open spec fn spiked(o: Observation, samples: int) -> bool {
    spike_limit().below(o.dt) || (samples >= SPIKE_WARMUP && o.relative_limit.below(o.dt))
}

/// Infinity, the shortest frame of an empty interval.
pub open spec fn infinity() -> Single {
    Single(0x7f80_0000)
}

impl Monitor {
    pub open spec fn wf(&self) -> bool {
        &&& self.times@.len() <= WINDOW
        &&& forall|i: int| 0 <= i < self.times@.len() ==> !(#[trigger] self.times@[i]).nan()
        &&& self.prev.counted()
    }

    pub fn new() -> (m: Monitor)
        ensures
            m.wf(),
            m.frame == 0,
            m.times@.len() == 0,
            m.prev == (Counts {
                entities: 0,
                meshes: 0,
                chunks: 0,
                foliage_tiles: 0,
                trees: 0,
                rocks: 0,
            }),
            !m.prev_moving,
            m.interval_min == infinity(),
            m.interval_max == Single(0),
            m.interval_spikes == 0,
    {
        Monitor {
            frame: 0,
            times: VecDeque::new(),
            prev: Counts::default(),
            prev_moving: false,
            interval_min: Single(0x7f80_0000),
            interval_max: Single(0),
            interval_spikes: 0,
        }
    }

    /// Takes a frame time into the rolling window; returns the window's median
    /// and 95th percentile.
    pub fn push_sample(&mut self, dt: Single) -> (stats: WindowStats)
        requires
            old(self).wf(),
            !dt.nan(),
        ensures
            final(self).wf(),
            final(self).times@ == windowed(old(self).times@, dt),
            *final(self) == (Monitor { times: final(self).times, ..*old(self) }),
            stats.samples == final(self).times@.len(),
            exists|s: Seq<Single>| #[trigger]
                is_sorting(s, final(self).times@) && stats.median == s[median_index(
                    s.len() as int,
                )] && stats.p95 == s[p95_index(s.len() as int)] && s.len()
                    == final(self).times@.len(),
    {
        if self.times.len() == WINDOW {
            self.times.pop_front();
            assert(self.times@ =~= old(self).times@.skip(1));
        }
        self.times.push_back(dt);
        assert(self.times@ =~= windowed(old(self).times@, dt));
        let n: usize = self.times.len();
        let mut sorted: Vec<Single> = Vec::new();
        let mut i: usize = 0;
        assert(self.times@.take(0) =~= sorted@);
        while i < n
            invariant
                i <= n,
                n == self.times@.len(),
                forall|k: int| 0 <= k < n ==> !(#[trigger] self.times@[k]).nan(),
                sorted@.len() == i,
                ascending(sorted@),
                sorted@.to_multiset() == self.times@.take(i as int).to_multiset(),
                forall|k: int| 0 <= k < sorted@.len() ==> !(#[trigger] sorted@[k]).nan(),
            decreases n - i,
        {
            broadcast use vstd::seq_lib::group_to_multiset_ensures;

            assert(self.times@.take(i + 1) =~= self.times@.take(i as int).push(
                self.times@[i as int],
            ));
            insert_ascending(&mut sorted, self.times[i]);
            i += 1;
        }
        assert(self.times@.take(i as int) =~= self.times@);
        let med: usize = n / 2;
        let p: usize = if n * 95 / 100 < n - 1 {
            n * 95 / 100
        } else {
            n - 1
        };
        assert(is_sorting(sorted@, self.times@));
        WindowStats { samples: n, median: sorted[med], p95: sorted[p] }
    }

    /// Takes in a frame's observations and says which lines to write.
    pub fn record_frame(&mut self, o: Observation) -> (r: Report)
        requires
            old(self).wf(),
            o.counts.counted(),
            old(self).frame < u64::MAX,
            old(self).interval_spikes < u32::MAX,
        ensures
            final(self).wf(),
            final(self).frame == old(self).frame + 1,
            final(self).times@ == old(self).times@,
            final(self).prev == o.counts,
            final(self).prev_moving == (o.waypoints > 0),
            r.delta == o.counts.minus(old(self).prev),
            r.spike == (if spiked(o, old(self).times@.len() as int) {
                Some(likely_cause(r.delta, o.zoom, o.fixed_ticks))
            } else {
                None
            }),
            r.frame == old(self).frame + 1,
            r.moving == (o.waypoints > 0),
            r.moving_changed == (r.moving != old(self).prev_moving),
            r.summary == o.summary_due,
            r.state == (old(self).frame == 0 || o.state_due),
            r.interval_min == spec_min(old(self).interval_min, o.dt),
            r.interval_max == spec_max(old(self).interval_max, o.dt),
            r.interval_spikes == old(self).interval_spikes + (if spiked(o, old(self).times@.len() as int) {
                1int
            } else {
                0
            }),
            r.flush == (r.spike is Some || r.moving_changed || r.summary || r.state),
            (final(self).interval_min, final(self).interval_max, final(self).interval_spikes) == (
            if r.summary {
                (infinity(), Single(0), 0u32)
            } else {
                (r.interval_min, r.interval_max, r.interval_spikes)
            }),
    {
        self.frame = self.frame + 1;
        let spike = Single(0x41c0_0000).lt(o.dt) || (self.times.len() >= SPIKE_WARMUP
            && o.relative_limit.lt(o.dt));
        let low = self.interval_min.min(o.dt);
        let high = self.interval_max.max(o.dt);
        let spikes: u32 = if spike {
            self.interval_spikes + 1
        } else {
            self.interval_spikes
        };
        let delta = o.counts.delta(self.prev);
        let cause = if spike {
            Some(spike_cause(delta, o.zoom, o.fixed_ticks))
        } else {
            None
        };
        let moving = o.waypoints > 0;
        let moving_changed = moving != self.prev_moving;
        let state = self.frame == 1 || o.state_due;
        self.prev = o.counts;
        self.prev_moving = moving;
        if o.summary_due {
            self.interval_min = Single(0x7f80_0000);
            self.interval_max = Single(0);
            self.interval_spikes = 0;
        } else {
            self.interval_min = low;
            self.interval_max = high;
            self.interval_spikes = spikes;
        }
        Report {
            frame: self.frame,
            spike: cause,
            moving,
            moving_changed,
            summary: o.summary_due,
            state,
            delta,
            interval_min: low,
            interval_max: high,
            interval_spikes: spikes,
            flush: spike || moving_changed || o.summary_due || state,
        }
    }
}

/// Fixed ticks are blamed only when nothing else explains the spike.
pub proof fn physics_is_the_last_guess(d: Counts, zoom: Single, fixed_ticks: u32)
    ensures
        likely_cause(d, zoom, fixed_ticks) == Cause::Physics ==> likely_cause(d, zoom, 0)
            == Cause::Unknown,
        likely_cause(d, zoom, 0) != Cause::Unknown ==> likely_cause(d, zoom, fixed_ticks)
            == likely_cause(d, zoom, 0),
{
}

/// When each cause is given: a change of at least 8 chunks or 30 meshes is streaming;
/// else at least 8 new props or 12 new meshes are foliage; else at least 16 entities
/// gone are a despawn; else a zoom of 70 or more; else at least 4 fixed ticks.
pub proof fn causes_follow_the_counts(d: Counts, zoom: Single, fixed_ticks: u32)
    ensures
        ({
            let c = likely_cause(d, zoom, fixed_ticks);
            let streaming = d.chunks >= 8 || d.chunks <= -8 || d.meshes >= 30 || d.meshes <= -30;
            let foliage = d.trees + d.rocks >= 8 || d.meshes >= 12;
            let despawn = d.entities <= -16;
            let zoomed = Single(0x428c_0000).at_most(zoom);
            &&& c == Cause::Streaming <==> streaming
            &&& c == Cause::Foliage <==> !streaming && foliage
            &&& c == Cause::Despawn <==> !streaming && !foliage && despawn
            &&& c == Cause::HighZoom <==> !streaming && !foliage && !despawn && zoomed
            &&& c == Cause::Physics <==> !streaming && !foliage && !despawn && !zoomed
                && fixed_ticks >= 4
            &&& c == Cause::Unknown <==> !streaming && !foliage && !despawn && !zoomed
                && fixed_ticks < 4
        }),
{
}

/// A frame over 24 milliseconds is always a spike; one that is not is a spike only
/// with 30 samples or more, and only over the relative limit.
pub proof fn spikes_are_over_a_limit(o: Observation, samples: int)
    ensures
        Single(0x41c0_0000).below(o.dt) ==> spiked(o, samples),
        samples >= 30 && o.relative_limit.below(o.dt) ==> spiked(o, samples),
        spiked(o, samples) && !Single(0x41c0_0000).below(o.dt) ==> samples >= 30
            && o.relative_limit.below(o.dt),
{
}

/// The window holds the last 120 frame times, the newest last.
pub proof fn windows_keep_the_newest(times: Seq<Single>, dt: Single, i: int)
    requires
        times.len() <= 120,
        0 <= i < times.len(),
    ensures
        windowed(times, dt).len() <= 120,
        windowed(times, dt).last() == dt,
        times.len() < 120 ==> windowed(times, dt).len() == times.len() + 1 && windowed(times, dt)[i]
            == times[i],
        times.len() == 120 && i > 0 ==> windowed(times, dt)[i - 1] == times[i],
        times.len() == 120 ==> windowed(times, dt).len() == 120,
{
}

/// Half of the samples come before the median, and 95 of 100 before the percentile,
/// rounded down; both are samples.
pub proof fn statistics_are_samples(n: int)
    requires
        n > 0,
    ensures
        0 <= median_index(n) < n,
        n - 1 <= 2 * median_index(n) <= n,
        0 <= p95_index(n) < n,
        100 * p95_index(n) <= 95 * n < 100 * (p95_index(n) + 1),
{
}

/// The change of each count is that count's own.
pub proof fn changes_are_told_apart(a: Counts, b: Counts)
    requires
        a.counted(),
        b.counted(),
    ensures
        a.minus(b).entities == a.entities - b.entities,
        a.minus(b).meshes == a.meshes - b.meshes,
        a.minus(b).chunks == a.chunks - b.chunks,
        a.minus(b).foliage_tiles == a.foliage_tiles - b.foliage_tiles,
        a.minus(b).trees == a.trees - b.trees,
        a.minus(b).rocks == a.rocks - b.rocks,
{
}

} // verus!
