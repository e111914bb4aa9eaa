//! The rules of the gameplay camera: its modes, its post-effects, the terrain
//! LOD band, and when the mouse and the keys drive it.

use vstd::prelude::*;

use crate::quality::QualitySettings;
use crate::ieee::{spec_clamp, spec_max, spec_min, Single};

verus! {

#[derive(Clone, Copy, Debug, PartialEq, Eq, Structural)]
pub enum CameraViewMode {
    /// Third-person orbit following the player (normal play).
    Orbit,
    /// Debug free-fly: the camera flies freely, the player idles.
    FreeFly,
}

/// Runtime camera mode.
#[derive(Clone, Copy, Debug, PartialEq, Eq, Structural)]
pub struct CameraMode {
    mode: CameraViewMode,
}

impl Default for CameraMode {
    fn default() -> (m: CameraMode)
        ensures
            m.view_mode() == CameraViewMode::Orbit,
    {
        CameraMode { mode: CameraViewMode::Orbit }
    }
}

impl CameraMode {
    pub closed spec fn view_mode(self) -> CameraViewMode {
        self.mode
    }

    pub fn is_orbit(&self) -> (r: bool)
        ensures
            r == (self.view_mode() == CameraViewMode::Orbit),
    {
        self.mode == CameraViewMode::Orbit
    }

    pub fn is_free_fly(&self) -> (r: bool)
        ensures
            r == (self.view_mode() == CameraViewMode::FreeFly),
    {
        self.mode == CameraViewMode::FreeFly
    }

    pub fn set_free_fly(&mut self, enabled: bool)
        ensures
            final(self).view_mode() == (if enabled {
                CameraViewMode::FreeFly
            } else {
                CameraViewMode::Orbit
            }),
    {
        self.mode = if enabled {
            CameraViewMode::FreeFly
        } else {
            CameraViewMode::Orbit
        };
    }

    pub fn toggle_free_fly(&mut self)
        ensures
            final(self).view_mode() == (if old(self).view_mode() == CameraViewMode::FreeFly {
                CameraViewMode::Orbit
            } else {
                CameraViewMode::FreeFly
            }),
    {
        self.mode = if self.is_free_fly() {
            CameraViewMode::Orbit
        } else {
            CameraViewMode::FreeFly
        };
    }

    pub fn label(&self) -> (s: &'static str)
        ensures
            s@ == (match self.view_mode() {
                CameraViewMode::Orbit => "orbit"@,
                CameraViewMode::FreeFly => "free-fly"@,
            }),
    {
        match self.mode {
            CameraViewMode::Orbit => "orbit",
            CameraViewMode::FreeFly => "free-fly",
        }
    }
}

/// The post-effect components that a camera has.
#[derive(Clone, Copy, Debug, PartialEq, Eq, Structural)]
pub struct CameraFx {
    pub bloom: bool,
    pub depth_prepass: bool,
    pub depth_of_field: bool,
    pub ssao: bool,
    pub normal_prepass: bool,
    pub motion_blur: bool,
    pub motion_vector_prepass: bool,
}

/// What to do with a component.
#[derive(Clone, Copy, Debug, PartialEq, Eq, Structural)]
pub enum Change {
    Keep,
    Insert,
    Remove,
}

/// What to do with each post-effect component of a camera.
#[derive(Clone, Copy, Debug, PartialEq, Eq, Structural)]
pub struct FxPlan {
    pub bloom: Change,
    pub depth_prepass: Change,
    pub depth_of_field: Change,
    pub ssao: Change,
    pub normal_prepass: Change,
    pub motion_blur: Change,
    pub motion_vector_prepass: Change,
    /// Multisampling is off; else it is at its default.
    pub msaa_off: bool,
}

/// The components that the settings call for. The depth prepass is shared, so it
/// is there whenever one of its users is on.
pub open spec fn wanted_fx(q: QualitySettings) -> CameraFx {
    CameraFx {
        bloom: q.bloom_enabled,
        depth_prepass: q.dof_enabled || q.water_enabled || q.ssao_enabled || q.motion_blur_enabled,
        depth_of_field: q.dof_enabled,
        ssao: q.ssao_enabled,
        normal_prepass: q.ssao_enabled,
        motion_blur: q.motion_blur_enabled,
        motion_vector_prepass: q.motion_blur_enabled,
    }
}

/// Inserts what is missing, removes what is not wanted, and touches nothing else.
pub open spec fn change_of(wanted: bool, present: bool) -> Change {
    if wanted == present {
        Change::Keep
    } else if wanted {
        Change::Insert
    } else {
        Change::Remove
    }
}

fn change(wanted: bool, present: bool) -> (c: Change)
    ensures
        c == change_of(wanted, present),
{
    if wanted == present {
        Change::Keep
    } else if wanted {
        Change::Insert
    } else {
        Change::Remove
    }
}

/// What has to change on a camera that has `present`.
pub open spec fn plan_of(q: QualitySettings, present: CameraFx) -> FxPlan {
    let w = wanted_fx(q);
    FxPlan {
        bloom: change_of(w.bloom, present.bloom),
        depth_prepass: change_of(w.depth_prepass, present.depth_prepass),
        depth_of_field: change_of(w.depth_of_field, present.depth_of_field),
        ssao: change_of(w.ssao, present.ssao),
        normal_prepass: change_of(w.normal_prepass, present.normal_prepass),
        motion_blur: change_of(w.motion_blur, present.motion_blur),
        motion_vector_prepass: change_of(w.motion_vector_prepass, present.motion_vector_prepass),
        msaa_off: q.ssao_enabled,
    }
}

/// Whether a component is there after a change.
pub open spec fn after_change(c: Change, present: bool) -> bool {
    match c {
        Change::Keep => present,
        Change::Insert => true,
        Change::Remove => false,
    }
}

/// The components after a plan was carried out.
pub open spec fn carried_out(p: FxPlan, present: CameraFx) -> CameraFx {
    CameraFx {
        bloom: after_change(p.bloom, present.bloom),
        depth_prepass: after_change(p.depth_prepass, present.depth_prepass),
        depth_of_field: after_change(p.depth_of_field, present.depth_of_field),
        ssao: after_change(p.ssao, present.ssao),
        normal_prepass: after_change(p.normal_prepass, present.normal_prepass),
        motion_blur: after_change(p.motion_blur, present.motion_blur),
        motion_vector_prepass: after_change(p.motion_vector_prepass, present.motion_vector_prepass),
    }
}

/// What to add to or strip from the camera so that its post-effects match the
/// settings. A new camera has none of them yet.
pub fn apply_quality_to_camera(quality: &QualitySettings, present: CameraFx) -> (plan: FxPlan)
    ensures
        plan == plan_of(*quality, present),
{
    let need_depth = quality.dof_enabled || quality.water_enabled || quality.ssao_enabled
        || quality.motion_blur_enabled;
    FxPlan {
        bloom: change(quality.bloom_enabled, present.bloom),
        depth_prepass: change(need_depth, present.depth_prepass),
        depth_of_field: change(quality.dof_enabled, present.depth_of_field),
        ssao: change(quality.ssao_enabled, present.ssao),
        normal_prepass: change(quality.ssao_enabled, present.normal_prepass),
        motion_blur: change(quality.motion_blur_enabled, present.motion_blur),
        motion_vector_prepass: change(
            quality.motion_blur_enabled,
            present.motion_vector_prepass,
        ),
        msaa_off: quality.ssao_enabled,
    }
}

/// Whatever the camera had, carrying out the plan gives exactly what the
/// settings call for; the depth prepass stays while anything needs it, and a
/// second plan changes nothing.
pub proof fn plan_reaches_the_settings(q: QualitySettings, present: CameraFx)
    ensures
        carried_out(plan_of(q, present), present) == wanted_fx(q),
        q.dof_enabled || q.water_enabled || q.ssao_enabled || q.motion_blur_enabled ==> carried_out(
            plan_of(q, present),
            present,
        ).depth_prepass,
        q.ssao_enabled ==> plan_of(q, present).msaa_off,
        ({
            let again = plan_of(q, wanted_fx(q));
            &&& carried_out(again, wanted_fx(q)) == wanted_fx(q)
            &&& again.bloom == Change::Keep
            &&& again.depth_prepass == Change::Keep
            &&& again.depth_of_field == Change::Keep
            &&& again.ssao == Change::Keep
            &&& again.normal_prepass == Change::Keep
            &&& again.motion_blur == Change::Keep
            &&& again.motion_vector_prepass == Change::Keep
        }),
{
}

/// Width of each terrain-LOD band: the setting's distance, capped by `cap` (a
/// fraction of the streamed disc), and at least 1.
pub fn lod_band(terrain_lod_distance: Single, cap: Single) -> (band: Single)
    ensures
        band == spec_max(spec_min(terrain_lod_distance, cap), Single(0x3f80_0000)),
{
    terrain_lod_distance.min(cap).max(Single(0x3f80_0000))
}

/// While the cap lies inside the streamed disc, so does the band, so that the
/// first coarse ring is there.
pub proof fn band_stays_inside_disc(terrain_lod_distance: Single, cap: Single, disc: Single)
    requires
        !cap.nan(),
        cap.rank() < disc.rank(),
        0x3f80_0000 < disc.rank(),
    ensures
        spec_max(spec_min(terrain_lod_distance, cap), Single(0x3f80_0000)).rank() < disc.rank(),
{
}

/// The OS cursor is captured only in running play, and freed while Alt is held.
pub fn cursor_is_locked(in_game: bool, running: bool, alt: bool) -> (locked: bool)
    ensures
        locked == (in_game && running && !alt),
{
    in_game && running && !alt
}

/// What drives the view in a frame.
#[derive(Clone, Copy, Debug, PartialEq, Eq, Structural)]
pub enum LookInput {
    /// The mouse turns the orbit rig and the wheel zooms it.
    Orbit,
    /// The mouse turns the flying camera.
    FreeFly,
    /// Nothing: pending motion and wheel events are dropped.
    Suspended,
}

/// Alt suspends mouse-look in both modes.
pub fn look_input(mode: &CameraMode, alt: bool) -> (r: LookInput)
    ensures
        r == (if alt {
            LookInput::Suspended
        } else if mode.view_mode() == CameraViewMode::Orbit {
            LookInput::Orbit
        } else {
            LookInput::FreeFly
        }),
{
    if alt {
        LookInput::Suspended
    } else if mode.is_orbit() {
        LookInput::Orbit
    } else {
        LookInput::FreeFly
    }
}

/// The keys drive the player in orbit mode, and not while Alt is held.
pub fn keys_move_player(mode: &CameraMode, alt: bool) -> (r: bool)
    ensures
        r == (mode.view_mode() == CameraViewMode::Orbit && !alt),
{
    mode.is_orbit() && !alt
}

/// The net of two opposed keys.
pub fn key_axis(positive: bool, negative: bool) -> (v: i32)
    ensures
        v == (if positive == negative {
            0int
        } else if positive {
            1
        } else {
            -1
        }),
{
    if positive == negative {
        0
    } else if positive {
        1
    } else {
        -1
    }
}

/// Whether the editor camera is being dragged after a frame: a drag begins when
/// a navigation button goes down in the viewport, goes on over panels, and ends
/// when no button is held.
pub fn drag_after(dragging: bool, just_pressed: bool, held: bool, over_ui: bool) -> (r: bool)
    ensures
        r == (held && (dragging || (just_pressed && !over_ui))),
{
    held && (dragging || (just_pressed && !over_ui))
}

/// Lowest pitch: -0.5.
pub open spec fn pitch_min() -> Single {
    Single(0xbf00_0000)
}

/// Highest pitch: 1.4.
pub open spec fn pitch_max() -> Single {
    Single(0x3fb3_3333)
}

/// Closest boom distance: 4.
pub open spec fn distance_min() -> Single {
    Single(0x4080_0000)
}

/// Furthest boom distance: 40.
pub open spec fn distance_max() -> Single {
    Single(0x4220_0000)
}

/// Orbit-rig state: the yaw/pitch the mouse drives directly, plus the boom
/// distance that eases toward a scroll-set target.
#[derive(Clone, Copy, Debug, PartialEq, Eq, Structural)]
pub struct CameraRig {
    pub yaw: Single,
    pub pitch: Single,
    /// Eased zoom distance.
    pub distance: Single,
    pub distance_target: Single,
    /// The actual boom length after collision.
    pub boom: Single,
}

impl Default for CameraRig {
    fn default() -> (r: CameraRig)
        ensures
            r == (CameraRig {
                yaw: Single(0),
                pitch: Single(0x3f00_0000),
                distance: Single(0x4140_0000),
                distance_target: Single(0x4140_0000),
                boom: Single(0x4140_0000),
            }),
    {
        CameraRig {
            yaw: Single(0),
            pitch: Single(0x3f00_0000),
            distance: Single(0x4140_0000),
            distance_target: Single(0x4140_0000),
            boom: Single(0x4140_0000),
        }
    }
}

impl CameraRig {
    /// Snap the whole rig to `yaw`/`pitch`/`distance` (and the easing target), so
    /// a load restores a saved view instantly.
    pub fn snap_to(&mut self, yaw: Single, pitch: Single, distance: Single)
        ensures
            final(self).yaw == yaw,
            final(self).pitch == spec_clamp(pitch, pitch_min(), pitch_max()),
            final(self).distance == spec_clamp(distance, distance_min(), distance_max()),
            final(self).distance_target == final(self).distance,
            final(self).boom == final(self).distance,
    {
        self.yaw = yaw;
        self.pitch = pitch.clamp(Single(0xbf00_0000), Single(0x3fb3_3333));
        self.distance = distance.clamp(Single(0x4080_0000), Single(0x4220_0000));
        self.distance_target = self.distance;
        self.boom = self.distance;
    }
}

/// The least of a number and a list.
pub open spec fn least_of(first: Single, rest: Seq<Single>) -> Single
    decreases rest.len(),
{
    if rest.len() == 0 {
        first
    } else {
        spec_min(least_of(first, rest.drop_last()), rest.last())
    }
}

/// How far the boom may extend.
pub open spec fn limit_of(desired: Single, hits: Seq<Single>) -> Single {
    spec_max(least_of(desired, hits), Single(0x3f80_0000))
}

/// Nearest distance the boom may extend: the desired one, or the nearest of the
/// hits (already less the padding), but at least 1.
pub fn boom_limit(desired: Single, hits: &[Single]) -> (limit: Single)
    ensures
        limit == limit_of(desired, hits@),
{
    let mut limit = desired;
    let mut i: usize = 0;
    assert(hits@.take(0) =~= Seq::<Single>::empty());
    while i < hits.len()
        invariant
            i <= hits@.len(),
            limit == least_of(desired, hits@.take(i as int)),
        decreases hits@.len() - i,
    {
        assert(hits@.take(i + 1).drop_last() =~= hits@.take(i as int));
        assert(hits@.take(i + 1).last() == hits@[i as int]);
        limit = limit.min(hits[i]);
        i += 1;
    }
    assert(hits@.take(i as int) =~= hits@);
    limit.max(Single(0x3f80_0000))
}

/// The boom never reaches past what was desired or past a hit, as long as that
/// is at least 1 away, and is never shorter than 1.
pub proof fn boom_stops_short(desired: Single, hits: Seq<Single>, i: int)
    requires
        !desired.nan(),
        forall|k: int| 0 <= k < hits.len() ==> !(#[trigger] hits[k]).nan(),
        0 <= i < hits.len(),
    ensures
        Single(0x3f80_0000).at_most(limit_of(desired, hits)),
        Single(0x3f80_0000).at_most(desired) ==> limit_of(desired, hits).at_most(desired),
        Single(0x3f80_0000).at_most(hits[i]) ==> limit_of(desired, hits).at_most(hits[i]),
{
    lemma_least_is_least(desired, hits, i);
}

proof fn lemma_least_is_least(desired: Single, hits: Seq<Single>, i: int)
    requires
        !desired.nan(),
        forall|k: int| 0 <= k < hits.len() ==> !(#[trigger] hits[k]).nan(),
        0 <= i < hits.len(),
    ensures
        !least_of(desired, hits).nan(),
        least_of(desired, hits).rank() <= desired.rank(),
        least_of(desired, hits).rank() <= hits[i].rank(),
    decreases hits.len(),
{
    let rest = hits.drop_last();
    lemma_least_is_number(desired, rest);
    if i < rest.len() {
        assert forall|k: int| 0 <= k < rest.len() implies !(#[trigger] rest[k]).nan() by {
            assert(rest[k] == hits[k]);
        }
        lemma_least_is_least(desired, rest, i);
        assert(rest[i] == hits[i]);
    }
}

proof fn lemma_least_is_number(desired: Single, hits: Seq<Single>)
    requires
        !desired.nan(),
    ensures
        !least_of(desired, hits).nan(),
        least_of(desired, hits).rank() <= desired.rank(),
    decreases hits.len(),
{
    if hits.len() > 0 {
        lemma_least_is_number(desired, hits.drop_last());
    }
}

/// Whether the boom is drawn in fast (an obstacle is nearer than it is long)
/// rather than let out slowly.
pub fn boom_pulls_in(limit: Single, boom: Single) -> (r: bool)
    ensures
        r == limit.below(boom),
{
    limit.lt(boom)
}

/// Each effect of the camera is on exactly if its setting is, with what it needs: the
/// depth prepass for depth of field, water, ambient occlusion and motion blur, the
/// normal prepass for ambient occlusion and the motion vectors for motion blur.
/// Multisampling is off exactly with ambient occlusion.
pub proof fn effects_follow_their_settings(q: QualitySettings, present: CameraFx)
    ensures
        wanted_fx(q).bloom == q.bloom_enabled,
        wanted_fx(q).depth_of_field == q.dof_enabled,
        wanted_fx(q).ssao == q.ssao_enabled,
        wanted_fx(q).normal_prepass == q.ssao_enabled,
        wanted_fx(q).motion_blur == q.motion_blur_enabled,
        wanted_fx(q).motion_vector_prepass == q.motion_blur_enabled,
        wanted_fx(q).depth_prepass <==> q.dof_enabled || q.water_enabled || q.ssao_enabled
            || q.motion_blur_enabled,
        plan_of(q, present).msaa_off <==> q.ssao_enabled,
{
}

/// What is there and wanted is not touched: only what is missing is inserted, and only
/// what is not wanted is removed.
pub proof fn plans_touch_only_what_differs(wanted: bool, present: bool)
    ensures
        change_of(wanted, present) == Change::Keep <==> wanted == present,
        change_of(wanted, present) == Change::Insert <==> wanted && !present,
        change_of(wanted, present) == Change::Remove <==> !wanted && present,
        after_change(change_of(wanted, present), present) == wanted,
{
}

proof fn lemma_least_is_one_of_them(first: Single, rest: Seq<Single>)
    ensures
        least_of(first, rest) == first || rest.contains(least_of(first, rest)),
    decreases rest.len(),
{
    if rest.len() > 0 {
        let before = rest.drop_last();
        lemma_least_is_one_of_them(first, before);
        let l = least_of(first, before);
        if least_of(first, rest) == rest.last() {
            assert(rest[rest.len() - 1] == least_of(first, rest));
        } else if l != first {
            let k = before.index_of(l);
            assert(rest[k] == l);
        }
    }
}

/// The boom is as long as it can be: its length is the desired one, or that to one of
/// the hits, or 1; without hits it is the desired one, if that is at least 1.
pub proof fn boom_is_as_long_as_it_can_be(desired: Single, hits: Seq<Single>)
    ensures
        ({
            let l = limit_of(desired, hits);
            l == desired || hits.contains(l) || l == Single(0x3f80_0000)
        }),
        hits.len() == 0 && Single(0x3f80_0000).at_most(desired) ==> limit_of(desired, hits)
            == desired,
        hits.len() == 0 && desired.below(Single(0x3f80_0000)) ==> limit_of(desired, hits) == Single(
            0x3f80_0000,
        ),
{
    lemma_least_is_one_of_them(desired, hits);
}

/// The view is limited to a pitch from -0.5 to 1.4 and a distance from 4 to 40, by the
/// bit patterns of those numbers, and these are proper ranges.
pub proof fn view_limits()
    ensures
        pitch_min() == Single(0xbf00_0000) && pitch_max() == Single(0x3fb3_3333),
        distance_min() == Single(0x4080_0000) && distance_max() == Single(0x4220_0000),
        pitch_min().below(Single(0)) && Single(0).below(pitch_max()),
        Single(0).below(distance_min()) && distance_min().below(distance_max()),
{
}

} // verus!
