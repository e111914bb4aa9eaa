//! Visual and streaming quality: the settings, the presets and the toggles.

use vstd::prelude::*;

use crate::ieee::Single;

verus! {

/// Visual / streaming knobs.
#[derive(Clone, Copy, Debug, PartialEq, Eq, Structural)]
pub struct QualitySettings {
    pub render_distance_chunks: u32,
    /// World-space radius around the player within which dense grass spawns.
    pub grass_radius_world: Single,
    pub foliage_enabled: bool,
    pub dof_enabled: bool,
    pub bloom_enabled: bool,
    /// Screen-space ambient occlusion toggle for the camera.
    pub ssao_enabled: bool,
    /// Per-object / camera motion blur toggle for the camera.
    pub motion_blur_enabled: bool,
    pub water_enabled: bool,
    pub water_amplitude: Single,
    /// Maximum foliage tile-ring radius, in tiles.
    pub foliage_ring_max: i32,
    /// World-space distance that sets the width of each terrain LOD band.
    pub terrain_lod_distance: Single,
}

/// The built-in settings: high quality, with a grass radius of 60, a water
/// amplitude of 0.45 and a terrain LOD distance of 165.
pub open spec fn default_settings() -> QualitySettings {
    QualitySettings {
        render_distance_chunks: 10,
        grass_radius_world: Single(0x4270_0000),
        foliage_enabled: true,
        dof_enabled: true,
        bloom_enabled: true,
        ssao_enabled: true,
        motion_blur_enabled: true,
        water_enabled: true,
        water_amplitude: Single(0x3ee6_6666),
        foliage_ring_max: 9,
        terrain_lod_distance: Single(0x4325_0000),
    }
}

impl Default for QualitySettings {
    fn default() -> (q: QualitySettings)
        ensures
            q == default_settings(),
    {
        QualitySettings {
            render_distance_chunks: 10,
            grass_radius_world: Single(0x4270_0000),
            foliage_enabled: true,
            dof_enabled: true,
            bloom_enabled: true,
            ssao_enabled: true,
            motion_blur_enabled: true,
            water_enabled: true,
            water_amplitude: Single(0x3ee6_6666),
            foliage_ring_max: 9,
            terrain_lod_distance: Single(0x4325_0000),
        }
    }
}

/// User-facing graphics tiers for the settings menu.
#[derive(Clone, Copy, Debug, PartialEq, Eq, Structural)]
pub enum QualityPreset {
    Potato,
    Low,
    Medium,
    High,
}

/// The settings after a preset was applied: its own knobs, with the water plane
/// on and the render distance as it was.
pub open spec fn with_preset(preset: QualityPreset, q: QualitySettings) -> QualitySettings {
    match preset {
        QualityPreset::Potato => QualitySettings {
            render_distance_chunks: q.render_distance_chunks,
            grass_radius_world: Single(0),
            foliage_enabled: false,
            dof_enabled: false,
            bloom_enabled: false,
            ssao_enabled: false,
            motion_blur_enabled: false,
            water_enabled: true,
            water_amplitude: Single(0),
            foliage_ring_max: 4,
            terrain_lod_distance: Single(0x42b4_0000),
        },
        QualityPreset::Low => QualitySettings {
            render_distance_chunks: q.render_distance_chunks,
            grass_radius_world: Single(0x41c0_0000),
            foliage_enabled: true,
            dof_enabled: false,
            bloom_enabled: true,
            ssao_enabled: false,
            motion_blur_enabled: false,
            water_enabled: true,
            water_amplitude: Single(0x3e80_0000),
            foliage_ring_max: 6,
            terrain_lod_distance: Single(0x42f0_0000),
        },
        QualityPreset::Medium => QualitySettings {
            render_distance_chunks: q.render_distance_chunks,
            grass_radius_world: Single(0x4228_0000),
            foliage_enabled: true,
            dof_enabled: true,
            bloom_enabled: true,
            ssao_enabled: true,
            motion_blur_enabled: false,
            water_enabled: true,
            water_amplitude: Single(0x3eb3_3333),
            foliage_ring_max: 8,
            terrain_lod_distance: Single(0x4316_0000),
        },
        QualityPreset::High => QualitySettings {
            render_distance_chunks: q.render_distance_chunks,
            ..default_settings()
        },
    }
}

impl QualityPreset {
    /// The four presets in display order (lowest to highest).
    pub fn all() -> (v: [QualityPreset; 4])
        ensures
            v@ == seq![
                QualityPreset::Potato,
                QualityPreset::Low,
                QualityPreset::Medium,
                QualityPreset::High,
            ],
    {
        let v = [
            QualityPreset::Potato,
            QualityPreset::Low,
            QualityPreset::Medium,
            QualityPreset::High,
        ];
        assert(v@ =~= seq![
            QualityPreset::Potato,
            QualityPreset::Low,
            QualityPreset::Medium,
            QualityPreset::High,
        ]);
        v
    }

    /// Short label for a settings button.
    pub fn label(self) -> (s: &'static str)
        ensures
            s@ == (match self {
                QualityPreset::Potato => "Potato"@,
                QualityPreset::Low => "Low"@,
                QualityPreset::Medium => "Medium"@,
                QualityPreset::High => "High"@,
            }),
    {
        match self {
            QualityPreset::Potato => "Potato",
            QualityPreset::Low => "Low",
            QualityPreset::Medium => "Medium",
            QualityPreset::High => "High",
        }
    }

    /// Apply this preset's visual knobs onto `q`, leaving the render distance
    /// (which takes a restart) untouched.
    pub fn apply(self, q: &mut QualitySettings)
        ensures
            *final(q) == with_preset(self, *old(q)),
    {
        q.water_enabled = true;
        match self {
            QualityPreset::Potato => {
                q.foliage_enabled = false;
                q.grass_radius_world = Single(0);
                q.dof_enabled = false;
                q.bloom_enabled = false;
                q.ssao_enabled = false;
                q.motion_blur_enabled = false;
                q.water_amplitude = Single(0);
                q.foliage_ring_max = 4;
                q.terrain_lod_distance = Single(0x42b4_0000);
            },
            QualityPreset::Low => {
                q.foliage_enabled = true;
                q.grass_radius_world = Single(0x41c0_0000);
                q.dof_enabled = false;
                q.bloom_enabled = true;
                q.ssao_enabled = false;
                q.motion_blur_enabled = false;
                q.water_amplitude = Single(0x3e80_0000);
                q.foliage_ring_max = 6;
                q.terrain_lod_distance = Single(0x42f0_0000);
            },
            QualityPreset::Medium => {
                q.foliage_enabled = true;
                q.grass_radius_world = Single(0x4228_0000);
                q.dof_enabled = true;
                q.bloom_enabled = true;
                q.ssao_enabled = true;
                q.motion_blur_enabled = false;
                q.water_amplitude = Single(0x3eb3_3333);
                q.foliage_ring_max = 8;
                q.terrain_lod_distance = Single(0x4316_0000);
            },
            QualityPreset::High => {
                q.foliage_enabled = true;
                q.grass_radius_world = Single(0x4270_0000);
                q.dof_enabled = true;
                q.bloom_enabled = true;
                q.ssao_enabled = true;
                q.motion_blur_enabled = true;
                q.water_amplitude = Single(0x3ee6_6666);
                q.foliage_ring_max = 9;
                q.terrain_lod_distance = Single(0x4325_0000);
            },
        }
    }
}

/// A live-toggleable graphics setting in the settings menu.
#[derive(Clone, Copy, Debug, PartialEq, Eq, Structural)]
pub enum Setting {
    Bloom,
    Ssao,
    MotionBlur,
    Dof,
    Foliage,
    Vsync,
}

/// Whether a setting is on.
pub open spec fn setting_on(setting: Setting, q: QualitySettings, vsync: bool) -> bool {
    match setting {
        Setting::Bloom => q.bloom_enabled,
        Setting::Ssao => q.ssao_enabled,
        Setting::MotionBlur => q.motion_blur_enabled,
        Setting::Dof => q.dof_enabled,
        Setting::Foliage => q.foliage_enabled,
        Setting::Vsync => vsync,
    }
}

/// The settings after a toggle was flipped.
pub open spec fn toggled(setting: Setting, q: QualitySettings) -> QualitySettings {
    match setting {
        Setting::Bloom => QualitySettings { bloom_enabled: !q.bloom_enabled, ..q },
        Setting::Ssao => QualitySettings { ssao_enabled: !q.ssao_enabled, ..q },
        Setting::MotionBlur => QualitySettings {
            motion_blur_enabled: !q.motion_blur_enabled,
            ..q
        },
        Setting::Dof => QualitySettings { dof_enabled: !q.dof_enabled, ..q },
        Setting::Foliage => QualitySettings { foliage_enabled: !q.foliage_enabled, ..q },
        Setting::Vsync => q,
    }
}

impl Setting {
    /// Current on/off state (for the green "active" button tint).
    pub fn is_on(self, q: &QualitySettings, vsync_on: bool) -> (r: bool)
        ensures
            r == setting_on(self, *q, vsync_on),
    {
        match self {
            Setting::Bloom => q.bloom_enabled,
            Setting::Ssao => q.ssao_enabled,
            Setting::MotionBlur => q.motion_blur_enabled,
            Setting::Dof => q.dof_enabled,
            Setting::Foliage => q.foliage_enabled,
            Setting::Vsync => vsync_on,
        }
    }

    pub fn label(self) -> (s: &'static str)
        ensures
            s@ == (match self {
                Setting::Bloom => "Bloom"@,
                Setting::Ssao => "SSAO"@,
                Setting::MotionBlur => "Motion Blur"@,
                Setting::Dof => "Depth of Field"@,
                Setting::Foliage => "Foliage"@,
                Setting::Vsync => "VSync"@,
            }),
    {
        match self {
            Setting::Bloom => "Bloom",
            Setting::Ssao => "SSAO",
            Setting::MotionBlur => "Motion Blur",
            Setting::Dof => "Depth of Field",
            Setting::Foliage => "Foliage",
            Setting::Vsync => "VSync",
        }
    }
}

/// How frames are presented.
#[derive(Clone, Copy, Debug, PartialEq, Eq, Structural)]
pub enum PresentMode {
    AutoVsync,
    AutoNoVsync,
    Fifo,
    FifoRelaxed,
    Immediate,
    Mailbox,
}

/// The modes that wait for the display.
pub open spec fn is_vsync(mode: PresentMode) -> bool {
    mode == PresentMode::AutoVsync || mode == PresentMode::Fifo
}

pub fn present_mode_is_vsync(mode: PresentMode) -> (r: bool)
    ensures
        r == is_vsync(mode),
{
    matches!(mode, PresentMode::AutoVsync | PresentMode::Fifo)
}

pub fn toggle_present_mode(mode: PresentMode) -> (next: PresentMode)
    ensures
        next == (if is_vsync(mode) {
            PresentMode::AutoNoVsync
        } else {
            PresentMode::AutoVsync
        }),
{
    match mode {
        PresentMode::AutoVsync | PresentMode::Fifo => PresentMode::AutoNoVsync,
        _ => PresentMode::AutoVsync,
    }
}

/// Flip a graphics toggle. VSync is the window's present mode; without a window
/// it does nothing.
pub fn apply_toggle(setting: Setting, quality: &mut QualitySettings, mode: &mut Option<PresentMode>)
    ensures
        *final(quality) == toggled(setting, *old(quality)),
        *final(mode) == (match *old(mode) {
            Some(m) if setting == Setting::Vsync => Some(
                if is_vsync(m) {
                    PresentMode::AutoNoVsync
                } else {
                    PresentMode::AutoVsync
                },
            ),
            _ => *old(mode),
        }),
{
    match setting {
        Setting::Bloom => {
            quality.bloom_enabled = !quality.bloom_enabled;
        },
        Setting::Ssao => {
            quality.ssao_enabled = !quality.ssao_enabled;
        },
        Setting::MotionBlur => {
            quality.motion_blur_enabled = !quality.motion_blur_enabled;
        },
        Setting::Dof => {
            quality.dof_enabled = !quality.dof_enabled;
        },
        Setting::Foliage => {
            quality.foliage_enabled = !quality.foliage_enabled;
        },
        Setting::Vsync => {
            if let Some(m) = *mode {
                *mode = Some(toggle_present_mode(m));
            }
        },
    }
}

/// A preset keeps the render distance, leaves the water plane on, and makes the
/// settings before it not matter otherwise; the high preset gives the defaults.
pub proof fn presets_are_complete(preset: QualityPreset, a: QualitySettings, b: QualitySettings)
    ensures
        with_preset(preset, a).render_distance_chunks == a.render_distance_chunks,
        with_preset(preset, a).water_enabled,
        a.render_distance_chunks == b.render_distance_chunks ==> with_preset(preset, a)
            == with_preset(preset, b),
        with_preset(QualityPreset::High, default_settings()) == default_settings(),
{
}

/// A toggle flips what it shows and nothing else, and a second one undoes it.
pub proof fn toggling_twice_is_nothing(setting: Setting, other: Setting, q: QualitySettings)
    ensures
        toggled(setting, toggled(setting, q)) == q,
        setting != Setting::Vsync ==> setting_on(setting, toggled(setting, q), true)
            != setting_on(setting, q, true),
        other != setting ==> setting_on(other, toggled(setting, q), true) == setting_on(
            other,
            q,
            true,
        ),
{
}

/// Higher presets never have less grass, less of a foliage ring or a nearer
/// terrain LOD, and never turn off what a lower one has on.
pub proof fn presets_ascend(q: QualitySettings)
    ensures
        ({
            let p = with_preset(QualityPreset::Potato, q);
            let l = with_preset(QualityPreset::Low, q);
            let m = with_preset(QualityPreset::Medium, q);
            let h = with_preset(QualityPreset::High, q);
            &&& no_lower(p, l) && no_lower(l, m) && no_lower(m, h)
        }),
{
}

pub open spec fn no_lower(a: QualitySettings, b: QualitySettings) -> bool {
    &&& a.grass_radius_world.rank() <= b.grass_radius_world.rank()
    &&& a.water_amplitude.rank() <= b.water_amplitude.rank()
    &&& a.terrain_lod_distance.rank() <= b.terrain_lod_distance.rank()
    &&& a.foliage_ring_max <= b.foliage_ring_max
    &&& a.foliage_enabled ==> b.foliage_enabled
    &&& a.dof_enabled ==> b.dof_enabled
    &&& a.bloom_enabled ==> b.bloom_enabled
    &&& a.ssao_enabled ==> b.ssao_enabled
    &&& a.motion_blur_enabled ==> b.motion_blur_enabled
}

/// What each preset turns on: the lowest nothing but the water plane, the next foliage
/// and bloom, the third also depth of field and ambient occlusion, and the highest
/// also motion blur. Their foliage rings are 4, 6, 8 and 9 tiles wide.
pub proof fn presets_turn_on_more_and_more(q: QualitySettings)
    ensures
        ({
            let p = with_preset(QualityPreset::Potato, q);
            &&& !p.foliage_enabled && !p.bloom_enabled && !p.dof_enabled && !p.ssao_enabled
            &&& !p.motion_blur_enabled && p.foliage_ring_max == 4
            &&& p.grass_radius_world == Single(0) && p.water_amplitude == Single(0)
            // 90
            &&& p.terrain_lod_distance == Single(0x42b4_0000)
        }),
        ({
            let l = with_preset(QualityPreset::Low, q);
            &&& l.foliage_enabled && l.bloom_enabled && !l.dof_enabled && !l.ssao_enabled
            &&& !l.motion_blur_enabled && l.foliage_ring_max == 6
            // 24, a quarter and 120
            &&& l.grass_radius_world == Single(0x41c0_0000)
            &&& l.water_amplitude == Single(0x3e80_0000)
            &&& l.terrain_lod_distance == Single(0x42f0_0000)
        }),
        ({
            let m = with_preset(QualityPreset::Medium, q);
            &&& m.foliage_enabled && m.bloom_enabled && m.dof_enabled && m.ssao_enabled
            &&& !m.motion_blur_enabled && m.foliage_ring_max == 8
            // 42 and 150
            &&& m.grass_radius_world == Single(0x4228_0000)
            &&& m.water_amplitude == Single(0x3eb3_3333)
            &&& m.terrain_lod_distance == Single(0x4316_0000)
        }),
        ({
            let h = with_preset(QualityPreset::High, q);
            &&& h.foliage_enabled && h.bloom_enabled && h.dof_enabled && h.ssao_enabled
            &&& h.motion_blur_enabled && h.foliage_ring_max == 9
            // 60 and 165
            &&& h.grass_radius_world == Single(0x4270_0000)
            &&& h.water_amplitude == Single(0x3ee6_6666)
            &&& h.terrain_lod_distance == Single(0x4325_0000)
        }),
        default_settings().render_distance_chunks == 10,
{
}

/// Each toggle shows and flips its own setting, and leaves every other knob alone;
/// vertical sync is the window's, and no knob of these.
pub proof fn toggles_are_wired_to_their_settings(q: QualitySettings, vsync: bool)
    ensures
        setting_on(Setting::Bloom, q, vsync) == q.bloom_enabled,
        setting_on(Setting::Ssao, q, vsync) == q.ssao_enabled,
        setting_on(Setting::MotionBlur, q, vsync) == q.motion_blur_enabled,
        setting_on(Setting::Dof, q, vsync) == q.dof_enabled,
        setting_on(Setting::Foliage, q, vsync) == q.foliage_enabled,
        setting_on(Setting::Vsync, q, vsync) == vsync,
        toggled(Setting::Bloom, q) == (QualitySettings { bloom_enabled: !q.bloom_enabled, ..q }),
        toggled(Setting::Ssao, q) == (QualitySettings { ssao_enabled: !q.ssao_enabled, ..q }),
        toggled(Setting::MotionBlur, q) == (QualitySettings {
            motion_blur_enabled: !q.motion_blur_enabled,
            ..q
        }),
        toggled(Setting::Dof, q) == (QualitySettings { dof_enabled: !q.dof_enabled, ..q }),
        toggled(Setting::Foliage, q) == (QualitySettings {
            foliage_enabled: !q.foliage_enabled,
            ..q
        }),
        toggled(Setting::Vsync, q) == q,
{
}

/// Only the two modes that wait for the display count as vertical sync.
pub proof fn only_waiting_modes_are_vsync(mode: PresentMode)
    ensures
        is_vsync(PresentMode::AutoVsync) && is_vsync(PresentMode::Fifo),
        mode is AutoNoVsync || mode is FifoRelaxed || mode is Immediate || mode is Mailbox
            ==> !is_vsync(mode),
{
}

} // verus!
