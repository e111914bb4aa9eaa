use inf3d::blocked::BlockedCells;
use inf3d::camera::{
    apply_quality_to_camera, boom_limit, boom_pulls_in, cursor_is_locked, drag_after, key_axis,
    keys_move_player, lod_band, look_input, CameraFx, CameraMode, CameraRig, Change, LookInput,
};
use inf3d::city::{
    div_floor, hash3, is_alley, lot_for, voxel_at, CITY_SURFACE_Y, MAT_ASPHALT, MAT_CONCRETE,
};
use inf3d::grid::{floor_div, floor_mod, IVec2, IVec3};
use inf3d::ieee::{Double, Single};
use inf3d::quality::{
    apply_toggle, present_mode_is_vsync, toggle_present_mode, PresentMode, QualityPreset,
    QualitySettings, Setting,
};
use inf3d::terrain::{column_voxel, is_land_surface, stand_cell, surface_of_rise, texture_index};

fn single(v: f32) -> Single {
    Single(v.to_bits())
}

fn number(v: Single) -> f32 {
    f32::from_bits(v.0)
}

/// Side of a chunk, in voxels.
const CHUNK_VOXELS: u32 = 32;

#[test]
fn blocked_cells_refcount_survives_cross_tile_release() {
    let cell = IVec2::new(7, 3);
    let mut blocked = BlockedCells::default();

    assert!(blocked.claim(cell));
    assert!(!blocked.claim(cell));
    assert!(blocked.contains(cell));

    blocked.release(cell);
    assert!(
        blocked.contains(cell),
        "cell freed while a neighbour tile's prop still occupies it"
    );

    blocked.release(cell);
    assert!(!blocked.contains(cell));
    assert!(blocked.0.is_empty(), "fully-released cell must drop its entry");
}

#[test]
fn blocked_cells_release_without_claim_is_ignored() {
    let mut blocked = BlockedCells::default();
    blocked.release(IVec2::new(1, 1));
    assert!(blocked.0.is_empty());
    assert!(!blocked.contains(IVec2::new(1, 1)));
}

#[test]
fn blocked_cells_iter_yields_claimed_cells_once() {
    let mut blocked = BlockedCells::default();
    let a = IVec2::new(0, 0);
    let b = IVec2::new(2, 5);
    blocked.claim(a);
    blocked.claim(a);
    blocked.claim(b);
    let mut got: Vec<IVec2> = blocked.iter();
    got.sort_by_key(|c| (c.x, c.y));
    assert_eq!(got, vec![a, b]);
}

#[test]
fn blocked_cells_follow_the_balance_of_a_history() {
    let (a, b) = (IVec2::new(3, 3), IVec2::new(-8, 1));
    let mut blocked = BlockedCells::new();
    let mut balance = 0;
    for (claim, cell) in [
        (true, a), (true, b), (true, a), (false, a), (true, a), (false, b), (false, a), (false, a),
    ] {
        if claim {
            blocked.claim(cell);
        } else {
            blocked.release(cell);
        }
        if cell == a {
            balance += if claim { 1 } else { -1 };
        }
        assert_eq!(blocked.contains(a), balance > 0);
    }
    assert!(blocked.0.is_empty());
}

#[test]
fn blocked_cells_snapshot_holds_the_claimed_cells() {
    let mut blocked = BlockedCells::new();
    blocked.claim(IVec2::new(-4, 9));
    let snap = blocked.snapshot();
    assert!(snap.contains(IVec2::new(-4, 9)));
    assert!(!snap.contains(IVec2::new(9, -4)));
}

#[test]
fn default_quality_settings_are_fixed_high() {
    let s = QualitySettings::default();
    assert_eq!(s.render_distance_chunks, 10);
    assert!(s.foliage_enabled);
    assert!(s.dof_enabled);
    assert!(s.bloom_enabled);
    assert!(s.ssao_enabled);
    assert!(s.motion_blur_enabled);
    assert!(s.water_enabled);
    assert!(number(s.grass_radius_world) > 0.0);
    assert!(s.foliage_ring_max > 0);
    assert!(number(s.terrain_lod_distance) > 0.0);
}

#[test]
fn toggles_flip_one_setting() {
    let mut q = QualitySettings::default();
    let before = q;
    let mut mode = Some(PresentMode::Fifo);
    apply_toggle(Setting::Bloom, &mut q, &mut mode);
    assert!(!q.bloom_enabled && q.ssao_enabled);
    assert!(!Setting::Bloom.is_on(&q, true));
    apply_toggle(Setting::Bloom, &mut q, &mut mode);
    assert_eq!(q, before);
    apply_toggle(Setting::Vsync, &mut q, &mut mode);
    assert_eq!((q, mode), (before, Some(PresentMode::AutoNoVsync)));
    assert!(present_mode_is_vsync(PresentMode::Fifo));
    assert!(!present_mode_is_vsync(PresentMode::FifoRelaxed));
    assert_eq!(toggle_present_mode(PresentMode::Immediate), PresentMode::AutoVsync);
    assert_eq!(Setting::Ssao.label(), "SSAO");
}

#[test]
fn presets_have_their_values() {
    let expected: [(&str, f32, f32, i32, f32); 4] = [
        ("Potato", 0.0, 0.0, 4, 90.0),
        ("Low", 24.0, 0.25, 6, 120.0),
        ("Medium", 42.0, 0.35, 8, 150.0),
        ("High", 60.0, 0.45, 9, 165.0),
    ];
    for (preset, (label, grass, waves, ring, lod)) in QualityPreset::all().iter().zip(expected) {
        let mut q = QualitySettings::default();
        q.water_enabled = false;
        q.render_distance_chunks = 17;
        preset.apply(&mut q);
        assert_eq!(preset.label(), label);
        assert_eq!(number(q.grass_radius_world), grass);
        assert_eq!(number(q.water_amplitude), waves);
        assert_eq!(q.foliage_ring_max, ring);
        assert_eq!(number(q.terrain_lod_distance), lod);
        assert!(q.water_enabled);
        assert_eq!(q.render_distance_chunks, 17);
    }
    let mut q = QualitySettings::default();
    QualityPreset::High.apply(&mut q);
    assert_eq!(q, QualitySettings::default());
}

#[test]
fn lod_band_fires_inside_disc_for_every_preset() {
    for preset in QualityPreset::all() {
        let mut q = QualitySettings::default();
        preset.apply(&mut q);
        let disc = (q.render_distance_chunks * CHUNK_VOXELS) as f32;
        let band = number(lod_band(q.terrain_lod_distance, single(disc * 0.9)));
        assert!(
            band < disc,
            "{:?}: LOD band {band} must be < disc radius {disc} so LOD fires",
            preset,
        );
    }
}

#[test]
fn camera_effects_follow_the_settings() {
    let q = QualitySettings::default();
    let none = CameraFx {
        bloom: false,
        depth_prepass: false,
        depth_of_field: false,
        ssao: false,
        normal_prepass: false,
        motion_blur: false,
        motion_vector_prepass: false,
    };
    let plan = apply_quality_to_camera(&q, none);
    assert_eq!((plan.bloom, plan.ssao), (Change::Insert, Change::Insert));
    assert!(plan.msaa_off);
    let mut low = q;
    low.bloom_enabled = false;
    let plan = apply_quality_to_camera(&low, CameraFx { bloom: true, ..none });
    assert_eq!(plan.bloom, Change::Remove);
    let plan = apply_quality_to_camera(&low, none);
    assert_eq!(plan.bloom, Change::Keep);
    // once everything is there, a second plan changes nothing
    let all = CameraFx {
        bloom: true,
        depth_prepass: true,
        depth_of_field: true,
        ssao: true,
        normal_prepass: true,
        motion_blur: true,
        motion_vector_prepass: true,
    };
    let again = apply_quality_to_camera(&q, all);
    for change in [
        again.bloom,
        again.depth_prepass,
        again.depth_of_field,
        again.ssao,
        again.normal_prepass,
        again.motion_blur,
        again.motion_vector_prepass,
    ] {
        assert_eq!(change, Change::Keep);
    }
}

#[test]
fn camera_modes_and_input() {
    let mut m = CameraMode::default();
    assert!(m.is_orbit() && !m.is_free_fly());
    assert!(keys_move_player(&m, false) && !keys_move_player(&m, true));
    assert_eq!(look_input(&m, false), LookInput::Orbit);
    m.toggle_free_fly();
    assert!(m.is_free_fly());
    assert_eq!(look_input(&m, false), LookInput::FreeFly);
    assert_eq!(look_input(&m, true), LookInput::Suspended);
    m.set_free_fly(false);
    assert!(m.is_orbit());
    assert_eq!((key_axis(true, false), key_axis(true, true), key_axis(false, true)), (1, 0, -1));
    assert!(cursor_is_locked(true, true, false));
    assert!(!cursor_is_locked(true, true, true));
    assert!(drag_after(false, true, true, false));
    assert!(!drag_after(false, true, true, true));
    assert!(!drag_after(true, false, false, false));
}

#[test]
fn boom_shortens_to_the_nearest_hit() {
    let limit = boom_limit(single(10.0), &[single(6.0), single(8.0)]);
    assert_eq!(number(limit), 6.0);
    assert_eq!(number(boom_limit(single(10.0), &[])), 10.0);
    assert_eq!(number(boom_limit(single(10.0), &[single(-2.0)])), 1.0);
    assert!(boom_pulls_in(single(2.0), single(3.0)));
    assert!(!boom_pulls_in(single(3.0), single(3.0)));
    let mut rig = CameraRig::default();
    assert_eq!((number(rig.yaw), number(rig.pitch), number(rig.distance)), (0.0, 0.5, 12.0));
    rig.snap_to(single(0.0), single(-3.0), single(99.0));
    assert_eq!((number(rig.pitch), number(rig.distance), number(rig.boom)), (-0.5, 40.0, 40.0));
    rig.snap_to(single(0.0), single(3.0), single(0.0));
    assert_eq!((number(rig.pitch), number(rig.distance)), (1.4, 4.0));
    rig.snap_to(single(1.0), single(0.25), single(9.0));
    assert_eq!((number(rig.yaw), number(rig.pitch)), (1.0, 0.25));
    assert_eq!((number(rig.distance), number(rig.distance_target)), (9.0, 9.0));
}

#[test]
fn bit_patterns_compare_as_numbers() {
    let values = [f32::NEG_INFINITY, -3.5, -0.0, 0.0, 1e-40, 2.0, f32::INFINITY, f32::NAN];
    for a in values {
        for b in values {
            assert_eq!(single(a).lt(single(b)), a < b);
            assert_eq!(single(a).le(single(b)), a <= b);
        }
        assert_eq!(single(a).is_nan(), a.is_nan());
    }
    assert_eq!(number(single(7.0).clamp(single(0.0), single(5.0))), 5.0);
    assert_eq!(number(single(f32::NAN).min(single(5.0))), 5.0);
    assert_eq!(number(single(3.0).max(single(5.0))), 5.0);
    assert!(Double(1.5f64.to_bits()).lt(Double(2.5f64.to_bits())));
    assert!(!Double(f64::INFINITY.to_bits()).is_finite());
    assert!(Double(f64::NAN.to_bits()).is_nan());
}

#[test]
fn roads_and_towers_are_deterministic() {
    assert_eq!(voxel_at(IVec3::new(0, CITY_SURFACE_Y, 0)), Some(MAT_ASPHALT));
    let a = voxel_at(IVec3::new(14, CITY_SURFACE_Y + 8, 14));
    let b = voxel_at(IVec3::new(14, CITY_SURFACE_Y + 8, 14));
    assert_eq!(a, b);
}

#[test]
fn city_hash_and_division() {
    assert_eq!(div_floor(-1, 48), -1);
    assert_eq!(div_floor(95, 48), 1);
    assert_eq!(floor_div(-49, 48), -2);
    assert_eq!(floor_mod(-1, 48), 47);
    assert_ne!(hash3(1, 2, 3), hash3(3, 2, 1));
    assert_eq!(hash3(0, 0, 0), {
        let mut x: u32 = 0x51ed_270b;
        x ^= x >> 16;
        x = x.wrapping_mul(0x7feb_352d);
        x ^= x >> 15;
        x = x.wrapping_mul(0x846c_a68b);
        x ^ (x >> 16)
    });
}

#[test]
fn city_ground_is_closed() {
    for x in -60..60 {
        for z in [-37, -1, 0, 11, 40] {
            assert_eq!(voxel_at(IVec3::new(x, CITY_SURFACE_Y - 6, z)), Some(MAT_CONCRETE));
            assert!(voxel_at(IVec3::new(x, CITY_SURFACE_Y, z)).is_some());
            assert_eq!(voxel_at(IVec3::new(x, 2000, z)), None);
        }
    }
    // roads have no lots
    assert!(lot_for(0, 20, 0, 0).is_none());
    let _ = is_alley(20, 20, 0, 0);
}

#[test]
fn terrain_columns_are_solid_up_to_the_surface() {
    for rise in [-3, 0, 1, 2, 9] {
        let top = surface_of_rise(rise);
        assert!(column_voxel(rise, top).is_some());
        assert!(column_voxel(rise, top + 1).is_none());
    }
    assert_eq!(surface_of_rise(9), 8);
    assert!(is_land_surface(1) && !is_land_surface(0));
    assert_eq!(stand_cell(4, 7, -2), IVec3::new(4, 8, -2));
    assert_eq!((texture_index(2), texture_index(9)), ([2, 2, 2], [0, 0, 0]));
}
