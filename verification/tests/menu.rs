use inf3d::grid::IVec3;
use inf3d::ieee::Single;
use inf3d::menu::save::{
    age_label, default_camera_distance, default_camera_pitch, migrate, new_save, resolve_kind,
    slot_label, slot_path, slot_summary, EditMode, SaveGame, SelectedMaterial,
    CURRENT_SAVE_VERSION, DEFAULT_BUILD_MATERIAL, SLOT_COUNT,
};
use inf3d::menu::screens::{
    button_tint, buttons, entry_screen, gameplay_runs, plan_world_load, press,
    render_distance_note, screen_title, take_pending_save, toggle_pause, AppState, EditsPlan,
    Interaction, LoadKind, MenuAction, MenuEffect, MenuScreen, MenuState, Pause, SlotOp,
    SpawnPlan, Tint,
};
use inf3d::menu::testmap::{dig, fill, stamp_build_lane, stamp_test_map, stamp_walk_lane};
use inf3d::overrides::{VoxelEdit, VoxelOverrides, WorldKind};
use inf3d::quality::{PresentMode, QualityPreset, QualitySettings, Setting};

fn single(v: f32) -> Single {
    Single(v.to_bits())
}

fn sample(version: u32, edits: Vec<([i32; 3], VoxelEdit)>, selected_material: u8) -> SaveGame {
    SaveGame {
        version,
        world_kind: WorldKind::default(),
        flat: false,
        edits,
        player_pos: [single(0.0), single(0.0), single(0.0)],
        facing: single(0.0),
        edit_mode: EditMode::default(),
        selected_material,
        camera_yaw: single(0.0),
        camera_pitch: single(0.5),
        camera_distance: single(12.0),
        saved_at: 0,
    }
}

#[test]
fn migrate_v0_shifts_built_materials_up_by_two() {
    let game = sample(
        0,
        vec![
            ([0, 0, 0], VoxelEdit::Placed(4)),
            ([1, 2, 3], VoxelEdit::Placed(11)),
            ([4, 5, 6], VoxelEdit::Removed),
        ],
        4,
    );
    let out = migrate(game);
    assert_eq!(out.version, CURRENT_SAVE_VERSION);
    assert_eq!(
        out.edits,
        vec![
            ([0, 0, 0], VoxelEdit::Placed(6)),
            ([1, 2, 3], VoxelEdit::Placed(13)),
            ([4, 5, 6], VoxelEdit::Removed),
        ]
    );
    assert_eq!(out.selected_material, 6);
}

#[test]
fn migrate_v1_passes_through_unchanged() {
    let edits = vec![([0, 0, 0], VoxelEdit::Placed(6)), ([1, 1, 1], VoxelEdit::Removed)];
    let game = sample(1, edits.clone(), 6);
    let out = migrate(game);
    assert_eq!(out.version, 1);
    assert_eq!(out.edits, edits);
    assert_eq!(out.selected_material, 6);
}

#[test]
fn migrate_leaves_natural_materials() {
    let out = migrate(sample(0, vec![([0, 0, 0], VoxelEdit::Placed(3))], 3));
    assert_eq!(out.edits, vec![([0, 0, 0], VoxelEdit::Placed(3))]);
    assert_eq!((out.version, out.selected_material), (CURRENT_SAVE_VERSION, 3));
}

#[test]
fn a_new_save_is_current() {
    let g = new_save(
        WorldKind::TestFlat,
        vec![],
        [single(1.0), single(2.0), single(3.0)],
        single(0.5),
        EditMode::Build,
        SelectedMaterial(12),
        (single(0.1), single(0.2), single(9.0)),
        77,
    );
    assert_eq!((g.version, g.flat, g.selected_material, g.saved_at), (2, true, 12, 77));
    assert_eq!(f32::from_bits(g.camera_distance.0), 9.0);
    assert_eq!(resolve_kind(&g), WorldKind::TestFlat);
    let mut old = sample(1, vec![], 6);
    old.flat = true;
    assert_eq!(resolve_kind(&old), WorldKind::TestFlat);
    old.world_kind = WorldKind::City;
    assert_eq!(resolve_kind(&old), WorldKind::City);
    assert_eq!(default_camera_pitch(), single(0.5));
    assert_eq!(default_camera_distance(), single(12.0));
}

#[test]
fn slots_are_labelled_by_age() {
    assert_eq!(slot_path(0), "saves/slot1.ron");
    assert_eq!(slot_path(SLOT_COUNT - 1), "saves/slot3.ron");
    assert_eq!(age_label(89), "just now");
    assert_eq!(age_label(90), "1m ago");
    assert_eq!(age_label(3599), "59m ago");
    assert_eq!(age_label(3600), "1h ago");
    assert_eq!(age_label(86_400), "1d ago");
    let mut g = sample(2, vec![([0, 0, 0], VoxelEdit::Removed)], 6);
    g.saved_at = 100;
    assert_eq!(slot_summary(&Some(g), 7300), Some((1, 7200)));
    assert_eq!(slot_summary(&None, 7300), None);
    assert_eq!(slot_label(1, Some((14, 7200))), "Slot 2 — 14 edits, 2h ago");
    assert_eq!(slot_label(0, None), "Slot 1 — empty");
}

fn menu() -> MenuState {
    MenuState {
        screen: MenuScreen::MainRoot,
        ret: MenuScreen::MainRoot,
        pending_load: None,
        pending_save: None,
    }
}

#[test]
fn screens_open_and_return() {
    let mut s = menu();
    let mut q = QualitySettings::default();
    let mut m = None;
    assert_eq!(press(MenuAction::OpenSettings, None, &mut s, &mut q, &mut m), MenuEffect::Nothing);
    assert_eq!(s.screen, MenuScreen::Settings);
    press(MenuAction::Back, None, &mut s, &mut q, &mut m);
    assert_eq!(s.screen, MenuScreen::MainRoot);
    let start = MenuAction::StartWorld(WorldKind::City);
    assert_eq!(press(start, None, &mut s, &mut q, &mut m), MenuEffect::EnterGame);
    assert!(matches!(s.pending_load, Some(LoadKind::New { kind: WorldKind::City })));
    assert_eq!(press(MenuAction::Resume, None, &mut s, &mut q, &mut m), MenuEffect::Unpause);
    assert_eq!(press(MenuAction::QuitDesktop, None, &mut s, &mut q, &mut m), MenuEffect::Exit);
    assert_eq!(press(MenuAction::QuitToMenu, None, &mut s, &mut q, &mut m), MenuEffect::EnterMenu);
}

#[test]
fn slots_load_and_save() {
    let mut s = menu();
    let mut q = QualitySettings::default();
    let mut m = Some(PresentMode::AutoVsync);
    let load = MenuAction::Slot(SlotOp::Load, 0);
    assert_eq!(press(load, None, &mut s, &mut q, &mut m), MenuEffect::Nothing);
    assert!(s.pending_load.is_none());
    let game = sample(2, vec![], 6);
    assert_eq!(press(load, Some(game), &mut s, &mut q, &mut m), MenuEffect::EnterGame);
    assert!(matches!(s.pending_load, Some(LoadKind::Load(_))));
    press(MenuAction::Slot(SlotOp::Save, 2), None, &mut s, &mut q, &mut m);
    assert_eq!(take_pending_save(&mut s, true), Some(2));
    assert_eq!((s.pending_save, s.screen), (None, MenuScreen::PauseRoot));
    press(MenuAction::Slot(SlotOp::Save, 1), None, &mut s, &mut q, &mut m);
    assert_eq!(take_pending_save(&mut s, false), None);
    assert_eq!(s.pending_save, None);
}

#[test]
fn settings_apply_live() {
    let mut s = menu();
    let mut q = QualitySettings::default();
    let mut m = Some(PresentMode::AutoVsync);
    press(MenuAction::Preset(QualityPreset::Potato), None, &mut s, &mut q, &mut m);
    let mut potato = QualitySettings::default();
    QualityPreset::Potato.apply(&mut potato);
    assert_eq!(q, potato);
    press(MenuAction::Toggle(Setting::Vsync), None, &mut s, &mut q, &mut m);
    assert_eq!(m, Some(PresentMode::AutoNoVsync));
    let saved = press(MenuAction::SaveSettings, None, &mut s, &mut q, &mut m);
    assert_eq!(saved, MenuEffect::WriteSettings);
    let toggle = MenuAction::Toggle(Setting::Foliage);
    q.foliage_enabled = true;
    assert_eq!(button_tint(Interaction::Idle, toggle, &q, false), Tint::Accent);
    assert_eq!(button_tint(Interaction::Pressed, toggle, &q, false), Tint::Press);
    assert_eq!(button_tint(Interaction::Hovered, MenuAction::Back, &q, false), Tint::Hover);
    assert_eq!(button_tint(Interaction::Idle, MenuAction::Back, &q, false), Tint::Normal);
}

#[test]
fn pausing_stops_the_game() {
    assert_eq!(toggle_pause(Pause::Running), Pause::Paused);
    assert_eq!(toggle_pause(Pause::Paused), Pause::Running);
    assert!(gameplay_runs(AppState::InGame, Some(Pause::Running)));
    assert!(!gameplay_runs(AppState::InGame, Some(Pause::Paused)));
    assert!(!gameplay_runs(AppState::MainMenu, None));
    assert_eq!(entry_screen(AppState::MainMenu, None), MenuScreen::MainRoot);
    assert_eq!(entry_screen(AppState::InGame, Some(Pause::Paused)), MenuScreen::PauseRoot);
    assert_eq!(entry_screen(AppState::InGame, Some(Pause::Running)), MenuScreen::Hidden);
    assert_eq!(buttons(MenuScreen::MainRoot).len(), 4);
    assert_eq!(buttons(MenuScreen::NewWorld)[3], ("Back", MenuAction::Back));
    assert!(render_distance_note(10).contains("10"));
    assert!(!screen_title(MenuScreen::PauseRoot).is_empty());
}

#[test]
fn worlds_are_planned() {
    let plan = plan_world_load(&LoadKind::New { kind: WorldKind::TestFlat });
    assert!(matches!(plan.edits, EditsPlan::StampTestMap));
    assert_eq!((plan.spawn, plan.free_fly), (SpawnPlan::NearestLand, false));
    assert_eq!(plan.selected_material, SelectedMaterial(DEFAULT_BUILD_MATERIAL));
    let plan = plan_world_load(&LoadKind::New { kind: WorldKind::City });
    assert!(matches!(plan.edits, EditsPlan::Clear) && plan.free_fly);
    let edits = vec![([1, 2, 3], VoxelEdit::Placed(7))];
    let plan = plan_world_load(&LoadKind::Load(sample(2, edits.clone(), 9)));
    assert!(matches!(plan.edits, EditsPlan::Import(list) if list == edits));
    assert_eq!((plan.spawn, plan.selected_material), (SpawnPlan::Saved, SelectedMaterial(9)));
}

#[test]
fn a_saved_world_comes_back() {
    let edits = vec![([1, 2, 3], VoxelEdit::Placed(7)), ([0, 0, 0], VoxelEdit::Removed)];
    for kind in [WorldKind::Normal, WorldKind::TestFlat, WorldKind::City] {
        let game = new_save(
            kind,
            edits.clone(),
            [single(1.0), single(2.0), single(3.0)],
            single(0.5),
            EditMode::Build,
            SelectedMaterial(12),
            (single(0.1), single(0.2), single(9.0)),
            77,
        );
        let plan = plan_world_load(&LoadKind::Load(migrate(game)));
        assert_eq!(plan.kind, kind);
        assert!(matches!(plan.edits, EditsPlan::Import(list) if list == edits));
        assert_eq!((plan.edit_mode, plan.selected_material), (EditMode::Build, SelectedMaterial(12)));
    }
}

#[test]
fn edits_survive_export_and_import() {
    let mut o = VoxelOverrides::new();
    o.place(IVec3::new(1, 2, 3), 9);
    o.remove(IVec3::new(-1, 0, 4));
    let list = o.export();
    assert_eq!(list.len(), 2);
    let mut p = VoxelOverrides::new();
    p.place(IVec3::new(50, 50, 50), 1);
    p.import(&list);
    assert_eq!(p.get(IVec3::new(1, 2, 3)), Some(VoxelEdit::Placed(9)));
    assert_eq!(p.get(IVec3::new(-1, 0, 4)), Some(VoxelEdit::Removed));
    assert_eq!(p.get(IVec3::new(50, 50, 50)), None);
    p.clear_all();
    assert_eq!(p.export().len(), 0);
}

#[test]
fn boxes_are_filled_and_dug() {
    let mut o = VoxelOverrides::new();
    fill(&mut o, (0, 1), (5, 6), (-1, 1), 4);
    assert_eq!(o.export().len(), 12);
    dig(&mut o, (1, 1), (5, 5), (0, 0));
    assert_eq!(o.get(IVec3::new(1, 5, 0)), Some(VoxelEdit::Removed));
    assert_eq!(o.get(IVec3::new(0, 5, 0)), Some(VoxelEdit::Placed(4)));
    fill(&mut o, (3, 2), (0, 0), (0, 0), 4);
    assert_eq!(o.export().len(), 12);
}

#[test]
fn the_test_map_has_its_lanes() {
    let (top, stone, dirt) = (7, 6, 10);
    let mut o = VoxelOverrides::new();
    stamp_test_map(&mut o, top, stone, dirt);
    // a single step up
    assert_eq!(o.get(IVec3::new(5, top + 1, 0)), Some(VoxelEdit::Placed(stone)));
    assert_eq!(o.get(IVec3::new(5, top + 2, 0)), None);
    // a wall of two
    assert_eq!(o.get(IVec3::new(10, top + 2, 0)), Some(VoxelEdit::Placed(stone)));
    // a staircase
    assert_eq!(o.get(IVec3::new(14, top + 1, 0)), Some(VoxelEdit::Placed(stone)));
    assert_eq!(o.get(IVec3::new(15, top + 2, 0)), Some(VoxelEdit::Placed(stone)));
    let mut walk = VoxelOverrides::new();
    stamp_walk_lane(&mut walk, top, stone, dirt);
    stamp_build_lane(&mut walk, top, stone, dirt);
    assert_eq!(walk.export().len(), o.export().len());
}
