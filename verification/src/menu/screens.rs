//! The menu screens: navigation, what each button does, and what entering a
//! world sets up.

use vstd::prelude::*;
use vstd::string::*;

use crate::menu::save::{
    fresh_save, is_migrated, resolve_kind, saved_kind, EditMode, SaveGame, SelectedMaterial,
    DEFAULT_BUILD_MATERIAL,
};
use crate::overrides::{VoxelEdit, WorldKind};
use crate::quality::{
    apply_toggle, is_vsync, setting_on, toggled, with_preset, PresentMode, QualityPreset,
    QualitySettings, Setting,
};
use crate::text::{decimal, push_decimal};

verus! {

/// Which menu screen is currently shown (`Hidden` during play).
#[derive(Clone, Copy, Debug, PartialEq, Eq, Structural)]
pub enum MenuScreen {
    Hidden,
    MainRoot,
    PauseRoot,
    NewWorld,
    Settings,
    LoadSlots,
    SaveSlots,
}

impl Default for MenuScreen {
    fn default() -> (s: MenuScreen)
        ensures
            s == MenuScreen::Hidden,
    {
        MenuScreen::Hidden
    }
}

#[derive(Clone, Copy, Debug, PartialEq, Eq, Structural)]
pub enum SlotOp {
    Load,
    Save,
}

/// What a button does when pressed.
#[derive(Clone, Copy, Debug, PartialEq, Eq, Structural)]
pub enum MenuAction {
    OpenNewWorld,
    StartWorld(WorldKind),
    OpenLoad,
    OpenSettings,
    QuitDesktop,
    Resume,
    OpenSave,
    QuitToMenu,
    Back,
    Slot(SlotOp, u8),
    Preset(QualityPreset),
    Toggle(Setting),
    SaveSettings,
}

/// Top-level application state.
#[derive(Clone, Copy, Debug, PartialEq, Eq, Structural)]
pub enum AppState {
    MainMenu,
    InGame,
}

impl Default for AppState {
    fn default() -> (s: AppState)
        ensures
            s == AppState::MainMenu,
    {
        AppState::MainMenu
    }
}

/// In-game pause.
#[derive(Clone, Copy, Debug, PartialEq, Eq, Structural)]
pub enum Pause {
    Running,
    Paused,
}

impl Default for Pause {
    fn default() -> (p: Pause)
        ensures
            p == Pause::Running,
    {
        Pause::Running
    }
}

/// Esc toggles pause.
pub fn toggle_pause(p: Pause) -> (next: Pause)
    ensures
        next == (match p {
            Pause::Running => Pause::Paused,
            Pause::Paused => Pause::Running,
        }),
{
    match p {
        Pause::Running => Pause::Paused,
        Pause::Paused => Pause::Running,
    }
}

/// Gameplay runs only in a game that is not paused.
pub fn gameplay_runs(app: AppState, pause: Option<Pause>) -> (r: bool)
    ensures
        r == (app == AppState::InGame && pause == Some(Pause::Running)),
{
    let running = match pause {
        Some(Pause::Running) => true,
        _ => false,
    };
    app == AppState::InGame && running
}

/// The screen shown on entering a state.
pub fn entry_screen(app: AppState, pause: Option<Pause>) -> (s: MenuScreen)
    ensures
        s == (if app == AppState::MainMenu {
            MenuScreen::MainRoot
        } else if pause == Some(Pause::Paused) {
            MenuScreen::PauseRoot
        } else {
            MenuScreen::Hidden
        }),
{
    match app {
        AppState::MainMenu => MenuScreen::MainRoot,
        AppState::InGame => match pause {
            Some(Pause::Paused) => MenuScreen::PauseRoot,
            _ => MenuScreen::Hidden,
        },
    }
}

/// A queued world to build/load.
#[derive(Debug)]
pub enum LoadKind {
    /// A fresh world backend.
    New { kind: WorldKind },
    /// Restore a saved game.
    Load(SaveGame),
}

/// The navigation state of the menus.
#[derive(Debug)]
pub struct MenuState {
    pub screen: MenuScreen,
    /// Where "Back" returns from Settings / slot screens.
    pub ret: MenuScreen,
    /// A queued world, consumed once on entering the game.
    pub pending_load: Option<LoadKind>,
    /// A queued save (the target slot).
    pub pending_save: Option<u8>,
}

/// What a pressed button asks of the application.
#[derive(Clone, Copy, Debug, PartialEq, Eq, Structural)]
pub enum MenuEffect {
    Nothing,
    EnterGame,
    EnterMenu,
    Unpause,
    Exit,
    WriteSettings,
}

/// The screen that an action opens.
pub open spec fn opens(action: MenuAction) -> Option<MenuScreen> {
    match action {
        MenuAction::OpenNewWorld => Some(MenuScreen::NewWorld),
        MenuAction::OpenLoad => Some(MenuScreen::LoadSlots),
        MenuAction::OpenSettings => Some(MenuScreen::Settings),
        MenuAction::OpenSave => Some(MenuScreen::SaveSlots),
        _ => None,
    }
}

/// What a press does to the navigation state. `loaded` is the save that a load
/// slot holds.
pub open spec fn pressed(action: MenuAction, loaded: Option<SaveGame>, s: MenuState) -> (
    MenuState,
    MenuEffect,
) {
    match action {
        MenuAction::StartWorld(kind) => (
            MenuState { pending_load: Some(LoadKind::New { kind }), ..s },
            MenuEffect::EnterGame,
        ),
        MenuAction::QuitDesktop => (s, MenuEffect::Exit),
        MenuAction::Resume => (s, MenuEffect::Unpause),
        MenuAction::QuitToMenu => (s, MenuEffect::EnterMenu),
        MenuAction::Back => (MenuState { screen: s.ret, ..s }, MenuEffect::Nothing),
        MenuAction::Slot(SlotOp::Load, n) => match loaded {
            Some(game) => (
                MenuState { pending_load: Some(LoadKind::Load(game)), ..s },
                MenuEffect::EnterGame,
            ),
            None => (s, MenuEffect::Nothing),
        },
        MenuAction::Slot(SlotOp::Save, n) => (
            MenuState { pending_save: Some(n), ..s },
            MenuEffect::Nothing,
        ),
        MenuAction::Preset(_) => (s, MenuEffect::Nothing),
        MenuAction::Toggle(_) => (s, MenuEffect::Nothing),
        MenuAction::SaveSettings => (s, MenuEffect::WriteSettings),
        _ => (
            MenuState {
                ret: s.screen,
                screen: opens(action)->0,
                ..s
            },
            MenuEffect::Nothing,
        ),
    }
}

/// What a press does to the quality settings.
pub open spec fn pressed_quality(action: MenuAction, q: QualitySettings) -> QualitySettings {
    match action {
        MenuAction::Preset(p) => with_preset(p, q),
        MenuAction::Toggle(s) => toggled(s, q),
        _ => q,
    }
}

/// Handle a pressed menu button: navigate screens, queue worlds and saves, and
/// apply settings live.
pub fn press(
    action: MenuAction,
    loaded: Option<SaveGame>,
    state: &mut MenuState,
    quality: &mut QualitySettings,
    mode: &mut Option<PresentMode>,
) -> (effect: MenuEffect)
    ensures
        *final(state) == pressed(action, loaded, *old(state)).0,
        effect == pressed(action, loaded, *old(state)).1,
        *final(quality) == pressed_quality(action, *old(quality)),
        *final(mode) == (match *old(mode) {
            Some(m) if action == MenuAction::Toggle(Setting::Vsync) => Some(
                if is_vsync(m) {
                    PresentMode::AutoNoVsync
                } else {
                    PresentMode::AutoVsync
                },
            ),
            _ => *old(mode),
        }),
{
    match action {
        MenuAction::OpenNewWorld => {
            state.ret = state.screen;
            state.screen = MenuScreen::NewWorld;
            MenuEffect::Nothing
        },
        MenuAction::StartWorld(kind) => {
            state.pending_load = Some(LoadKind::New { kind });
            MenuEffect::EnterGame
        },
        MenuAction::OpenLoad => {
            state.ret = state.screen;
            state.screen = MenuScreen::LoadSlots;
            MenuEffect::Nothing
        },
        MenuAction::OpenSettings => {
            state.ret = state.screen;
            state.screen = MenuScreen::Settings;
            MenuEffect::Nothing
        },
        MenuAction::QuitDesktop => MenuEffect::Exit,
        MenuAction::Resume => MenuEffect::Unpause,
        MenuAction::OpenSave => {
            state.ret = state.screen;
            state.screen = MenuScreen::SaveSlots;
            MenuEffect::Nothing
        },
        MenuAction::QuitToMenu => MenuEffect::EnterMenu,
        MenuAction::Back => {
            state.screen = state.ret;
            MenuEffect::Nothing
        },
        MenuAction::Slot(SlotOp::Load, _n) => match loaded {
            Some(game) => {
                state.pending_load = Some(LoadKind::Load(game));
                MenuEffect::EnterGame
            },
            None => MenuEffect::Nothing,
        },
        MenuAction::Slot(SlotOp::Save, n) => {
            state.pending_save = Some(n);
            MenuEffect::Nothing
        },
        MenuAction::Preset(preset) => {
            preset.apply(quality);
            MenuEffect::Nothing
        },
        MenuAction::Toggle(setting) => {
            apply_toggle(setting, quality, mode);
            MenuEffect::Nothing
        },
        MenuAction::SaveSettings => MenuEffect::WriteSettings,
    }
}

/// Back leads from an opened screen to the one it was opened from.
pub proof fn back_returns(
    open: MenuAction,
    loaded: Option<SaveGame>,
    s: MenuState,
)
    requires
        opens(open) is Some,
    ensures
        pressed(open, loaded, s).0.screen == opens(open)->0,
        pressed(MenuAction::Back, loaded, pressed(open, loaded, s).0).0.screen == s.screen,
{
}

/// Takes the queued save; with a player to save, the pause screen comes back.
pub fn take_pending_save(state: &mut MenuState, has_player: bool) -> (slot: Option<u8>)
    ensures
        slot == (if has_player {
            old(state).pending_save
        } else {
            None
        }),
        *final(state) == (MenuState {
            pending_save: None,
            screen: if has_player && old(state).pending_save is Some {
                MenuScreen::PauseRoot
            } else {
                old(state).screen
            },
            ..*old(state)
        }),
        final(state).pending_save is None,
        slot is Some ==> final(state).screen == MenuScreen::PauseRoot,
{
    let slot = state.pending_save;
    state.pending_save = None;
    if !has_player {
        return None;
    }
    if slot.is_some() {
        state.screen = MenuScreen::PauseRoot;
    }
    slot
}

/// What happens to the edit layer on entering a world.
#[derive(Debug)]
pub enum EditsPlan {
    /// All edits are forgotten.
    Clear,
    /// All edits are forgotten and the test map is stamped.
    StampTestMap,
    /// The edits become these.
    Import(Vec<([i32; 3], VoxelEdit)>),
}

/// Where the player goes on entering a world.
#[derive(Clone, Copy, Debug, PartialEq, Eq, Structural)]
pub enum SpawnPlan {
    /// The land column nearest to the origin, facing 0.
    NearestLand,
    /// The saved position, facing and camera view.
    Saved,
}

/// What entering a world sets up.
#[derive(Debug)]
pub struct WorldLoadPlan {
    pub kind: WorldKind,
    pub edits: EditsPlan,
    pub spawn: SpawnPlan,
    pub edit_mode: EditMode,
    pub selected_material: SelectedMaterial,
    pub free_fly: bool,
}

/// What entering a world sets up: a new flat world gets the test map, other new
/// ones start clean, a saved one comes back, and the city is flown through.
pub open spec fn is_plan_of(load: LoadKind, plan: WorldLoadPlan) -> bool {
    &&& plan.free_fly == (plan.kind == WorldKind::City)
    &&& match load {
        LoadKind::New { kind } => {
            &&& plan.kind == kind
            &&& plan.edits == (if kind == WorldKind::TestFlat {
                EditsPlan::StampTestMap
            } else {
                EditsPlan::Clear
            })
            &&& plan.spawn == SpawnPlan::NearestLand
            &&& plan.edit_mode == EditMode::Walk
            &&& plan.selected_material == SelectedMaterial(DEFAULT_BUILD_MATERIAL)
        },
        LoadKind::Load(game) => {
            &&& plan.kind == saved_kind(game)
            &&& plan.edits matches EditsPlan::Import(list) && list@ == game.edits@
            &&& plan.spawn == SpawnPlan::Saved
            &&& plan.edit_mode == game.edit_mode
            &&& plan.selected_material == SelectedMaterial(game.selected_material)
        },
    }
}

/// On entering play, build (New) or restore (Load) the world.
pub fn plan_world_load(load: &LoadKind) -> (plan: WorldLoadPlan)
    ensures
        is_plan_of(*load, plan),
{
    match load {
        LoadKind::New { kind } => {
            let edits = if *kind == WorldKind::TestFlat {
                EditsPlan::StampTestMap
            } else {
                EditsPlan::Clear
            };
            WorldLoadPlan {
                kind: *kind,
                edits,
                spawn: SpawnPlan::NearestLand,
                edit_mode: EditMode::Walk,
                selected_material: SelectedMaterial(DEFAULT_BUILD_MATERIAL),
                free_fly: *kind == WorldKind::City,
            }
        },
        LoadKind::Load(game) => {
            let kind = resolve_kind(game);
            let mut list: Vec<([i32; 3], VoxelEdit)> = Vec::new();
            let mut i: usize = 0;
            while i < game.edits.len()
                invariant
                    i <= game.edits@.len(),
                    list@ == game.edits@.take(i as int),
                decreases game.edits@.len() - i,
            {
                list.push(game.edits[i]);
                i += 1;
                assert(list@ =~= game.edits@.take(i as int));
            }
            assert(list@ =~= game.edits@);
            WorldLoadPlan {
                kind,
                edits: EditsPlan::Import(list),
                spawn: SpawnPlan::Saved,
                edit_mode: game.edit_mode,
                selected_material: SelectedMaterial(game.selected_material),
                free_fly: kind == WorldKind::City,
            }
        },
    }
}

/// A world that is saved and loaded again comes back: its kind, its edits, where
/// the player stood and looked, and what was being built.
pub proof fn saved_worlds_come_back(game: SaveGame, migrated: SaveGame, plan: WorldLoadPlan)
    requires
        game == fresh_save(
            game.world_kind,
            game.edits,
            game.player_pos,
            game.facing,
            game.edit_mode,
            SelectedMaterial(game.selected_material),
            (game.camera_yaw, game.camera_pitch, game.camera_distance),
            game.saved_at,
        ),
        is_migrated(game, migrated),
        is_plan_of(LoadKind::Load(migrated), plan),
    ensures
        migrated == game,
        plan.kind == game.world_kind,
        plan.edits matches EditsPlan::Import(list) && list@ == game.edits@,
        plan.spawn == SpawnPlan::Saved,
        plan.edit_mode == game.edit_mode,
        plan.selected_material == SelectedMaterial(game.selected_material),
{
}

/// How the pointer relates to a button.
#[derive(Clone, Copy, Debug, PartialEq, Eq, Structural)]
pub enum Interaction {
    Pressed,
    Hovered,
    Idle,
}

/// The look of a button.
#[derive(Clone, Copy, Debug, PartialEq, Eq, Structural)]
pub enum Tint {
    Normal,
    Hover,
    Press,
    Accent,
}

/// An enabled toggle reads as active, a pressed button as pressed, and a hovered
/// one lifts.
pub fn button_tint(
    interaction: Interaction,
    action: MenuAction,
    quality: &QualitySettings,
    vsync_on: bool,
) -> (t: Tint)
    ensures
        ({
            let active = action matches MenuAction::Toggle(s) && setting_on(s, *quality, vsync_on);
            t == (if interaction == Interaction::Pressed {
                Tint::Press
            } else if active {
                Tint::Accent
            } else if interaction == Interaction::Hovered {
                Tint::Hover
            } else {
                Tint::Normal
            })
        }),
{
    let active = match action {
        MenuAction::Toggle(s) => s.is_on(quality, vsync_on),
        _ => false,
    };
    match interaction {
        Interaction::Pressed => Tint::Press,
        Interaction::Hovered => if active {
            Tint::Accent
        } else {
            Tint::Hover
        },
        Interaction::Idle => if active {
            Tint::Accent
        } else {
            Tint::Normal
        },
    }
}

/// A button of a screen.
pub type ButtonModel = (Seq<char>, MenuAction);

/// The buttons of a screen, top to bottom, but for the slot screens, whose
/// labels tell what the slots hold.
pub open spec fn screen_buttons(screen: MenuScreen) -> Seq<ButtonModel> {
    match screen {
        MenuScreen::MainRoot => seq![
            ("New Game"@, MenuAction::OpenNewWorld),
            ("Load Game"@, MenuAction::OpenLoad),
            ("Settings"@, MenuAction::OpenSettings),
            ("Quit"@, MenuAction::QuitDesktop),
        ],
        MenuScreen::PauseRoot => seq![
            ("Resume"@, MenuAction::Resume),
            ("Save Game"@, MenuAction::OpenSave),
            ("Settings"@, MenuAction::OpenSettings),
            ("Quit to Menu"@, MenuAction::QuitToMenu),
            ("Quit to Desktop"@, MenuAction::QuitDesktop),
        ],
        MenuScreen::NewWorld => seq![
            ("Cyberpunk City (free fly)"@, MenuAction::StartWorld(WorldKind::City)),
            ("Test World (flat lab)"@, MenuAction::StartWorld(WorldKind::TestFlat)),
            ("Normal World (procedural)"@, MenuAction::StartWorld(WorldKind::Normal)),
            ("Back"@, MenuAction::Back),
        ],
        MenuScreen::Settings => seq![
            ("Potato"@, MenuAction::Preset(QualityPreset::Potato)),
            ("Low"@, MenuAction::Preset(QualityPreset::Low)),
            ("Medium"@, MenuAction::Preset(QualityPreset::Medium)),
            ("High"@, MenuAction::Preset(QualityPreset::High)),
            ("Bloom"@, MenuAction::Toggle(Setting::Bloom)),
            ("SSAO"@, MenuAction::Toggle(Setting::Ssao)),
            ("Motion Blur"@, MenuAction::Toggle(Setting::MotionBlur)),
            ("Depth of Field"@, MenuAction::Toggle(Setting::Dof)),
            ("Foliage"@, MenuAction::Toggle(Setting::Foliage)),
            ("VSync"@, MenuAction::Toggle(Setting::Vsync)),
            ("Save Settings"@, MenuAction::SaveSettings),
            ("Back"@, MenuAction::Back),
        ],
        MenuScreen::Hidden => Seq::empty(),
        MenuScreen::LoadSlots => Seq::empty(),
        MenuScreen::SaveSlots => Seq::empty(),
    }
}

pub open spec fn button_views(v: Seq<(&'static str, MenuAction)>) -> Seq<ButtonModel> {
    v.map_values(|b: (&'static str, MenuAction)| (b.0@, b.1))
}

/// The buttons of a screen without slots, top to bottom.
pub fn buttons(screen: MenuScreen) -> (v: Vec<(&'static str, MenuAction)>)
    ensures
        button_views(v@) == screen_buttons(screen),
{
    let mut v: Vec<(&'static str, MenuAction)> = Vec::new();
    match screen {
        MenuScreen::MainRoot => {
            v.push(("New Game", MenuAction::OpenNewWorld));
            v.push(("Load Game", MenuAction::OpenLoad));
            v.push(("Settings", MenuAction::OpenSettings));
            v.push(("Quit", MenuAction::QuitDesktop));
        },
        MenuScreen::PauseRoot => {
            v.push(("Resume", MenuAction::Resume));
            v.push(("Save Game", MenuAction::OpenSave));
            v.push(("Settings", MenuAction::OpenSettings));
            v.push(("Quit to Menu", MenuAction::QuitToMenu));
            v.push(("Quit to Desktop", MenuAction::QuitDesktop));
        },
        MenuScreen::NewWorld => {
            v.push(("Cyberpunk City (free fly)", MenuAction::StartWorld(WorldKind::City)));
            v.push(("Test World (flat lab)", MenuAction::StartWorld(WorldKind::TestFlat)));
            v.push(("Normal World (procedural)", MenuAction::StartWorld(WorldKind::Normal)));
            v.push(("Back", MenuAction::Back));
        },
        MenuScreen::Settings => {
            v.push(("Potato", MenuAction::Preset(QualityPreset::Potato)));
            v.push(("Low", MenuAction::Preset(QualityPreset::Low)));
            v.push(("Medium", MenuAction::Preset(QualityPreset::Medium)));
            v.push(("High", MenuAction::Preset(QualityPreset::High)));
            v.push(("Bloom", MenuAction::Toggle(Setting::Bloom)));
            v.push(("SSAO", MenuAction::Toggle(Setting::Ssao)));
            v.push(("Motion Blur", MenuAction::Toggle(Setting::MotionBlur)));
            v.push(("Depth of Field", MenuAction::Toggle(Setting::Dof)));
            v.push(("Foliage", MenuAction::Toggle(Setting::Foliage)));
            v.push(("VSync", MenuAction::Toggle(Setting::Vsync)));
            v.push(("Save Settings", MenuAction::SaveSettings));
            v.push(("Back", MenuAction::Back));
        },
        MenuScreen::Hidden => {},
        MenuScreen::LoadSlots => {},
        MenuScreen::SaveSlots => {},
    }
    assert(button_views(v@) =~= screen_buttons(screen));
    v
}

/// The note on the render distance, which the menu does not change.
pub fn render_distance_note(chunks: u32) -> (s: String)
    ensures
        s@ == "Render distance: "@ + decimal(chunks as nat) + " chunks (restart to change)"@,
{
    let mut s = "Render distance: ".to_owned();
    push_decimal(&mut s, chunks as u64);
    s.append(" chunks (restart to change)");
    s
}

/// The title of a screen.
pub fn screen_title(screen: MenuScreen) -> (t: &'static str)
    ensures
        t@ == (match screen {
            MenuScreen::Hidden => ""@,
            MenuScreen::MainRoot => "inf3d"@,
            MenuScreen::PauseRoot => "Paused"@,
            MenuScreen::NewWorld => "New World"@,
            MenuScreen::Settings => "Settings"@,
            MenuScreen::LoadSlots => "Load Game"@,
            MenuScreen::SaveSlots => "Save Game"@,
        }),
{
    match screen {
        MenuScreen::Hidden => "",
        MenuScreen::MainRoot => "inf3d",
        MenuScreen::PauseRoot => "Paused",
        MenuScreen::NewWorld => "New World",
        MenuScreen::Settings => "Settings",
        MenuScreen::LoadSlots => "Load Game",
        MenuScreen::SaveSlots => "Save Game",
    }
}

/// The opening actions lead to their screens, remember where they came from, and do
/// nothing else.
pub proof fn opening_leads_to_the_screen(loaded: Option<SaveGame>, s: MenuState)
    ensures
        pressed(MenuAction::OpenNewWorld, loaded, s).0.screen == MenuScreen::NewWorld,
        pressed(MenuAction::OpenLoad, loaded, s).0.screen == MenuScreen::LoadSlots,
        pressed(MenuAction::OpenSettings, loaded, s).0.screen == MenuScreen::Settings,
        pressed(MenuAction::OpenSave, loaded, s).0.screen == MenuScreen::SaveSlots,
        forall|a: MenuAction|
            a is OpenNewWorld || a is OpenLoad || a is OpenSettings || a is OpenSave ==> {
                let (t, effect) = #[trigger] pressed(a, loaded, s);
                &&& t.ret == s.screen
                &&& t.pending_load == s.pending_load
                &&& t.pending_save == s.pending_save
                &&& effect == MenuEffect::Nothing
            },
{
}

/// Starting a world queues it and enters the game; a load slot does so with the save
/// it holds, and nothing if it is empty; a save slot queues the save and stays. The
/// screen does not change.
pub proof fn worlds_are_queued(kind: WorldKind, n: u8, game: SaveGame, s: MenuState)
    ensures
        ({
            let (t, effect) = pressed(MenuAction::StartWorld(kind), None, s);
            &&& t.pending_load == Some(LoadKind::New { kind })
            &&& effect == MenuEffect::EnterGame
            &&& t.screen == s.screen && t.ret == s.ret && t.pending_save == s.pending_save
        }),
        ({
            let (t, effect) = pressed(MenuAction::Slot(SlotOp::Load, n), Some(game), s);
            &&& t.pending_load == Some(LoadKind::Load(game))
            &&& effect == MenuEffect::EnterGame
            &&& t.screen == s.screen && t.ret == s.ret && t.pending_save == s.pending_save
        }),
        pressed(MenuAction::Slot(SlotOp::Load, n), None, s) == (s, MenuEffect::Nothing),
        ({
            let (t, effect) = pressed(MenuAction::Slot(SlotOp::Save, n), None, s);
            &&& t.pending_save == Some(n)
            &&& t.pending_load == s.pending_load
            &&& effect == MenuEffect::Nothing
            &&& t.screen == s.screen && t.ret == s.ret
        }),
{
}

/// Quitting, resuming and saving the settings ask the application, and leave the menus
/// as they are; so do presets and toggles, which ask nothing.
pub proof fn other_buttons_leave_the_menus(
    loaded: Option<SaveGame>,
    s: MenuState,
    p: QualityPreset,
    t: Setting,
)
    ensures
        pressed(MenuAction::QuitDesktop, loaded, s) == (s, MenuEffect::Exit),
        pressed(MenuAction::QuitToMenu, loaded, s) == (s, MenuEffect::EnterMenu),
        pressed(MenuAction::Resume, loaded, s) == (s, MenuEffect::Unpause),
        pressed(MenuAction::SaveSettings, loaded, s) == (s, MenuEffect::WriteSettings),
        pressed(MenuAction::Preset(p), loaded, s) == (s, MenuEffect::Nothing),
        pressed(MenuAction::Toggle(t), loaded, s) == (s, MenuEffect::Nothing),
        pressed(MenuAction::Back, loaded, s) == (
            MenuState { screen: s.ret, ..s },
            MenuEffect::Nothing,
        ),
{
}

/// Only presets and toggles change the quality settings, each in its own way.
pub proof fn only_settings_buttons_change_quality(a: MenuAction, q: QualitySettings)
    ensures
        !(a is Preset || a is Toggle) ==> pressed_quality(a, q) == q,
        a matches MenuAction::Preset(p) ==> pressed_quality(a, q) == with_preset(p, q),
        a matches MenuAction::Toggle(t) ==> pressed_quality(a, q) == toggled(t, q),
{
}

/// A new world starts clean at the nearest land, walking, with the default material;
/// only the flat one has the test map. Only the city is flown through. A saved one has
/// its own edits, mode and material, and its own place.
pub proof fn entering_sets_up_the_world(load: LoadKind, plan: WorldLoadPlan)
    requires
        is_plan_of(load, plan),
    ensures
        plan.free_fly <==> plan.kind == WorldKind::City,
        load matches LoadKind::New { kind } ==> {
            &&& plan.kind == kind
            &&& plan.edits is StampTestMap <==> kind == WorldKind::TestFlat
            &&& plan.edits is Clear <==> kind != WorldKind::TestFlat
            &&& plan.spawn == SpawnPlan::NearestLand
            &&& plan.edit_mode == EditMode::Walk
            &&& plan.selected_material.0 == 10
        },
        load matches LoadKind::Load(game) ==> {
            &&& plan.spawn == SpawnPlan::Saved
            &&& plan.edits is Import
            &&& plan.edit_mode == game.edit_mode
            &&& plan.selected_material.0 == game.selected_material
        },
{
}

/// Which actions each screen offers, and in what order.
pub proof fn screens_offer_their_actions()
    ensures
        ({
            let b = screen_buttons(MenuScreen::MainRoot);
            &&& b.len() == 4
            &&& b[0].1 is OpenNewWorld && b[1].1 is OpenLoad && b[2].1 is OpenSettings
            &&& b[3].1 is QuitDesktop
        }),
        ({
            let b = screen_buttons(MenuScreen::PauseRoot);
            &&& b.len() == 5
            &&& b[0].1 is Resume && b[1].1 is OpenSave && b[2].1 is OpenSettings
            &&& b[3].1 is QuitToMenu && b[4].1 is QuitDesktop
        }),
        ({
            let b = screen_buttons(MenuScreen::NewWorld);
            &&& b.len() == 4
            &&& b[0].1 == MenuAction::StartWorld(WorldKind::City)
            &&& b[1].1 == MenuAction::StartWorld(WorldKind::TestFlat)
            &&& b[2].1 == MenuAction::StartWorld(WorldKind::Normal)
            &&& b[3].1 is Back
        }),
        ({
            let b = screen_buttons(MenuScreen::Settings);
            &&& b.len() == 12
            &&& b[0].1 == MenuAction::Preset(QualityPreset::Potato)
            &&& b[3].1 == MenuAction::Preset(QualityPreset::High)
            &&& b[10].1 is SaveSettings && b[11].1 is Back
            &&& forall|i: int| 4 <= i < 10 ==> (#[trigger] b[i]).1 is Toggle
        }),
        screen_buttons(MenuScreen::Hidden).len() == 0,
{
}

/// What a button with this action says.
pub open spec fn says(action: MenuAction) -> Seq<char> {
    match action {
        MenuAction::OpenNewWorld => "New Game"@,
        MenuAction::OpenLoad => "Load Game"@,
        MenuAction::OpenSave => "Save Game"@,
        MenuAction::OpenSettings => "Settings"@,
        MenuAction::Resume => "Resume"@,
        MenuAction::QuitToMenu => "Quit to Menu"@,
        MenuAction::Back => "Back"@,
        MenuAction::SaveSettings => "Save Settings"@,
        MenuAction::StartWorld(WorldKind::City) => "Cyberpunk City (free fly)"@,
        MenuAction::StartWorld(WorldKind::TestFlat) => "Test World (flat lab)"@,
        MenuAction::StartWorld(WorldKind::Normal) => "Normal World (procedural)"@,
        MenuAction::Preset(QualityPreset::Potato) => "Potato"@,
        MenuAction::Preset(QualityPreset::Low) => "Low"@,
        MenuAction::Preset(QualityPreset::Medium) => "Medium"@,
        MenuAction::Preset(QualityPreset::High) => "High"@,
        MenuAction::Toggle(Setting::Bloom) => "Bloom"@,
        MenuAction::Toggle(Setting::Ssao) => "SSAO"@,
        MenuAction::Toggle(Setting::MotionBlur) => "Motion Blur"@,
        MenuAction::Toggle(Setting::Dof) => "Depth of Field"@,
        MenuAction::Toggle(Setting::Foliage) => "Foliage"@,
        MenuAction::Toggle(Setting::Vsync) => "VSync"@,
        MenuAction::QuitDesktop => "Quit to Desktop"@,
        MenuAction::Slot(_, _) => ""@,
    }
}

/// A button says the same on every screen, but for the way out of the main menu, which
/// needs no more than a word.
pub proof fn buttons_say_what_they_do(screen: MenuScreen, i: int)
    requires
        0 <= i < screen_buttons(screen).len(),
    ensures
        ({
            let b = screen_buttons(screen)[i];
            b.0 == (if screen == MenuScreen::MainRoot && b.1 is QuitDesktop {
                "Quit"@
            } else {
                says(b.1)
            })
        }),
{
}

} // verus!
