//! Save games: their content, their migration between format versions, and the
//! slots they live in.

use vstd::prelude::*;
use vstd::string::*;

use crate::ieee::Single;
use crate::overrides::{VoxelEdit, WorldKind};
use crate::text::{decimal, push_decimal};

verus! {

/// Number of save slots the Load/Save menus show.
pub const SLOT_COUNT: u8 = 3;

/// Current on-disk save-format version.
///
/// Version 1 introduced two terrain materials at the front of the player-build
/// range, which shifted every built material index up by 2. Version 2 replaced
/// the camera's zoom by an orbit distance and a pitch.
pub const CURRENT_SAVE_VERSION: u32 = 2;

/// Default placed material.
pub const DEFAULT_BUILD_MATERIAL: u8 = 10;

/// What the mouse does, chosen by the player via the HUD mode buttons.
#[derive(Clone, Copy, Debug, PartialEq, Eq, Structural)]
pub enum EditMode {
    /// Normal play: left-click pathfinds (click-to-move).
    Walk,
    /// Editing: left-click places a block on the hovered face, right-click
    /// removes the hovered voxel.
    Build,
}

impl Default for EditMode {
    fn default() -> (m: EditMode)
        ensures
            m == EditMode::Walk,
    {
        EditMode::Walk
    }
}

/// The voxel material the player places in build mode, by raw index.
#[derive(Clone, Copy, Debug, PartialEq, Eq, Structural)]
pub struct SelectedMaterial(pub u8);

impl Default for SelectedMaterial {
    fn default() -> (m: SelectedMaterial)
        ensures
            m.0 == DEFAULT_BUILD_MATERIAL,
    {
        SelectedMaterial(DEFAULT_BUILD_MATERIAL)
    }
}

/// A persisted game: which world kind, every voxel edit, the player's
/// position/facing, the edit mode, and the camera view.
#[derive(Debug)]
pub struct SaveGame {
    /// Save-format version; 0 for saves that predate versioning.
    pub version: u32,
    /// Selected base world backend. Old saves did not have it: they are told by
    /// `flat`.
    pub world_kind: WorldKind,
    /// `true` = the flat test world; `false` = procedural terrain.
    pub flat: bool,
    /// Every player voxel edit as `([x,y,z], edit)`.
    pub edits: Vec<([i32; 3], VoxelEdit)>,
    /// Player entity (capsule-center) world position.
    pub player_pos: [Single; 3],
    /// Player facing yaw (radians).
    pub facing: Single,
    /// Walk/Build mode at save time.
    pub edit_mode: EditMode,
    /// The picker's selected build material (raw material index).
    pub selected_material: u8,
    /// Camera orbit yaw (radians).
    pub camera_yaw: Single,
    /// Camera orbit pitch (radians).
    pub camera_pitch: Single,
    /// Camera boom distance (world units).
    pub camera_distance: Single,
    /// Seconds-since-epoch the save was written, for the slot list.
    pub saved_at: u64,
}

/// The build material of a save that has none.
pub fn default_selected_material() -> (m: u8)
    ensures
        m == DEFAULT_BUILD_MATERIAL,
{
    DEFAULT_BUILD_MATERIAL
}

/// The camera pitch of a save that has none: 0.5.
pub fn default_camera_pitch() -> (v: Single)
    ensures
        v == Single(0x3f00_0000),
{
    Single(0x3f00_0000)
}

/// The camera distance of a save that has none: 12.
pub fn default_camera_distance() -> (v: Single)
    ensures
        v == Single(0x4140_0000),
{
    Single(0x4140_0000)
}

/// A raw material index of an unversioned save in the current palette: built
/// materials, from 4 on, moved up by 2.
pub open spec fn shifted(m: u8) -> u8 {
    if m >= 4 {
        (m + 2) as u8
    } else {
        m
    }
}

/// An edit with its material shifted. Removals have none.
pub open spec fn shifted_edit(e: ([i32; 3], VoxelEdit)) -> ([i32; 3], VoxelEdit) {
    match e.1 {
        VoxelEdit::Placed(m) => (e.0, VoxelEdit::Placed(shifted(m))),
        VoxelEdit::Removed => e,
    }
}

/// Every material index of the save can be shifted.
pub open spec fn shiftable(game: SaveGame) -> bool {
    &&& game.selected_material <= 253
    &&& forall|i: int|
        0 <= i < game.edits@.len() ==> ((#[trigger] game.edits@[i]).1 matches VoxelEdit::Placed(m)
            ==> m <= 253)
}

/// What a save is upgraded to.
pub open spec fn is_migrated(game: SaveGame, out: SaveGame) -> bool {
    if game.version >= 1 {
        out == game
    } else {
        &&& out.edits@ == game.edits@.map_values(|e: ([i32; 3], VoxelEdit)| shifted_edit(e))
        &&& out == (SaveGame {
            version: CURRENT_SAVE_VERSION,
            selected_material: shifted(game.selected_material),
            edits: out.edits,
            ..game
        })
    }
}

/// Upgrade a freshly-parsed [`SaveGame`]: a save that predates versioning has its
/// built materials moved up by 2 and is stamped with the current version. A
/// versioned save is returned unchanged.
pub fn migrate(game: SaveGame) -> (out: SaveGame)
    requires
        game.version == 0 ==> shiftable(game),
    ensures
        is_migrated(game, out),
{
    if game.version >= 1 {
        return game;
    }
    let mut game = game;
    let ghost before = game;
    let mut edits: Vec<([i32; 3], VoxelEdit)> = Vec::new();
    let mut i: usize = 0;
    while i < game.edits.len()
        invariant
            i <= game.edits@.len(),
            shiftable(game),
            edits@.len() == i,
            forall|k: int| 0 <= k < i ==> #[trigger] edits@[k] == shifted_edit(game.edits@[k]),
        decreases game.edits@.len() - i,
    {
        let (pos, edit) = game.edits[i];
        assert(game.edits@[i as int].1 matches VoxelEdit::Placed(m) ==> m <= 253);
        let edit = match edit {
            VoxelEdit::Placed(m) => VoxelEdit::Placed(
                if m >= 4 {
                    m + 2
                } else {
                    m
                },
            ),
            VoxelEdit::Removed => VoxelEdit::Removed,
        };
        edits.push((pos, edit));
        i += 1;
    }
    assert(edits@ =~= game.edits@.map_values(|e: ([i32; 3], VoxelEdit)| shifted_edit(e)));
    game.edits = edits;
    if game.selected_material >= 4 {
        game.selected_material = game.selected_material + 2;
    }
    game.version = CURRENT_SAVE_VERSION;
    game
}

/// Migrating twice is migrating once.
pub proof fn migration_is_idempotent(game: SaveGame, once: SaveGame, twice: SaveGame)
    requires
        is_migrated(game, once),
        is_migrated(once, twice),
    ensures
        twice == once,
{
}

/// A save of the live world, at the current version.
pub open spec fn fresh_save(
    world_kind: WorldKind,
    edits: Vec<([i32; 3], VoxelEdit)>,
    player_pos: [Single; 3],
    facing: Single,
    edit_mode: EditMode,
    selected: SelectedMaterial,
    camera: (Single, Single, Single),
    saved_at: u64,
) -> SaveGame {
    SaveGame {
        version: CURRENT_SAVE_VERSION,
        world_kind,
        flat: world_kind == WorldKind::TestFlat,
        edits,
        player_pos,
        facing,
        edit_mode,
        selected_material: selected.0,
        camera_yaw: camera.0,
        camera_pitch: camera.1,
        camera_distance: camera.2,
        saved_at,
    }
}

/// A save of the live world is written at the current version. `camera` is its
/// yaw, pitch and distance.
pub fn new_save(
    world_kind: WorldKind,
    edits: Vec<([i32; 3], VoxelEdit)>,
    player_pos: [Single; 3],
    facing: Single,
    edit_mode: EditMode,
    selected: SelectedMaterial,
    camera: (Single, Single, Single),
    saved_at: u64,
) -> (game: SaveGame)
    ensures
        game == fresh_save(
            world_kind,
            edits,
            player_pos,
            facing,
            edit_mode,
            selected,
            camera,
            saved_at,
        ),
{
    SaveGame {
        version: CURRENT_SAVE_VERSION,
        world_kind,
        flat: world_kind == WorldKind::TestFlat,
        edits,
        player_pos,
        facing,
        edit_mode,
        selected_material: selected.0,
        camera_yaw: camera.0,
        camera_pitch: camera.1,
        camera_distance: camera.2,
        saved_at,
    }
}

/// The world of a save. Old saves did not name it: they are told by `flat`.
pub open spec fn saved_kind(game: SaveGame) -> WorldKind {
    if game.flat && game.world_kind == WorldKind::Normal {
        WorldKind::TestFlat
    } else {
        game.world_kind
    }
}

pub fn resolve_kind(game: &SaveGame) -> (k: WorldKind)
    ensures
        k == saved_kind(*game),
{
    if game.flat && game.world_kind == WorldKind::Normal {
        WorldKind::TestFlat
    } else {
        game.world_kind
    }
}

/// The directory of the save slots, relative to the working directory.
pub fn saves_dir() -> (s: &'static str)
    ensures
        s@ == "saves"@,
{
    "saves"
}

/// The file of a slot (0-based); files count from 1.
pub fn slot_path(slot: u8) -> (s: String)
    requires
        slot < 255,
    ensures
        s@ == "saves/slot"@ + decimal((slot + 1) as nat) + ".ron"@,
{
    let mut s = "saves/slot".to_owned();
    push_decimal(&mut s, slot as u64 + 1);
    s.append(".ron");
    s
}

/// A one-line summary for the slot list: the number of edits and the age in
/// seconds of the save, or `None` for an empty slot.
pub fn slot_summary(game: &Option<SaveGame>, now: u64) -> (r: Option<(usize, u64)>)
    ensures
        r == (match *game {
            Some(g) => Some(
                (
                    g.edits@.len() as usize,
                    (if now > g.saved_at {
                        now - g.saved_at
                    } else {
                        0
                    }) as u64,
                ),
            ),
            None => None,
        }),
{
    match game {
        Some(g) => Some((g.edits.len(), now.saturating_sub(g.saved_at))),
        None => None,
    }
}

/// A coarse age.
pub open spec fn age_text(secs: int) -> Seq<char> {
    if secs < 90 {
        "just now"@
    } else if secs < 3600 {
        decimal((secs / 60) as nat) + "m ago"@
    } else if secs < 86_400 {
        decimal((secs / 3600) as nat) + "h ago"@
    } else {
        decimal((secs / 86_400) as nat) + "d ago"@
    }
}

/// Coarse "x ago" label for a save's age in seconds.
pub fn age_label(secs: u64) -> (s: String)
    ensures
        s@ == age_text(secs as int),
{
    if secs < 90 {
        return "just now".to_owned();
    }
    let mut s = String::new();
    if secs < 3600 {
        push_decimal(&mut s, secs / 60);
        s.append("m ago");
        assert(s@ =~= age_text(secs as int));
    } else if secs < 86_400 {
        push_decimal(&mut s, secs / 3600);
        s.append("h ago");
        assert(s@ =~= age_text(secs as int));
    } else {
        push_decimal(&mut s, secs / 86_400);
        s.append("d ago");
        assert(s@ =~= age_text(secs as int));
    }
    s
}

/// The label of a slot button.
pub fn slot_label(slot: u8, summary: Option<(usize, u64)>) -> (s: String)
    requires
        slot < 255,
    ensures
        s@ == "Slot "@ + decimal((slot + 1) as nat) + (match summary {
            Some((edits, age)) => " — "@ + decimal(edits as nat) + " edits, "@ + age_text(
                age as int,
            ),
            None => " — empty"@,
        }),
{
    let mut s = "Slot ".to_owned();
    push_decimal(&mut s, slot as u64 + 1);
    let ghost head = s@;
    match summary {
        Some((edits, age)) => {
            s.append(" — ");
            push_decimal(&mut s, edits as u64);
            s.append(" edits, ");
            let ago = age_label(age);
            s.append(ago.as_str());
            assert(s@ =~= head + (" — "@ + decimal(edits as nat) + " edits, "@ + age_text(
                age as int,
            )));
        },
        None => {
            s.append(" — empty");
        },
    }
    s
}

/// What an old save becomes: each placed material from 4 on is 2 higher, lower ones and
/// removals stay, each edit keeps its voxel, and everything else is as it was. A save
/// that has a version is not touched.
pub proof fn migration_moves_built_materials(game: SaveGame, out: SaveGame, i: int)
    requires
        is_migrated(game, out),
        game.version == 0 ==> shiftable(game),
        0 <= i < game.edits@.len(),
    ensures
        game.version >= 1 ==> out == game,
        out.edits@.len() == game.edits@.len(),
        out.edits@[i].0 == game.edits@[i].0,
        game.version == 0 ==> {
            &&& out.version == 2
            &&& game.edits@[i].1 is Removed ==> out.edits@[i].1 is Removed
            &&& game.edits@[i].1 matches VoxelEdit::Placed(m) ==> (out.edits@[i].1 matches
                VoxelEdit::Placed(k) && k == (if m >= 4 {
                m + 2
            } else {
                m as int
            }))
            &&& out.selected_material == (if game.selected_material >= 4 {
                game.selected_material + 2
            } else {
                game.selected_material as int
            })
        },
        out.world_kind == game.world_kind && out.flat == game.flat && out.player_pos
            == game.player_pos && out.facing == game.facing && out.edit_mode == game.edit_mode
            && out.camera_yaw == game.camera_yaw && out.camera_pitch == game.camera_pitch
            && out.camera_distance == game.camera_distance && out.saved_at == game.saved_at,
{
    assert(game.edits@[i].1 matches VoxelEdit::Placed(m) ==> game.version == 0 ==> m <= 253);
}

/// Moved materials stay apart: no two become one.
pub proof fn moved_materials_stay_apart(a: u8, b: u8)
    requires
        a <= 253,
        b <= 253,
    ensures
        shifted(a) == shifted(b) ==> a == b,
        a < b ==> shifted(a) < shifted(b),
        shifted(a) == a <==> a < 4,
{
}

/// A save names its world; one from before that did is flat exactly if it says so.
pub proof fn old_saves_tell_the_world_by_flatness(game: SaveGame)
    ensures
        game.world_kind != WorldKind::Normal ==> saved_kind(game) == game.world_kind,
        game.world_kind == WorldKind::Normal && game.flat ==> saved_kind(game)
            == WorldKind::TestFlat,
        game.world_kind == WorldKind::Normal && !game.flat ==> saved_kind(game)
            == WorldKind::Normal,
{
}

/// An age is told in the largest unit that fits: in minutes up to an hour, in hours up
/// to a day, and in days from there; under a minute and a half it is just now.
pub proof fn ages_are_told_in_the_largest_unit(secs: int)
    requires
        secs >= 0,
    ensures
        secs < 90 ==> age_text(secs) == "just now"@,
        90 <= secs < 60 * 60 ==> exists|n: nat|
            60 * n <= secs < 60 * (n + 1) && age_text(secs) == #[trigger] decimal(n) + "m ago"@,
        60 * 60 <= secs < 24 * 60 * 60 ==> exists|n: nat|
            60 * 60 * n <= secs < 60 * 60 * (n + 1) && age_text(secs) == #[trigger] decimal(n)
                + "h ago"@,
        secs >= 24 * 60 * 60 ==> exists|n: nat|
            24 * 60 * 60 * n <= secs < 24 * 60 * 60 * (n + 1) && age_text(secs)
                == #[trigger] decimal(n) + "d ago"@,
{
    let m = (secs / 60) as nat;
    let h = (secs / 3600) as nat;
    let d = (secs / 86_400) as nat;
    assert(60 * m <= secs < 60 * (m + 1));
    assert(3600 * h <= secs < 3600 * (h + 1));
    assert(86_400 * d <= secs < 86_400 * (d + 1));
    assert(decimal(m).len() >= 0 && decimal(h).len() >= 0 && decimal(d).len() >= 0);
}

/// A fresh save says what it was made from.
pub proof fn fresh_saves_hold_the_world(
    world_kind: WorldKind,
    edits: Vec<([i32; 3], VoxelEdit)>,
    player_pos: [Single; 3],
    facing: Single,
    edit_mode: EditMode,
    selected: SelectedMaterial,
    camera: (Single, Single, Single),
    saved_at: u64,
)
    ensures
        ({
            let g = fresh_save(
                world_kind,
                edits,
                player_pos,
                facing,
                edit_mode,
                selected,
                camera,
                saved_at,
            );
            &&& g.version == 2
            &&& saved_kind(g) == world_kind
            &&& g.flat <==> world_kind == WorldKind::TestFlat
            &&& g.edits@ == edits@
            &&& g.player_pos == player_pos
            &&& g.facing == facing
            &&& g.edit_mode == edit_mode
            &&& g.selected_material == selected.0
            &&& g.camera_yaw == camera.0
            &&& g.camera_pitch == camera.1
            &&& g.camera_distance == camera.2
            &&& g.saved_at == saved_at
        }),
{
}

} // verus!
