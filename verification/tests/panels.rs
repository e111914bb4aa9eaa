use inf3d::editor::palette::BlockMaterial;
use inf3d::editor::palette::Palette;
use inf3d::editor::panels::{
    apply_action, flatten_tree, IoOutcome, LoadedProject, PendingAction, UiScratch,
};
use inf3d::editor::parts::{default_character_parts, default_item_parts, ObjectType, Pivot};
use inf3d::editor::project::{IoError, ProjectEntry};
use inf3d::editor::sections::{
    add_custom_color, add_part_request, delete_part_request, is_renaming, load_request, move_pivot,
    parent_name, recolor_active, rename_part_request, rename_project_request, reparent_request,
    reparent_targets, rig_heading, row_label, start_rename, switch_type_request, sync_rename,
};
use inf3d::editor::state::{EditorState, Tool};
use inf3d::editor::volume::VoxelModel;
use inf3d::editor::voxel_map::{Cell, PartId, Voxel};

fn blocks() -> Vec<BlockMaterial> {
    vec![BlockMaterial { index: 10, color: [9, 8, 7], label: "Dirt" }]
}

fn scratch() -> UiScratch {
    UiScratch {
        rename_buf: String::new(),
        renaming: None,
        new_part_buf: String::new(),
        part_rename_buf: String::new(),
        part_rename_for: Some(0),
        custom_rgb: [0, 0, 0],
    }
}

fn apply(state: &mut EditorState, action: PendingAction, outcome: IoOutcome) -> bool {
    apply_action(action, outcome, state, &mut scratch(), &blocks())
}

#[test]
fn parts_are_listed_depth_first() {
    let mut tree = default_character_parts();
    let hand = tree.add("RightHand".to_string(), PartId(2));
    let mut model = VoxelModel::new(8, 1);
    model.set(Cell::new(0, 0, 0), Voxel { color: 0, part: hand });
    let rows = flatten_tree(&tree, &model);
    let shape: Vec<(u32, usize, usize)> = rows.iter().map(|r| (r.id.0, r.depth, r.count)).collect();
    assert_eq!(
        shape,
        vec![(0, 0, 0), (1, 1, 0), (2, 1, 0), (6, 2, 1), (3, 1, 0), (4, 1, 0), (5, 1, 0)]
    );
    assert_eq!(row_label(&rows[3]), "RightHand (1)");
    assert_eq!(
        rig_heading(ObjectType::Character, 7),
        "Select the body part you are editing (7 parts):"
    );
}

#[test]
fn part_actions_change_the_tree() {
    let mut s = EditorState::new_default(&blocks());
    let mut sc = scratch();
    let add = PendingAction::AddPart { parent: PartId(2), name: "Hand".to_string() };
    assert!(!apply_action(add, IoOutcome::Nothing, &mut s, &mut sc, &blocks()));
    assert_eq!((s.active_part, s.status.as_str()), (PartId(6), "Added part"));
    assert_eq!(sc.part_rename_for, None);
    apply(
        &mut s,
        PendingAction::RenamePart { id: PartId(6), name: "Paw".to_string() },
        IoOutcome::Nothing,
    );
    assert_eq!(s.tree.get(PartId(6)).map(|p| p.name.as_str()), Some("Paw"));
    apply(
        &mut s,
        PendingAction::Reparent { child: PartId(6), new_parent: PartId(0) },
        IoOutcome::Nothing,
    );
    assert_eq!(s.tree.get(PartId(6)).and_then(|p| p.parent), Some(PartId(0)));
    s.paint(Cell::new(0, 0, 0));
    assert_eq!(s.model.part_voxel_count(PartId(6)), 1);
    apply(&mut s, PendingAction::DeletePart(PartId(6)), IoOutcome::Nothing);
    assert!(s.tree.get(PartId(6)).is_none());
    assert_eq!(s.model.voxel_count(), 0);
    s.paint(Cell::new(1, 0, 0));
    apply(&mut s, PendingAction::ClearGeometry, IoOutcome::Nothing);
    assert_eq!(s.model.voxel_count(), 0);
}

#[test]
fn file_actions_report_their_outcome() {
    let mut s = EditorState::new_default(&blocks());
    assert!(apply(&mut s, PendingAction::Save, IoOutcome::Saved(Ok([1, 2, 3]))));
    assert_eq!(s.status, "Saved 'untitled'  (1×2×3 vox)");
    apply(&mut s, PendingAction::Save, IoOutcome::Saved(Err(IoError::Empty)));
    assert_eq!(s.status, "Save failed: model is empty — nothing to save");
    let rename = || PendingAction::Rename { from: "untitled".to_string(), to: "b".to_string() };
    apply(&mut s, rename(), IoOutcome::Done(Err(IoError::Fs("busy".to_string()))));
    assert_eq!(
        (s.name.as_str(), s.status.as_str()),
        ("untitled", "Rename failed: filesystem error: busy")
    );
    assert!(apply(&mut s, rename(), IoOutcome::Done(Ok(()))));
    assert_eq!((s.name.as_str(), s.status.as_str()), ("b", "Renamed 'untitled' → 'b'"));
    assert!(apply(&mut s, PendingAction::Delete("b".to_string()), IoOutcome::Done(Ok(()))));
    assert_eq!(s.status, "Deleted 'b'");
    let mut model = VoxelModel::new(8, 1);
    model.set(Cell::new(0, 0, 0), Voxel { color: 0, part: PartId(0) });
    let project = LoadedProject {
        model,
        tree: default_item_parts(),
        palette: Palette::from_rgbs(&blocks(), &[[1, 1, 1]]),
        object_type: ObjectType::Item,
    };
    s.active_color = 5;
    s.tool = Tool::Erase;
    apply(&mut s, PendingAction::Load("cup".to_string()), IoOutcome::Loaded(Ok(project)));
    assert_eq!(s.status, "Loaded 'cup'  (1 vox)");
    assert_eq!((s.active_color, s.tool, s.object_type), (0, Tool::Paint, ObjectType::Item));
    let bad = IoOutcome::Loaded(Err(IoError::BadSidecar("x".to_string())));
    apply(&mut s, PendingAction::Load("cap".to_string()), bad);
    assert_eq!(s.status, "Load failed: could not read rig sidecar: x");
    assert_eq!(s.name, "cup");
    apply(&mut s, PendingAction::New(ObjectType::Character), IoOutcome::Nothing);
    assert_eq!((s.status.as_str(), s.tree.len()), ("New Character", 6));
}

#[test]
fn requests_need_a_reason() {
    let tree = default_character_parts();
    let mut sc = scratch();
    sc.part_rename_for = None;
    sync_rename(&mut sc, &tree, PartId(1));
    assert_eq!((sc.part_rename_buf.as_str(), sc.part_rename_for), ("Head", Some(1)));
    assert!(rename_part_request(&tree, PartId(1), " Head ").is_none());
    assert!(rename_part_request(&tree, PartId(1), "  ").is_none());
    assert!(matches!(
        rename_part_request(&tree, PartId(1), " Skull "),
        Some(PendingAction::RenamePart { id: PartId(1), name }) if name == "Skull"
    ));
    assert!(add_part_request(PartId(0), " \n").is_none());
    assert!(matches!(
        add_part_request(PartId(0), "Tail"),
        Some(PendingAction::AddPart { parent: PartId(0), name }) if name == "Tail"
    ));
    assert_eq!(reparent_targets(&tree, PartId(0)).len(), 5);
    assert_eq!((parent_name(&tree, PartId(1)), parent_name(&tree, PartId(0))), ("Torso".to_string(), "—".to_string()));
    assert!(reparent_request(&tree, PartId(1), PartId(0)).is_none());
    assert!(reparent_request(&tree, PartId(0), PartId(1)).is_none());
    assert!(reparent_request(&tree, PartId(1), PartId(2)).is_some());
    assert!(delete_part_request(&tree, PartId(0)).is_none());
    assert!(delete_part_request(&tree, PartId(3)).is_some());
    assert!(switch_type_request(ObjectType::Item, ObjectType::Item).is_none());
    assert!(switch_type_request(ObjectType::Item, ObjectType::Character).is_some());
}

#[test]
fn projects_are_renamed_and_loaded() {
    let rigged = ProjectEntry { name: "hero".to_string(), has_rig: true };
    let bare = ProjectEntry { name: "rock".to_string(), has_rig: false };
    assert!(load_request(&rigged).is_some());
    assert!(load_request(&bare).is_none());
    assert!(rename_project_request(&rigged, "hero").is_none());
    assert!(matches!(
        rename_project_request(&rigged, " champion "),
        Some(PendingAction::Rename { from, to }) if from == "hero" && to == "champion"
    ));
    let mut sc = scratch();
    start_rename(&mut sc, &rigged);
    assert!(is_renaming(&sc, &rigged) && !is_renaming(&sc, &bare));
    assert_eq!(sc.rename_buf, "hero");
}

#[test]
fn colors_and_pivots_are_edited() {
    let mut s = EditorState::new_default(&blocks());
    s.dirty = false;
    recolor_active(&mut s, [3, 4, 5]);
    assert_eq!(s.palette.rgb(s.active_color), [3, 4, 5]);
    assert!(s.dirty);
    let before = s.palette.len();
    add_custom_color(&mut s, [6, 6, 6]);
    assert_eq!((s.palette.len(), s.active_color as usize), (before + 1, before));
    move_pivot(&mut s, Pivot { x: 1, y: 1, z: 1 });
    assert_eq!(s.tree.get(s.active_part).map(|p| p.pivot), Some(Pivot { x: 1, y: 1, z: 1 }));
}
