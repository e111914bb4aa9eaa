use inf3d::editor::mesh::{face_corners, face_normal, visible_faces, Face};
use inf3d::editor::overlay::{fine_lines, pivot_marks, reference_blocks};
use inf3d::editor::paint::{apply_click, march_cap, platform_cell, raycast, Axis, RayHit};
use inf3d::editor::palette::{game_label_for, BlockMaterial, Palette};
use inf3d::editor::parts::{
    default_character_parts, default_item_parts, default_parts, ObjectType, Part, PartTree, Pivot,
};
use inf3d::editor::project::{
    build_scene, export_model, list_projects, models_dir, project_files, project_stem,
    rename_moves, rig_path, vox_path, IoError,
};
use inf3d::editor::rig::{RigDoc, RigPart, RigVoxel};
use inf3d::editor::state::{EditorState, Tool};
use inf3d::editor::volume::{resolution_choices, VoxelModel};
use inf3d::editor::vox_writer::{push_chunk, write_vox, VoxScene, VoxVoxel};
use inf3d::editor::voxel_map::{Cell, PartId, Voxel};
use inf3d::grid::IVec3;

fn blocks() -> Vec<BlockMaterial> {
    vec![
        BlockMaterial { index: 10, color: [0x6b, 0x4f, 0x2a], label: "Dirt" },
        BlockMaterial { index: 11, color: [0x80, 0x80, 0x80], label: "Stone" },
        BlockMaterial { index: 12, color: [0xc2, 0x8a, 0x4a], label: "Wood" },
    ]
}

fn game_palette() -> Palette {
    Palette::default_game(&blocks())
}

fn vox(color: u8) -> Voxel {
    Voxel { color, part: PartId(0) }
}

fn sub_voxel_size(m: &VoxelModel) -> f32 {
    1.0 / m.resolution() as f32
}

/// The grid column of a point, and the axes a ray crosses in order.
fn march(model: &VoxelModel, origin: [f32; 3], dir: [f32; 3]) -> (IVec3, IVec3, Vec<Axis>) {
    let s = sub_voxel_size(model);
    let cell = |v: f32| (v / s).floor() as i32;
    let start = IVec3::new(cell(origin[0]), cell(origin[1]), cell(origin[2]));
    let sign = |v: f32| if v > 0.0 { 1 } else if v < 0.0 { -1 } else { 0 };
    let step = IVec3::new(sign(dir[0]), sign(dir[1]), sign(dir[2]));
    let at = [start.x, start.y, start.z];
    let st = [step.x, step.y, step.z];
    let mut t = [f32::INFINITY; 3];
    let mut dt = [f32::INFINITY; 3];
    for i in 0..3 {
        if st[i] != 0 {
            let border = (at[i] + st[i].max(0)) as f32 * s;
            t[i] = (border - origin[i]) / dir[i];
            dt[i] = (s / dir[i]).abs();
        }
    }
    let cap = march_cap(start, model.extent());
    let mut axes = Vec::new();
    for _ in 0..cap {
        let a = if t[0] <= t[1] && t[0] <= t[2] { 0 } else if t[1] <= t[2] { 1 } else { 2 };
        t[a] += dt[a];
        axes.push([Axis::X, Axis::Y, Axis::Z][a]);
    }
    (start, step, axes)
}

fn cast(model: &VoxelModel, origin: [f32; 3], dir: [f32; 3]) -> Option<RayHit> {
    let (start, step, axes) = march(model, origin, dir);
    raycast(model, start, step, &axes)
}

/// The platform cell below a point, for a ray straight down.
fn floor_cell_below(model: &VoxelModel, x: f32, z: f32) -> Cell {
    let s = sub_voxel_size(model);
    platform_cell(model, (x / s).floor() as i32, (z / s).floor() as i32)
}

#[test]
fn default_palette_starts_with_game_blocks() {
    let p = game_palette();
    assert!(p.len() >= blocks().len());
    for (i, m) in blocks().iter().enumerate() {
        assert_eq!(p.rgb(i as u8), m.color);
    }
    assert_eq!(p.len(), blocks().len() + 10);
}

#[test]
fn push_and_edit_custom() {
    let mut p = game_palette();
    let before = p.len();
    let idx = p.push_custom([1, 2, 3]).expect("room");
    assert_eq!(p.len(), before + 1);
    assert_eq!(p.rgb(idx), [1, 2, 3]);
    p.set_rgb(idx, [9, 9, 9]);
    assert_eq!(p.rgb(idx), [9, 9, 9]);
}

#[test]
fn out_of_range_rgb_is_magenta() {
    let p = game_palette();
    assert_eq!(p.rgb(250), [0xff, 0x00, 0xff]);
}

#[test]
fn palette_fills_up() {
    let mut p = game_palette();
    let mut last = 0;
    while let Some(i) = p.push_custom([7, 7, 7]) {
        last = i;
    }
    assert_eq!((p.len(), last), (255, 254));
    p.set_rgb(255, [1, 1, 1]);
    assert_eq!(p.rgb(255), [0xff, 0, 0xff]);
}

#[test]
fn palette_survives_its_colors() {
    let mut p = game_palette();
    p.push_custom([1, 2, 3]);
    let q = Palette::from_rgbs(&blocks(), &p.rgbs());
    assert_eq!(q.rgbs(), p.rgbs());
    assert_eq!(q.get(1).map(|c| c.name), Some("Stone"));
    assert_eq!(q.iter().len(), p.len());
    assert_eq!(q.get(13).map(|c| c.name), Some("Loaded"));
    // an empty list still gives one color
    assert_eq!(Palette::from_rgbs(&blocks(), &[]).rgbs(), vec![[0xff, 0xff, 0xff]]);
    assert_eq!(game_label_for(&blocks(), [0x80, 0x80, 0x80]), Some("Stone"));
    assert_eq!(game_label_for(&blocks(), [1, 2, 3]), None);
}

#[test]
fn extent_is_resolution_times_blocks() {
    let m = VoxelModel::new(16, 3);
    assert_eq!(m.extent(), 48);
    assert!((sub_voxel_size(&m) - 1.0 / 16.0).abs() < 1e-6);
}

#[test]
fn set_respects_bounds() {
    let mut m = VoxelModel::new(8, 1);
    assert!(m.set(Cell::new(0, 0, 0), vox(1)));
    assert!(m.set(Cell::new(7, 7, 7), vox(1)));
    assert!(!m.set(Cell::new(8, 0, 0), vox(1)));
    assert!(!m.set(Cell::new(-1, 0, 0), vox(1)));
    assert_eq!(m.voxel_count(), 2);
}

#[test]
fn set_reports_change_only_on_difference() {
    let mut m = VoxelModel::new(8, 1);
    assert!(m.set(Cell::new(1, 1, 1), vox(1)));
    assert!(!m.set(Cell::new(1, 1, 1), vox(1)));
    assert!(m.set(Cell::new(1, 1, 1), vox(2)));
}

#[test]
fn clear_and_remove_part() {
    let mut m = VoxelModel::new(8, 1);
    m.set(Cell::new(0, 0, 0), Voxel { color: 1, part: PartId(0) });
    m.set(Cell::new(1, 0, 0), Voxel { color: 1, part: PartId(1) });
    assert_eq!(m.part_voxel_count(PartId(0)), 1);
    m.remove_part(PartId(0));
    assert_eq!(m.voxel_count(), 1);
    assert!(m.clear(Cell::new(1, 0, 0)));
    assert!(!m.clear(Cell::new(1, 0, 0)));
}

#[test]
fn occupied_bounds_tracks_min_max() {
    let mut m = VoxelModel::new(16, 2);
    assert!(m.occupied_bounds().is_none());
    m.set(Cell::new(3, 4, 5), vox(1));
    m.set(Cell::new(10, 2, 8), vox(1));
    let (min, max) = m.occupied_bounds().expect("bounds");
    assert_eq!(min, Cell::new(3, 2, 5));
    assert_eq!(max, Cell::new(10, 4, 8));
}

#[test]
fn model_sizes_are_clamped() {
    let m = VoxelModel::new(1, 0);
    assert_eq!((m.resolution(), m.blocks()), (4, 1));
    let m = VoxelModel::new(1000, 1000);
    assert_eq!((m.resolution(), m.blocks()), (32, 4));
    assert_eq!(resolution_choices(), [8, 16, 24, 32]);
    let d = VoxelModel::default();
    assert_eq!((d.resolution(), d.blocks()), (16, 1));
}

#[test]
fn resizing_keeps_what_still_fits() {
    let mut m = VoxelModel::new(8, 2);
    m.set(Cell::new(0, 0, 0), vox(1));
    m.set(Cell::new(15, 0, 0), vox(2));
    let small = m.resized(1);
    assert_eq!(small.voxel_count(), 1);
    assert!(small.is_solid(Cell::new(0, 0, 0)));
    assert_eq!(m.resized(4).voxel_count(), 2);
}

#[test]
fn character_seed_has_torso_root_and_five_children() {
    let tree = default_character_parts();
    assert_eq!(tree.len(), 6);
    let root = tree.root();
    assert_eq!(tree.get(root).map(|p| p.name.as_str()), Some("Torso"));
    assert_eq!(tree.children(root).len(), 5);
}

#[test]
fn joints_sit_where_a_humanoid_bends() {
    let tree = default_character_parts();
    let joints: Vec<(String, [f32; 3])> = tree
        .iter()
        .iter()
        .map(|p| (p.name.clone(), [p.pivot.x, p.pivot.y, p.pivot.z].map(f32::from_bits)))
        .collect();
    let expected = [
        ("Torso", [0.5, 0.9, 0.5]),
        ("Head", [0.5, 1.5, 0.5]),
        ("RightArm", [0.15, 1.3, 0.5]),
        ("LeftArm", [0.85, 1.3, 0.5]),
        ("RightLeg", [0.35, 0.6, 0.5]),
        ("LeftLeg", [0.65, 0.6, 0.5]),
    ];
    assert_eq!(joints, expected.map(|(n, p)| (n.to_string(), p)).to_vec());
    let body = default_item_parts();
    let pivot = body.get(PartId(0)).expect("root").pivot;
    assert_eq!([pivot.x, pivot.y, pivot.z].map(f32::from_bits), [0.5, 0.5, 0.5]);
    // a new part starts at its parent's joint
    let mut tree = default_character_parts();
    let hand = tree.add("Hand".to_string(), PartId(2));
    assert_eq!(tree.get(hand).map(|p| p.pivot), tree.get(PartId(2)).map(|p| p.pivot));
}

#[test]
fn add_then_reparent_rejects_cycle() {
    let mut tree = default_character_parts();
    let torso = tree.root();
    let arm = PartId(2);
    let hand = tree.add("RightHand".to_string(), arm);
    assert!(!tree.reparent(arm, hand));
    assert!(tree.reparent(hand, torso));
    assert_eq!(tree.get(hand).and_then(|p| p.parent), Some(torso));
}

#[test]
fn remove_reparents_children_and_protects_root() {
    let mut tree = default_character_parts();
    let torso = tree.root();
    let arm = PartId(2);
    let hand = tree.add("RightHand".to_string(), arm);
    let removed = tree.remove(arm);
    assert_eq!(removed, vec![arm]);
    assert!(tree.get(arm).is_none());
    assert_eq!(tree.get(hand).and_then(|p| p.parent), Some(torso));
    assert!(tree.remove(torso).is_empty());
}

#[test]
fn item_seeds_one_body_part_and_supports_multi_part() {
    let mut tree = default_item_parts();
    assert_eq!(tree.len(), 1);
    let body = tree.root();
    assert_eq!(tree.get(body).map(|p| p.name.as_str()), Some("Body"));

    let lid = tree.add("Lid".to_string(), body);
    let hinge = tree.add("Hinge".to_string(), lid);
    assert_eq!(tree.len(), 3);
    assert_eq!(tree.get(hinge).and_then(|p| p.parent), Some(lid));
    assert!(!tree.reparent(lid, hinge));
    assert_eq!(tree.remove(lid), vec![lid]);
    assert_eq!(tree.get(hinge).and_then(|p| p.parent), Some(body));
    assert!(tree.remove(body).is_empty());
}

#[test]
fn removed_ids_are_not_handed_out_again() {
    let mut tree = default_item_parts();
    let a = tree.add("A".to_string(), PartId(0));
    tree.remove(a);
    let b = tree.add("B".to_string(), PartId(0));
    assert_ne!(a, b);
    assert_eq!((tree.len(), tree.slots()), (2, 3));
    assert!(tree.remove(a).is_empty());
    assert!(!tree.reparent(PartId(0), b));
}

#[test]
fn descendants_follow_the_parents() {
    let mut tree = default_character_parts();
    let hand = tree.add("Hand".to_string(), PartId(2));
    assert!(tree.is_descendant(hand, PartId(2)));
    assert!(tree.is_descendant(hand, PartId(0)));
    assert!(!tree.is_descendant(PartId(2), hand));
    assert!(tree.is_descendant(PartId(2), PartId(2)));
    let torso = default_parts(ObjectType::Character);
    assert_eq!(torso.len(), 6);
    assert_eq!(ObjectType::Item.label(), "Item");
}

#[test]
fn circular_chains_are_told_apart() {
    let part = |id: u32, parent: Option<u32>| {
        Some(Part {
            id: PartId(id),
            name: "P".to_string(),
            parent: parent.map(PartId),
            pivot: Pivot { x: 0, y: 0, z: 0 },
        })
    };
    let tree = PartTree::from_arena(
        vec![part(0, None), part(1, Some(2)), part(2, Some(1)), part(3, Some(0))],
        PartId(0),
    );
    assert!(tree.chain_ends(PartId(0)) && tree.chain_ends(PartId(3)));
    assert!(!tree.chain_ends(PartId(1)) && !tree.chain_ends(PartId(2)));
    assert!(tree.chain_ends(PartId(99)));
    // a circular chain that meets the part is still a rejected move
    assert!(tree.is_descendant(PartId(1), PartId(2)));
}

#[test]
fn part_names_and_pivots_can_be_edited() {
    let mut tree = default_item_parts();
    if let Some(p) = tree.get_mut(PartId(0)) {
        p.pivot = Pivot { x: 1, y: 2, z: 3 };
    }
    assert_eq!(tree.get(PartId(0)).map(|p| p.pivot), Some(Pivot { x: 1, y: 2, z: 3 }));
    assert!(tree.get_mut(PartId(9)).is_none());
}

#[test]
fn floor_cell_lands_inside_footprint() {
    let model = VoxelModel::new(8, 1);
    let cell = floor_cell_below(&model, 0.5, 0.5);
    assert_eq!(cell.y, 0);
    assert_eq!((cell.x, cell.z), (4, 4));
}

#[test]
fn floor_cell_clamps_to_footprint_edge() {
    let model = VoxelModel::new(8, 1);
    let cell = floor_cell_below(&model, 1.4, 0.5);
    assert_eq!((cell.x, cell.z, cell.y), (7, 4, 0));
}

#[test]
fn raycast_hits_solid_and_offers_neighbor() {
    let mut model = VoxelModel::new(8, 1);
    model.set(Cell::new(4, 4, 4), vox(0));
    let s = sub_voxel_size(&model);
    let hit = cast(&model, [-1.0, 4.5 * s, 4.5 * s], [1.0, 0.0, 0.0]).expect("hit");
    assert_eq!(hit.solid_cell, Cell::new(4, 4, 4));
    assert_eq!(hit.place_cell, Some(Cell::new(3, 4, 4)));
}

#[test]
fn raycast_misses_empty_model() {
    let model = VoxelModel::new(8, 1);
    assert!(cast(&model, [-1.0, 0.5, 0.5], [1.0, 0.0, 0.0]).is_none());
}

#[test]
fn raycast_inside_solid_has_no_place_cell() {
    let mut model = VoxelModel::new(8, 1);
    model.set(Cell::new(4, 4, 4), vox(0));
    let s = sub_voxel_size(&model);
    let hit = cast(&model, [4.5 * s, 4.5 * s, 4.5 * s], [1.0, 0.0, 0.0]).expect("hit");
    assert_eq!(hit.solid_cell, Cell::new(4, 4, 4));
    assert_eq!(hit.place_cell, None);
}

#[test]
fn raycast_reaches_the_volume_from_afar() {
    let mut model = VoxelModel::new(8, 1);
    model.set(Cell::new(0, 4, 4), vox(0));
    let s = sub_voxel_size(&model);
    let hit = cast(&model, [-40.0, 4.5 * s, 4.5 * s], [1.0, 0.0, 0.0]).expect("hit");
    assert_eq!(hit.solid_cell, Cell::new(0, 4, 4));
    // the face is on the border of the volume
    assert_eq!(hit.place_cell, None);
    // a ray that points away hits nothing
    assert!(cast(&model, [-40.0, 4.5 * s, 4.5 * s], [-1.0, 0.0, 0.0]).is_none());
}

#[test]
fn scene_swaps_y_and_z_and_crops() {
    let mut model = VoxelModel::new(16, 2);
    model.set(Cell::new(4, 10, 2), vox(0));
    let scene = build_scene(&model, &game_palette()).expect("scene");
    assert_eq!(scene.size, [1, 1, 1]);
    let v = scene.voxels[0];
    assert_eq!((v.x, v.y, v.z), (0, 0, 0));

    model.set(Cell::new(6, 15, 3), vox(1));
    let scene = build_scene(&model, &game_palette()).expect("scene");
    assert_eq!(scene.size, [3, 2, 6]);
    let far = scene.voxels.iter().find(|v| v.x == 2).expect("voxel");
    assert_eq!((far.x, far.y, far.z, far.palette_slot), (2, 1, 5, 1));
}

#[test]
fn empty_model_has_no_scene() {
    let model = VoxelModel::new(8, 1);
    assert!(build_scene(&model, &game_palette()).is_none());
    assert!(matches!(export_model(&model, &game_palette()), Err(IoError::Empty)));
}

#[test]
fn export_reports_bytes_and_size() {
    let mut model = VoxelModel::new(8, 1);
    model.set(Cell::new(1, 2, 3), vox(2));
    model.set(Cell::new(1, 4, 3), vox(1));
    let (scene, bytes) = export_model(&model, &game_palette()).expect("export");
    assert_eq!(scene.size, [1, 1, 3]);
    assert_eq!(&bytes[0..4], b"VOX ");
    let data = dot_vox::load_bytes(&bytes).expect("dot_vox parse");
    assert_eq!(data.models[0].voxels.len(), 2);
}

fn build_doc() -> RigDoc {
    let mut model = VoxelModel::new(16, 2);
    let tree = default_character_parts();
    let head = PartId(1);
    model.set(Cell::new(5, 20, 5), Voxel { color: 2, part: head });
    model.set(Cell::new(6, 20, 5), Voxel { color: 3, part: head });
    RigDoc::from_state("hero", ObjectType::Character, &model, &tree, &game_palette())
}

type Header = (u32, String, bool, u32, u32, u32);
type Body = (Vec<(u32, String, Option<u32>, [u32; 3])>, Vec<[u8; 3]>, Vec<([i32; 3], u8, u32)>);

fn through_text(doc: RigDoc) -> RigDoc {
    let head: Header = (
        doc.version,
        doc.name,
        doc.object_type == ObjectType::Character,
        doc.resolution,
        doc.blocks,
        doc.root_part,
    );
    let body: Body = (
        doc.parts.into_iter().map(|p| (p.id, p.name, p.parent, p.pivot)).collect(),
        doc.palette,
        doc.voxels.iter().map(|v| (v.cell, v.color, v.part)).collect(),
    );
    let text = ron::ser::to_string_pretty(&(head, body), ron::ser::PrettyConfig::default())
        .expect("serialize");
    let (head, body): (Header, Body) = ron::from_str(&text).expect("deserialize");
    RigDoc {
        version: head.0,
        name: head.1,
        object_type: if head.2 { ObjectType::Character } else { ObjectType::Item },
        resolution: head.3,
        blocks: head.4,
        root_part: head.5,
        parts: body
            .0
            .into_iter()
            .map(|(id, name, parent, pivot)| RigPart { id, name, parent, pivot })
            .collect(),
        palette: body.1,
        voxels: body
            .2
            .into_iter()
            .map(|(cell, color, part)| RigVoxel { cell, color, part })
            .collect(),
    }
}

#[test]
fn ron_roundtrip_preserves_model_and_rig() {
    let doc = build_doc();
    let back = through_text(doc);
    let (model, tree, _palette, obj) = back.into_runtime(&blocks()).expect("runtime");
    assert_eq!(obj, ObjectType::Character);
    assert_eq!(model.resolution(), 16);
    assert_eq!(model.blocks(), 2);
    assert_eq!(model.voxel_count(), 2);
    assert_eq!(model.get(Cell::new(5, 20, 5)).map(|v| v.color), Some(2));
    assert_eq!(tree.len(), 6);
    assert_eq!(tree.get(tree.root()).map(|p| p.name.as_str()), Some("Torso"));
}

#[test]
fn version_mismatch_is_rejected() {
    let mut doc = build_doc();
    doc.version = 999;
    assert!(doc.into_runtime(&blocks()).is_none());
}

#[test]
fn missing_root_is_rejected_and_stray_voxels_dropped() {
    let mut doc = build_doc();
    doc.root_part = 77;
    assert!(doc.into_runtime(&blocks()).is_none());

    let mut doc = build_doc();
    doc.voxels.push(RigVoxel { cell: [900, 0, 0], color: 1, part: 0 });
    let (model, _tree, palette, _obj) = doc.into_runtime(&blocks()).expect("runtime");
    assert_eq!(model.voxel_count(), 2);
    assert_eq!(palette.rgbs(), game_palette().rgbs());
}

fn sample_scene() -> VoxScene {
    VoxScene {
        size: [2, 1, 1],
        voxels: vec![
            VoxVoxel { x: 0, y: 0, z: 0, palette_slot: 0 },
            VoxVoxel { x: 1, y: 0, z: 0, palette_slot: 1 },
        ],
        palette: vec![[10, 20, 30], [40, 50, 60]],
    }
}

#[test]
fn header_and_main_present() {
    let bytes = write_vox(&sample_scene()).expect("write");
    assert_eq!(&bytes[0..4], b"VOX ");
    assert_eq!(i32::from_le_bytes([bytes[4], bytes[5], bytes[6], bytes[7]]), 150);
    assert_eq!(&bytes[8..12], b"MAIN");
}

#[test]
fn rejects_oversize() {
    let mut s = sample_scene();
    s.size = [257, 1, 1];
    assert!(write_vox(&s).is_none());
}

#[test]
fn roundtrips_through_dot_vox() {
    let bytes = write_vox(&sample_scene()).expect("write");
    let data = dot_vox::load_bytes(&bytes).expect("dot_vox parse");
    let model = &data.models[0];
    assert_eq!(model.size.x, 2);
    assert_eq!(model.size.y, 1);
    assert_eq!(model.size.z, 1);
    assert_eq!(model.voxels.len(), 2);

    let v0 = model.voxels.iter().find(|v| v.x == 0).expect("v0");
    let c0 = data.palette[v0.i as usize];
    assert_eq!((c0.r, c0.g, c0.b), (10, 20, 30));

    let v1 = model.voxels.iter().find(|v| v.x == 1).expect("v1");
    let c1 = data.palette[v1.i as usize];
    assert_eq!((c1.r, c1.g, c1.b), (40, 50, 60));
}

#[test]
fn equal_files_come_from_equal_scenes() {
    let base = write_vox(&sample_scene());
    assert_eq!(write_vox(&sample_scene()), base);
    let mut s = sample_scene();
    s.size = [2, 1, 2];
    assert_ne!(write_vox(&s), base);
    let mut s = sample_scene();
    s.voxels.swap(0, 1);
    assert_ne!(write_vox(&s), base);
    let mut s = sample_scene();
    s.voxels[1].palette_slot = 254;
    assert_ne!(write_vox(&s), base);
    // a black color is told from no color
    let mut s = sample_scene();
    s.palette.push([0, 0, 0]);
    assert_ne!(write_vox(&s), base);
}

#[test]
fn edits_keep_one_tree() {
    let mut tree = default_character_parts();
    let hand = tree.add("Hand".to_string(), PartId(2));
    let finger = tree.add("Finger".to_string(), hand);
    assert!(tree.reparent(PartId(3), finger));
    tree.remove(PartId(2));
    tree.remove(hand);
    let next = tree.add("Tail".to_string(), PartId(3));
    assert_eq!(next, PartId(8));
    for part in tree.iter() {
        let mut at = part.id;
        let mut seen = vec![at];
        while let Some(up) = tree.get(at).expect("live").parent {
            assert!(!seen.contains(&up));
            seen.push(up);
            at = up;
        }
        assert_eq!(at, tree.root());
    }
}

#[test]
fn chunks_carry_their_lengths() {
    let mut out = Vec::new();
    push_chunk(&mut out, b"SIZE", &[1, 2, 3], &[9]);
    assert_eq!(out, vec![b'S', b'I', b'Z', b'E', 3, 0, 0, 0, 1, 0, 0, 0, 1, 2, 3, 9]);
}

#[test]
fn project_paths_and_stems() {
    assert_eq!(project_stem("hero.rig.ron"), None);
    assert_eq!(project_stem("hero.vox"), Some("hero".to_string()));
    assert_eq!(project_stem("notes.txt"), None);
    assert_eq!(rig_path("hero"), "hero.rig.ron");
    assert_eq!(vox_path("hero"), "hero.vox");
    assert_eq!(models_dir("root"), "root/assets/models");
    // joining is the platform's: an absolute name replaces the directory
    let inside = std::path::Path::new("d").join(vox_path("hero"));
    assert_eq!(inside, std::path::PathBuf::from("d/hero.vox"));
}

#[test]
fn projects_are_listed_by_name() {
    let files: Vec<String> = ["b.vox", "a.rig.ron", "a.vox", "z.txt"]
        .iter()
        .map(|s| s.to_string())
        .collect();
    let list: Vec<(String, bool)> =
        list_projects(&files).into_iter().map(|e| (e.name, e.has_rig)).collect();
    assert_eq!(list, vec![("a".to_string(), true), ("b".to_string(), false)]);
    assert_eq!(project_files("a"), vec!["a.vox".to_string(), "a.rig.ron".to_string()]);
    let moves = rename_moves("a", "b");
    assert_eq!(
        moves,
        vec![
            ("a.vox".to_string(), "b.vox".to_string()),
            ("a.rig.ron".to_string(), "b.rig.ron".to_string()),
        ]
    );
    assert!(rename_moves("a", "a").is_empty());
}

#[test]
fn error_messages_name_the_trouble() {
    assert_eq!(IoError::Empty.message(), "model is empty — nothing to save");
    assert_eq!(IoError::TooLarge.message(), "model exceeds the .vox 256-per-axis limit");
    assert_eq!(IoError::Fs("disk".to_string()).message(), "filesystem error: disk");
    assert_eq!(
        IoError::BadSidecar("line 1".to_string()).message(),
        "could not read rig sidecar: line 1"
    );
}

#[test]
fn editing_strokes() {
    let mut s = EditorState::new_default(&blocks());
    s.dirty = false;
    let cell = Cell::new(1, 0, 1);
    s.paint(cell);
    assert!(s.dirty && s.model.is_solid(cell));
    s.active_color = 3;
    s.tool = Tool::Pick;
    s.pick(cell);
    assert_eq!((s.active_color, s.active_part, s.tool), (0, PartId(0), Tool::Pick));
    s.erase(cell);
    assert_eq!(s.model.voxel_count(), 0);
    s.set_blocks(3);
    assert_eq!(s.model.blocks(), 3);
    s.set_resolution(32);
    assert_eq!(s.model.resolution(), 32);
    s.clear_geometry();
    s.new_project(ObjectType::Item, &blocks());
    assert_eq!((s.name.as_str(), s.tree.len()), ("untitled", 1));
}

#[test]
fn clicks_follow_the_tool() {
    let mut s = EditorState::new_default(&blocks());
    let floor = Some(Cell::new(2, 0, 2));
    apply_click(&mut s, false, None, floor);
    assert!(s.model.is_solid(Cell::new(2, 0, 2)));
    let hit = Some(RayHit {
        solid_cell: Cell::new(2, 0, 2),
        place_cell: Some(Cell::new(2, 1, 2)),
    });
    apply_click(&mut s, false, hit, None);
    assert!(s.model.is_solid(Cell::new(2, 1, 2)));
    apply_click(&mut s, true, hit, None);
    assert!(!s.model.is_solid(Cell::new(2, 0, 2)));
}

#[test]
fn only_outer_faces_are_drawn() {
    let mut m = VoxelModel::new(8, 1);
    m.set(Cell::new(0, 0, 0), vox(1));
    assert_eq!(visible_faces(&m).len(), 6);
    m.set(Cell::new(1, 0, 0), vox(2));
    let quads = visible_faces(&m);
    assert_eq!(quads.len(), 10);
    assert!(!quads.iter().any(|q| q.cell == Cell::new(0, 0, 0) && q.face == Face::PosX));
    assert!(!quads.iter().any(|q| q.cell == Cell::new(1, 0, 0) && q.face == Face::NegX));
}

#[test]
fn face_corners_wind_about_the_normal() {
    for face in [Face::PosX, Face::NegX, Face::PosY, Face::NegY, Face::PosZ, Face::NegZ] {
        let c = face_corners(face);
        let n = face_normal(face);
        let u = (c[1].0 - c[0].0, c[1].1 - c[0].1, c[1].2 - c[0].2);
        let v = (c[2].0 - c[0].0, c[2].1 - c[0].1, c[2].2 - c[0].2);
        let cross = (
            u.1 * v.2 - u.2 * v.1,
            u.2 * v.0 - u.0 * v.2,
            u.0 * v.1 - u.1 * v.0,
        );
        assert_eq!(cross, n);
    }
}

#[test]
fn overlays_skip_block_borders() {
    let m = VoxelModel::new(4, 2);
    assert_eq!(fine_lines(&m), vec![1, 2, 3, 5, 6, 7]);
    let blocks = reference_blocks(&m);
    assert_eq!(blocks.len(), 8);
    assert_eq!((blocks[0], blocks[1], blocks[7]), ((0, 0, 0), (0, 0, 1), (1, 1, 1)));
    let marks = pivot_marks(&default_character_parts(), PartId(1));
    assert_eq!(marks.len(), 6);
}

#[test]
fn an_arena_can_be_rebuilt() {
    let part = |id: u32, parent: Option<u32>| {
        Some(Part {
            id: PartId(id),
            name: "P".to_string(),
            parent: parent.map(PartId),
            pivot: Pivot { x: 0, y: 0, z: 0 },
        })
    };
    let tree = PartTree::from_arena(vec![part(0, None), None, part(2, Some(0))], PartId(0));
    assert_eq!((tree.len(), tree.slots()), (2, 3));
    assert_eq!(tree.iter().len(), 2);
    assert!(tree.is_descendant(PartId(2), PartId(0)));
}
