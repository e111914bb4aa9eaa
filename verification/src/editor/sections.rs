//! What the fields and buttons of each panel section show and ask for.

use vstd::prelude::*;
use vstd::string::*;

use crate::editor::palette::MAX_COLORS;
use crate::editor::panels::{PartRow, PendingAction, UiScratch};
use crate::editor::parts::{live_parts, part_at, up, ObjectType, PartModel, PartTree, Pivot};
use crate::editor::project::ProjectEntry;
use crate::editor::state::EditorState;
use crate::editor::voxel_map::PartId;
use crate::text::{concat, concat3, decimal, push_decimal, same_text, trim, trimmed};

verus! {

/// What the parts of a model are called.
pub open spec fn noun_text(object: ObjectType) -> Seq<char> {
    match object {
        ObjectType::Character => "body part"@,
        ObjectType::Item => "part"@,
    }
}

/// The line over the parts list.
pub fn rig_heading(object: ObjectType, parts: usize) -> (s: String)
    ensures
        s@ == "Select the "@ + noun_text(object) + " you are editing ("@ + decimal(parts as nat)
            + " parts):"@,
{
    let noun = match object {
        ObjectType::Character => "body part",
        ObjectType::Item => "part",
    };
    let mut s = concat3("Select the ", noun, " you are editing (");
    push_decimal(&mut s, parts as u64);
    s.append(" parts):");
    s
}

/// The text of a row of the parts list.
pub fn row_label(row: &PartRow) -> (s: String)
    ensures
        s@ == row.name@ + " ("@ + decimal(row.count as nat) + ")"@,
{
    let mut s = concat(row.name.as_str(), " (");
    push_decimal(&mut s, row.count as u64);
    s.append(")");
    s
}

/// Loads the active part's name into the rename buffer when the selection has
/// changed.
pub fn sync_rename(scratch: &mut UiScratch, tree: &PartTree, active: PartId)
    ensures
        *final(scratch) == (UiScratch {
            part_rename_buf: final(scratch).part_rename_buf,
            part_rename_for: final(scratch).part_rename_for,
            ..*old(scratch)
        }),
        match part_at(tree@, active) {
            Some(p) if old(scratch).part_rename_for != Some(active.0) => {
                final(scratch).part_rename_buf@ == p.name && final(scratch).part_rename_for
                    == Some(active.0)
            },
            _ => *final(scratch) == *old(scratch),
        },
{
    if let Some(p) = tree.get(active) {
        let bound = match scratch.part_rename_for {
            Some(id) => id == active.0,
            None => false,
        };
        if !bound {
            scratch.part_rename_buf = p.name.clone();
            scratch.part_rename_for = Some(active.0);
        }
    }
}

/// The rename that the text in the name field asks for: none if it is blank, or
/// if the part has this name already.
pub fn rename_part_request(tree: &PartTree, active: PartId, text: &str) -> (r: Option<
    PendingAction,
>)
    ensures
        match part_at(tree@, active) {
            Some(p) if trimmed(text@).len() > 0 && trimmed(text@) != p.name => r matches Some(
                PendingAction::RenamePart { id, name },
            ) && id == active && name@ == trimmed(text@),
            _ => r is None,
        },
{
    match tree.get(active) {
        None => None,
        Some(p) => {
            let name = trim(text);
            if name.as_str().is_empty() || same_text(p.name.as_str(), name.as_str()) {
                None
            } else {
                Some(PendingAction::RenamePart { id: active, name })
            }
        },
    }
}

/// The new part that the text in the field asks for: none if it is blank.
pub fn add_part_request(active: PartId, text: &str) -> (r: Option<PendingAction>)
    ensures
        if trimmed(text@).len() > 0 {
            r matches Some(PendingAction::AddPart { parent, name }) && parent == active && name@
                == trimmed(text@)
        } else {
            r is None
        },
{
    let name = trim(text);
    if name.as_str().is_empty() {
        None
    } else {
        Some(PendingAction::AddPart { parent: active, name })
    }
}

/// The live parts other than `active`, by id and name.
pub open spec fn others(parts: Seq<PartModel>, active: PartId) -> Seq<(PartId, Seq<char>)>
    decreases parts.len(),
{
    if parts.len() == 0 {
        Seq::empty()
    } else {
        let before = others(parts.drop_last(), active);
        if parts.last().id != active {
            before.push((parts.last().id, parts.last().name))
        } else {
            before
        }
    }
}

pub open spec fn target_views(v: Seq<(PartId, String)>) -> Seq<(PartId, Seq<char>)> {
    v.map_values(|t: (PartId, String)| (t.0, t.1@))
}

/// The parts that the active part can be asked to move under: every other one.
pub fn reparent_targets(tree: &PartTree, active: PartId) -> (v: Vec<(PartId, String)>)
    ensures
        target_views(v@) == others(live_parts(tree@), active),
{
    let parts = tree.iter();
    let ghost all = live_parts(tree@);
    let mut v: Vec<(PartId, String)> = Vec::new();
    let mut i: usize = 0;
    assert(target_views(v@) =~= others(all.take(0), active));
    while i < parts.len()
        invariant
            i <= parts@.len(),
            all.len() == parts@.len(),
            forall|k: int| 0 <= k < all.len() ==> #[trigger] all[k] == parts@[k]@,
            target_views(v@) == others(all.take(i as int), active),
        decreases parts@.len() - i,
    {
        let p = parts[i];
        proof {
            assert(all.take(i + 1).drop_last() =~= all.take(i as int));
            assert(all.take(i + 1).last() == all[i as int]);
        }
        if p.id != active {
            let ghost before = v@;
            v.push((p.id, p.name.clone()));
            assert(target_views(v@) =~= target_views(before).push((p.id, p.name@)));
        }
        i += 1;
    }
    assert(all.take(i as int) =~= all);
    v
}

/// The name of the active part's parent, or a dash.
pub fn parent_name(tree: &PartTree, active: PartId) -> (s: String)
    ensures
        s@ == (match up(tree@, active) {
            Some(q) => match part_at(tree@, q) {
                Some(p) => p.name,
                None => "—"@,
            },
            None => "—"@,
        }),
{
    let parent = match tree.get(active) {
        Some(p) => p.parent,
        None => None,
    };
    match parent {
        Some(q) => match tree.get(q) {
            Some(p) => p.name.clone(),
            None => "—".to_owned(),
        },
        None => "—".to_owned(),
    }
}

/// The move that choosing `target` asks for: none for the root, and none if it
/// is the parent already.
pub fn reparent_request(tree: &PartTree, active: PartId, target: PartId) -> (r: Option<
    PendingAction,
>)
    ensures
        r == (if active != tree.spec_root() && up(tree@, active) != Some(target) {
            Some(PendingAction::Reparent { child: active, new_parent: target })
        } else {
            None
        }),
{
    if active == tree.root() {
        return None;
    }
    let current = match tree.get(active) {
        Some(p) => p.parent,
        None => None,
    };
    let same = match current {
        Some(q) => q == target,
        None => false,
    };
    if same {
        None
    } else {
        Some(PendingAction::Reparent { child: active, new_parent: target })
    }
}

/// What the delete button asks for: nothing for the root.
pub fn delete_part_request(tree: &PartTree, active: PartId) -> (r: Option<PendingAction>)
    ensures
        r == (if active != tree.spec_root() {
            Some(PendingAction::DeletePart(active))
        } else {
            None
        }),
{
    if active == tree.root() {
        None
    } else {
        Some(PendingAction::DeletePart(active))
    }
}

/// Moves the active part's pivot.
pub fn move_pivot(state: &mut EditorState, pivot: Pivot)
    ensures
        final(state).tree@ == (match part_at(old(state).tree@, old(state).active_part) {
            Some(p) => old(state).tree@.update(
                old(state).active_part.0 as int,
                Some(PartModel { pivot, ..p }),
            ),
            None => old(state).tree@,
        }),
        final(state).tree.spec_root() == old(state).tree.spec_root(),
        *final(state) == (EditorState { tree: final(state).tree, dirty: true, ..*old(state) }),
{
    match state.tree.get_mut(state.active_part) {
        Some(p) => {
            p.pivot = pivot;
        },
        None => {},
    }
    state.dirty = true;
}

/// Recolors the active palette entry; the mesh is re-tinted.
pub fn recolor_active(state: &mut EditorState, rgb: [u8; 3])
    ensures
        final(state).palette@ == (if old(state).active_color < old(state).palette@.len() {
            old(state).palette@.update(
                old(state).active_color as int,
                (rgb@, old(state).palette@[old(state).active_color as int].1),
            )
        } else {
            old(state).palette@
        }),
        *final(state) == (EditorState {
            palette: final(state).palette,
            dirty: true,
            ..*old(state)
        }),
{
    state.palette.set_rgb(state.active_color, rgb);
    state.dirty = true;
}

/// Adds a custom color and selects it, if the palette has room.
pub fn add_custom_color(state: &mut EditorState, rgb: [u8; 3])
    ensures
        if old(state).palette@.len() < MAX_COLORS {
            &&& final(state).palette@ == old(state).palette@.push((rgb@, "Custom"@))
            &&& *final(state) == (EditorState {
                palette: final(state).palette,
                active_color: old(state).palette@.len() as u8,
                ..*old(state)
            })
        } else {
            *final(state) == *old(state)
        },
{
    if let Some(index) = state.palette.push_custom(rgb) {
        state.active_color = index;
    }
}

/// The project rename that the text in the field asks for: none if it is blank
/// or the project's own name.
pub fn rename_project_request(entry: &ProjectEntry, text: &str) -> (r: Option<PendingAction>)
    ensures
        if trimmed(text@).len() > 0 && trimmed(text@) != entry.name@ {
            r matches Some(PendingAction::Rename { from, to }) && from@ == entry.name@ && to@
                == trimmed(text@)
        } else {
            r is None
        },
{
    let to = trim(text);
    if to.as_str().is_empty() || same_text(to.as_str(), entry.name.as_str()) {
        None
    } else {
        Some(PendingAction::Rename { from: entry.name.clone(), to })
    }
}

/// What the load button asks for: nothing for a project without a rig.
pub fn load_request(entry: &ProjectEntry) -> (r: Option<PendingAction>)
    ensures
        if entry.has_rig {
            r matches Some(PendingAction::Load(name)) && name@ == entry.name@
        } else {
            r is None
        },
{
    if entry.has_rig {
        Some(PendingAction::Load(entry.name.clone()))
    } else {
        None
    }
}

/// Begins to rename a project: its name goes into the field.
pub fn start_rename(scratch: &mut UiScratch, entry: &ProjectEntry)
    ensures
        final(scratch).rename_buf@ == entry.name@,
        final(scratch).renaming matches Some(name) && name@ == entry.name@,
        *final(scratch) == (UiScratch {
            rename_buf: final(scratch).rename_buf,
            renaming: final(scratch).renaming,
            ..*old(scratch)
        }),
{
    scratch.renaming = Some(entry.name.clone());
    scratch.rename_buf = entry.name.clone();
}

/// Whether the project is the one being renamed.
pub fn is_renaming(scratch: &UiScratch, entry: &ProjectEntry) -> (r: bool)
    ensures
        r == (scratch.renaming matches Some(name) && name@ == entry.name@),
{
    match &scratch.renaming {
        Some(name) => same_text(name.as_str(), entry.name.as_str()),
        None => false,
    }
}

/// What choosing an object type asks for: a new project, unless it is the type
/// of the open one.
pub fn switch_type_request(current: ObjectType, chosen: ObjectType) -> (r: Option<PendingAction>)
    ensures
        r == (if current != chosen {
            Some(PendingAction::New(chosen))
        } else {
            None
        }),
{
    if current != chosen {
        Some(PendingAction::New(chosen))
    } else {
        None
    }
}

proof fn lemma_others(parts: Seq<PartModel>, active: PartId, k: int)
    requires
        0 <= k < parts.len(),
    ensures
        parts[k].id != active ==> others(parts, active).contains((parts[k].id, parts[k].name)),
    decreases parts.len(),
{
    let rest = parts.drop_last();
    if k < rest.len() {
        lemma_others(rest, active, k);
        if parts[k].id != active {
            let i = others(rest, active).index_of((parts[k].id, parts[k].name));
            assert(others(parts, active)[i] == (parts[k].id, parts[k].name));
        }
    } else if parts[k].id != active {
        assert(others(parts, active).last() == (parts[k].id, parts[k].name));
    }
}

proof fn lemma_others_are_parts(parts: Seq<PartModel>, active: PartId, i: int)
    requires
        0 <= i < others(parts, active).len(),
    ensures
        others(parts, active)[i].0 != active,
        exists|k: int|
            0 <= k < parts.len() && (#[trigger] parts[k]).id == others(parts, active)[i].0
                && parts[k].name == others(parts, active)[i].1,
    decreases parts.len(),
{
    let rest = parts.drop_last();
    if i < others(rest, active).len() {
        lemma_others_are_parts(rest, active, i);
        let k = choose|k: int|
            0 <= k < rest.len() && (#[trigger] rest[k]).id == others(rest, active)[i].0
                && rest[k].name == others(rest, active)[i].1;
        assert(parts[k] == rest[k]);
    } else {
        assert(parts[parts.len() - 1].id == others(parts, active)[i].0);
    }
}

/// The choice of new parents holds every part but the active one, by id and name, and
/// nothing else.
pub proof fn any_other_part_can_be_chosen(
    parts: Seq<PartModel>,
    active: PartId,
    id: PartId,
    name: Seq<char>,
)
    ensures
        others(parts, active).contains((id, name)) <==> id != active && exists|k: int|
            0 <= k < parts.len() && (#[trigger] parts[k]).id == id && parts[k].name == name,
{
    if others(parts, active).contains((id, name)) {
        lemma_others_are_parts(parts, active, others(parts, active).index_of((id, name)));
    }
    if id != active && exists|k: int|
        0 <= k < parts.len() && (#[trigger] parts[k]).id == id && parts[k].name == name {
        let k = choose|k: int|
            0 <= k < parts.len() && (#[trigger] parts[k]).id == id && parts[k].name == name;
        lemma_others(parts, active, k);
    }
}

} // verus!
