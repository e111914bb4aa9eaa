//! The rules behind the editor's panels: the rows of the rig list, what each
//! field and button asks for, and what an action does to the editor state.

use vstd::prelude::*;
use vstd::string::*;

use crate::editor::palette::{block_swatches, ramp, BlockMaterial, Palette};
use crate::editor::parts::{
    acyclic, ancestor, below, child_parts, children_name_their_parent, default_arena,
    every_chain_ends_at_the_root, hung, ids_ok, lemma_ancestor_step, lemma_ancestor_sum,
    lemma_children, lemma_no_cycle, object_label, part_at, refs_view, rooted, settled, up, with_part, without,
    ObjectType, PartModel, PartTree, Arena,
};
use crate::editor::project::{error_text, IoError};
use crate::editor::state::{same_project, same_selection, same_view, EditorState, Tool};
use crate::editor::volume::{of_part, without_part, VoxelModel, BLOCKS_MIN};
use crate::editor::voxel_map::{Cell, PartId, Voxel};
use crate::text::{concat, decimal, push_decimal, same_text};

verus! {

/// One flattened rig row for the parts list.
#[derive(Debug)]
pub struct PartRow {
    pub id: PartId,
    pub name: String,
    pub depth: usize,
    pub count: usize,
}

/// What a row shows.
pub struct RowModel {
    pub id: PartId,
    pub name: Seq<char>,
    pub depth: nat,
    pub count: nat,
}

impl View for PartRow {
    type V = RowModel;

    open spec fn view(&self) -> RowModel {
        RowModel {
            id: self.id,
            name: self.name@,
            depth: self.depth as nat,
            count: self.count as nat,
        }
    }
}

pub open spec fn row_views(rows: Seq<PartRow>) -> Seq<RowModel> {
    rows.map_values(|r: PartRow| r@)
}

/// The rows of the part `id` and of everything under it, depth first, down to
/// `levels` levels.
pub open spec fn rows_from(
    arena: Arena,
    m: Map<Cell, Voxel>,
    id: PartId,
    depth: nat,
    levels: nat,
) -> Seq<RowModel>
    decreases levels, 0nat,
{
    if levels == 0 {
        Seq::empty()
    } else {
        match part_at(arena, id) {
            Some(p) => seq![
                RowModel { id, name: p.name, depth, count: of_part(m, id).dom().len() },
            ] + rows_of_all(arena, m, child_parts(arena, id), depth + 1, (levels - 1) as nat),
            None => Seq::empty(),
        }
    }
}

/// The rows of several parts, one after the other.
pub open spec fn rows_of_all(
    arena: Arena,
    m: Map<Cell, Voxel>,
    parts: Seq<PartModel>,
    depth: nat,
    levels: nat,
) -> Seq<RowModel>
    decreases levels, parts.len(),
{
    if parts.len() == 0 {
        Seq::empty()
    } else {
        rows_of_all(arena, m, parts.drop_last(), depth, levels) + rows_from(
            arena,
            m,
            parts.last().id,
            depth,
            levels,
        )
    }
}

fn push_rows(
    tree: &PartTree,
    model: &VoxelModel,
    id: PartId,
    depth: usize,
    levels: usize,
    rows: &mut Vec<PartRow>,
)
    requires
        model.wf(),
        depth + levels <= u32::MAX,
    ensures
        row_views(final(rows)@) == row_views(old(rows)@) + rows_from(
            tree@,
            model@,
            id,
            depth as nat,
            levels as nat,
        ),
    decreases levels,
{
    if levels == 0 {
        assert(row_views(rows@) =~= row_views(old(rows)@) + Seq::<RowModel>::empty());
        return ;
    }
    match tree.get(id) {
        None => {
            assert(row_views(rows@) =~= row_views(old(rows)@) + Seq::<RowModel>::empty());
        },
        Some(part) => {
            let row = PartRow {
                id,
                name: part.name.clone(),
                depth,
                count: model.part_voxel_count(id),
            };
            let ghost head = seq![row@];
            rows.push(row);
            assert(row_views(rows@) =~= row_views(old(rows)@) + head);
            let children = tree.children(id);
            let ghost all = child_parts(tree@, id);
            let mut i: usize = 0;
            assert(head + rows_of_all(
                tree@,
                model@,
                all.take(0),
                (depth + 1) as nat,
                (levels - 1) as nat,
            ) =~= head);
            while i < children.len()
                invariant
                    i <= children@.len(),
                    model.wf(),
                    levels >= 1,
                    depth + levels <= u32::MAX,
                    all == refs_view(children@),
                    row_views(rows@) == row_views(old(rows)@) + (head + rows_of_all(
                        tree@,
                        model@,
                        all.take(i as int),
                        (depth + 1) as nat,
                        (levels - 1) as nat,
                    )),
                decreases children@.len() - i,
            {
                let ghost before = row_views(rows@);
                proof {
                    assert(all.take(i + 1).drop_last() =~= all.take(i as int));
                    assert(all.take(i + 1).last() == children@[i as int]@);
                }
                push_rows(tree, model, children[i].id, depth + 1, levels - 1, rows);
                i += 1;
                assert(row_views(rows@) =~= row_views(old(rows)@) + (head + rows_of_all(
                    tree@,
                    model@,
                    all.take(i as int),
                    (depth + 1) as nat,
                    (levels - 1) as nat,
                )));
            }
            assert(all.take(i as int) =~= all);
        },
    }
}

/// Flatten the part tree depth-first into rows with indent depth + voxel counts.
pub fn flatten_tree(tree: &PartTree, model: &VoxelModel) -> (rows: Vec<PartRow>)
    requires
        model.wf(),
        tree@.len() <= u32::MAX,
    ensures
        row_views(rows@) == rows_from(tree@, model@, tree.spec_root(), 0, tree@.len()),
{
    let mut rows: Vec<PartRow> = Vec::new();
    let slots: usize = tree.slots();
    push_rows(tree, model, tree.root(), 0, slots, &mut rows);
    assert(row_views(rows@) =~= rows_from(tree@, model@, tree.spec_root(), 0, tree@.len()));
    rows
}

/// A part that is not among `path` leaves room below for one more level.
proof fn lemma_room_for_level(arena: Arena, path: Set<PartId>, id: PartId)
    requires
        path.finite(),
        !path.contains(id),
        id.0 < arena.len(),
        arena.len() <= u32::MAX,
        forall|x: PartId| #[trigger] path.contains(x) ==> x.0 < arena.len(),
    ensures
        path.len() < arena.len(),
{
    let f = |x: PartId| x.0 as int;
    let all = path.insert(id);
    let image = all.map(f);
    assert forall|a: PartId, b: PartId| #![auto]
        all.contains(a) && all.contains(b) && f(a) == f(b) implies a == b by {}
    vstd::set_lib::lemma_map_size(all, image, f);
    let range = vstd::set_lib::set_int_range(0, arena.len() as int);
    vstd::set_lib::lemma_int_range(0, arena.len() as int);
    assert forall|n: int| image.contains(n) implies range.contains(n) by {
        let x = choose|x: PartId| all.contains(x) && f(x) == n;
    }
    vstd::set_lib::lemma_len_subset(image, range);
}

/// Beyond one level per slot, more levels add no rows under a part whose
/// ancestors are `path`.
proof fn lemma_enough_levels(
    arena: Arena,
    m: Map<Cell, Voxel>,
    id: PartId,
    path: Set<PartId>,
    l1: nat,
    l2: nat,
)
    requires
        ids_ok(arena),
        acyclic(arena),
        arena.len() <= u32::MAX,
        path.finite(),
        path.len() <= arena.len(),
        forall|x: PartId| #[trigger]
            path.contains(x) ==> x != id && x.0 < arena.len() && below(arena, id, x),
        l1 >= arena.len() - path.len(),
        l2 >= arena.len() - path.len(),
    ensures
        rows_from(arena, m, id, path.len(), l1) == rows_from(arena, m, id, path.len(), l2),
    decreases arena.len() - path.len(), 0nat,
{
    if part_at(arena, id) is Some {
        lemma_room_for_level(arena, path, id);
        let parts = child_parts(arena, id);
        assert(parts.take(parts.len() as int) =~= parts);
        lemma_enough_levels_for_all(
            arena,
            m,
            id,
            path,
            parts.len(),
            (l1 - 1) as nat,
            (l2 - 1) as nat,
        );
    }
}

proof fn lemma_enough_levels_for_all(
    arena: Arena,
    m: Map<Cell, Voxel>,
    id: PartId,
    path: Set<PartId>,
    n: nat,
    l1: nat,
    l2: nat,
)
    requires
        ids_ok(arena),
        acyclic(arena),
        arena.len() <= u32::MAX,
        path.finite(),
        path.len() < arena.len(),
        id.0 < arena.len(),
        forall|x: PartId| #[trigger]
            path.contains(x) ==> x != id && x.0 < arena.len() && below(arena, id, x),
        l1 + 1 >= arena.len() - path.len(),
        l2 + 1 >= arena.len() - path.len(),
        n <= child_parts(arena, id).len(),
    ensures
        rows_of_all(arena, m, child_parts(arena, id).take(n as int), path.len() + 1, l1)
            == rows_of_all(arena, m, child_parts(arena, id).take(n as int), path.len() + 1, l2),
    decreases arena.len() - path.len(), 0nat, n,
{
    if n > 0 {
        let parts = child_parts(arena, id);
        assert(parts.take(n as int).drop_last() =~= parts.take(n - 1));
        lemma_enough_levels_for_all(arena, m, id, path, (n - 1) as nat, l1, l2);
        let c = parts[n - 1].id;
        lemma_children(arena, id, n - 1);
        let longer = path.insert(id);
        assert(!path.contains(id));
        assert(longer.len() == path.len() + 1);
        assert forall|x: PartId| #[trigger] longer.contains(x) implies x != c && x.0 < arena.len()
            && below(arena, c, x) by {
            if x == id {
                assert(ancestor(arena, Some(id), 0) == Some(id));
                assert(ancestor(arena, Some(c), 1) == ancestor(arena, up(arena, c), 0));
                assert(below(arena, c, x));
            } else {
                let k = choose|k: nat| ancestor(arena, Some(id), k) == Some(x);
                assert(ancestor(arena, Some(c), k + 1) == ancestor(arena, up(arena, c), k));
                assert(below(arena, c, x));
            }
            if x == c {
                assert(rooted(arena, Some(c)));
                let k = choose|k: nat| ancestor(arena, Some(id), k) == Some(c);
                if x == id {
                    assert(ancestor(arena, Some(c), 1) == ancestor(arena, up(arena, c), 0));
                    lemma_no_cycle(arena, c, 1);
                } else {
                    assert(below(arena, id, c));
                    assert(ancestor(arena, Some(c), k + 1) == ancestor(arena, up(arena, c), k));
                    lemma_no_cycle(arena, c, k + 1);
                }
            }
        }
        lemma_enough_levels(arena, m, c, longer, l1, l2);
    }
}

/// The rows go as deep as the tree does: no number of further levels adds one.
pub proof fn rows_reach_every_level(tree: PartTree, m: Map<Cell, Voxel>, levels: nat)
    requires
        tree.wf(),
        tree@.len() <= u32::MAX,
        levels >= tree@.len(),
    ensures
        rows_from(tree@, m, tree.spec_root(), 0, levels) == rows_from(
            tree@,
            m,
            tree.spec_root(),
            0,
            tree@.len(),
        ),
{
    lemma_enough_levels(
        tree@,
        m,
        tree.spec_root(),
        Set::empty(),
        levels,
        tree@.len(),
    );
}

/// A deferred action raised by a panel and applied after the draw pass.
#[derive(Debug)]
pub enum PendingAction {
    /// Save the current project under its current name.
    Save,
    /// Start a new project of the given type.
    New(ObjectType),
    /// Load the named project.
    Load(String),
    /// Rename `from` to `to` (both on disk and in the editor if it's the open one).
    Rename { from: String, to: String },
    /// Delete the named project from disk.
    Delete(String),
    /// Add a child part under `parent` named `name`.
    AddPart { parent: PartId, name: String },
    /// Rename the given part to `name`.
    RenamePart { id: PartId, name: String },
    /// Re-parent `child` under `new_parent` (rejected on cycle / root).
    Reparent { child: PartId, new_parent: PartId },
    /// Delete the given part (and its geometry).
    DeletePart(PartId),
    /// Clear all geometry.
    ClearGeometry,
}

/// A project read from disk.
#[derive(Debug)]
pub struct LoadedProject {
    pub model: VoxelModel,
    pub tree: PartTree,
    pub palette: Palette,
    pub object_type: ObjectType,
}

/// What came of the file work of an action.
#[derive(Debug)]
pub enum IoOutcome {
    /// The action does no file work.
    Nothing,
    /// The project was saved, with these `.vox` dimensions, or was not.
    Saved(Result<[u32; 3], IoError>),
    /// The project was loaded or was not.
    Loaded(Result<LoadedProject, IoError>),
    /// Files were moved or deleted, or were not.
    Done(Result<(), IoError>),
}

/// UI-local scratch that persists between frames (text edit buffers).
#[derive(Debug)]
pub struct UiScratch {
    /// Rename target buffer, keyed to the project being renamed.
    pub rename_buf: String,
    /// Which project (if any) is mid-rename.
    pub renaming: Option<String>,
    /// New-part name buffer.
    pub new_part_buf: String,
    /// Rename buffer for the active part.
    pub part_rename_buf: String,
    /// Which part the rename buffer currently holds text for.
    pub part_rename_for: Option<u32>,
    /// Custom color being mixed in the palette picker (sRGB bytes).
    pub custom_rgb: [u8; 3],
}

/// The outcome is of the kind that the action's file work has, and the action
/// can be applied to the state.
pub open spec fn fits(action: PendingAction, outcome: IoOutcome, s: EditorState) -> bool {
    &&& s.model.wf()
    &&& match action {
        PendingAction::Save => outcome is Saved,
        PendingAction::Load(_) => outcome matches IoOutcome::Loaded(r) && (r matches Ok(p)
            ==> p.model.wf() && p.palette.wf()),
        PendingAction::Rename { .. } => outcome is Done,
        PendingAction::Delete(_) => outcome is Done,
        PendingAction::AddPart { .. } => s.tree@.len() < u32::MAX,
        PendingAction::Reparent { child, new_parent } => child == s.tree.spec_root() || part_at(
            s.tree@,
            child,
        ) is None || settled(s.tree@, new_parent, child),
        _ => true,
    }
}

/// `'name'` between two texts.
pub open spec fn quoted(before: Seq<char>, name: Seq<char>, after: Seq<char>) -> Seq<char> {
    before + "'"@ + name + "'"@ + after
}

/// The dimensions of a saved model.
pub open spec fn dimensions(size: Seq<u32>) -> Seq<char> {
    "  ("@ + decimal(size[0] as nat) + "×"@ + decimal(size[1] as nat) + "×"@ + decimal(
        size[2] as nat,
    ) + " vox)"@
}

/// Only the status line differs.
pub open spec fn only_status(old_s: EditorState, new_s: EditorState) -> bool {
    new_s == (EditorState { status: new_s.status, ..old_s })
}

/// The scratch that reloads the rename buffer for the active part.
pub open spec fn reload_rename(sc: UiScratch) -> UiScratch {
    UiScratch { part_rename_for: None, ..sc }
}

/// What an action does to the editor state and the scratch.
pub open spec fn applied(
    action: PendingAction,
    outcome: IoOutcome,
    s: EditorState,
    t: EditorState,
    sc: UiScratch,
    tc: UiScratch,
    blocks: Seq<BlockMaterial>,
) -> bool {
    match action {
        PendingAction::Save => {
            &&& tc == sc
            &&& only_status(s, t)
            &&& outcome matches IoOutcome::Saved(r) ==> t.status@ == (match r {
                Ok(size) => quoted("Saved "@, s.name@, dimensions(size@)),
                Err(e) => "Save failed: "@ + error_text(e),
            })
        },
        PendingAction::New(object_type) => {
            &&& tc == sc
            &&& t.wf()
            &&& t.name@ == "untitled"@
            &&& t.object_type == object_type
            &&& t.model@ == Map::<Cell, Voxel>::empty()
            &&& t.model.spec_resolution() == s.model.spec_resolution()
            &&& t.model.spec_blocks() == BLOCKS_MIN
            &&& t.tree@ == default_arena(object_type)
            &&& t.tree.spec_root() == PartId(0)
            &&& t.palette@ == block_swatches(blocks) + ramp()
            &&& t.active_part == PartId(0)
            &&& t.active_color <= s.active_color
            &&& t.active_color == s.active_color || t.active_color == (blocks.len() + 9) % 256
            &&& t.active_color <= (blocks.len() + 9) % 256
            &&& t.tool == Tool::Paint
            &&& t.dirty
            &&& same_view(t, s)
            &&& t.status@ == "New "@ + object_label(object_type)
        },
        PendingAction::Load(name) => {
            &&& tc == sc
            &&& outcome matches IoOutcome::Loaded(r) ==> match r {
                Ok(p) => {
                    &&& t.name@ == name@
                    &&& t.object_type == p.object_type
                    &&& t.model == p.model
                    &&& t.tree == p.tree
                    &&& t.palette == p.palette
                    &&& t.active_part == p.tree.spec_root()
                    &&& t.active_color <= s.active_color
                    &&& t.active_color == s.active_color || t.active_color == (
                    p.palette@.len() - 1) % 256
                    &&& t.active_color <= (p.palette@.len() - 1) % 256
                    &&& t.tool == Tool::Paint
                    &&& t.dirty
                    &&& same_view(t, s)
                    &&& t.status@ == quoted(
                        "Loaded "@,
                        name@,
                        "  ("@ + decimal(p.model@.dom().len()) + " vox)"@,
                    )
                },
                Err(e) => only_status(s, t) && t.status@ == "Load failed: "@ + error_text(e),
            }
        },
        PendingAction::Rename { from, to } => {
            &&& tc == sc
            &&& t == (EditorState { status: t.status, name: t.name, ..s })
            &&& outcome matches IoOutcome::Done(r) ==> match r {
                Ok(_) => {
                    &&& t.name@ == (if s.name@ == from@ {
                        to@
                    } else {
                        s.name@
                    })
                    &&& t.status@ == quoted("Renamed "@, from@, quoted(" → "@, to@, ""@))
                },
                Err(e) => t.name == s.name && t.status@ == "Rename failed: "@ + error_text(e),
            }
        },
        PendingAction::Delete(name) => {
            &&& tc == sc
            &&& only_status(s, t)
            &&& outcome matches IoOutcome::Done(r) ==> t.status@ == (match r {
                Ok(_) => quoted("Deleted "@, name@, ""@),
                Err(e) => "Delete failed: "@ + error_text(e),
            })
        },
        PendingAction::AddPart { parent, name } => {
            &&& tc == reload_rename(sc)
            &&& t.tree@ == with_part(s.tree@, name@, parent)
            &&& t.tree.spec_root() == s.tree.spec_root()
            &&& s.tree.wf() && parent.0 < s.tree@.len() ==> t.tree.wf()
            &&& s.tree.whole() && part_at(s.tree@, parent) is Some ==> t.tree.whole()
            &&& t == (EditorState {
                tree: t.tree,
                active_part: PartId(s.tree@.len() as u32),
                status: t.status,
                ..s
            })
            &&& t.status@ == "Added part"@
        },
        PendingAction::RenamePart { id, name } => match part_at(s.tree@, id) {
            Some(p) => {
                &&& tc == reload_rename(sc)
                &&& t.tree@ == s.tree@.update(id.0 as int, Some(PartModel { name: name@, ..p }))
                &&& t.tree.spec_root() == s.tree.spec_root()
                &&& t == (EditorState { tree: t.tree, status: t.status, ..s })
                &&& t.status@ == "Renamed part"@
            },
            None => tc == sc && t.tree@ == s.tree@ && t.tree.spec_root() == s.tree.spec_root()
                && t == (EditorState { tree: t.tree, ..s }),
        },
        PendingAction::Reparent { child, new_parent } => {
            let moved = child != s.tree.spec_root() && part_at(s.tree@, child) is Some && !below(
                s.tree@,
                new_parent,
                child,
            );
            &&& tc == sc
            &&& t.tree@ == (if moved {
                hung(s.tree@, child, new_parent)
            } else {
                s.tree@
            })
            &&& t.tree.spec_root() == s.tree.spec_root()
            &&& s.tree.wf() && new_parent.0 < s.tree@.len() ==> t.tree.wf()
            &&& s.tree.whole() && part_at(s.tree@, new_parent) is Some ==> t.tree.whole()
            &&& t == (EditorState {
                tree: t.tree,
                dirty: s.dirty || moved,
                status: t.status,
                ..s
            })
            &&& t.status@ == (if moved {
                "Re-parented part"@
            } else {
                "Re-parent rejected (cycle or root)"@
            })
        },
        PendingAction::DeletePart(id) => {
            let gone = id != s.tree.spec_root() && part_at(s.tree@, id) is Some;
            &&& tc == reload_rename(sc)
            &&& t.tree@ == (if gone {
                without(s.tree@, id)
            } else {
                s.tree@
            })
            &&& t.tree.spec_root() == s.tree.spec_root()
            &&& s.tree.wf() ==> t.tree.wf()
            &&& s.tree.whole() ==> t.tree.whole()
            &&& t.model.wf()
            &&& t.model@ == (if gone {
                without_part(s.model@, id)
            } else {
                s.model@
            })
            &&& t.model.spec_resolution() == s.model.spec_resolution()
            &&& t.model.spec_blocks() == s.model.spec_blocks()
            &&& t == (EditorState {
                tree: t.tree,
                model: t.model,
                active_part: s.tree.spec_root(),
                dirty: true,
                status: t.status,
                ..s
            })
            &&& t.status@ == "Deleted part"@
        },
        PendingAction::ClearGeometry => {
            &&& tc == sc
            &&& t.model.wf()
            &&& t.model@ == Map::<Cell, Voxel>::empty()
            &&& t.model.spec_blocks() == s.model.spec_blocks()
            &&& same_project(t, s)
            &&& same_selection(t, s)
            &&& same_view(t, s)
            &&& t.dirty
            &&& t.status@ == "Cleared geometry"@
        },
    }
}

/// The list of projects on disk may have changed.
pub open spec fn list_is_stale(action: PendingAction, outcome: IoOutcome) -> bool {
    match action {
        PendingAction::Save => outcome matches IoOutcome::Saved(r) && r is Ok,
        PendingAction::Rename { .. } => outcome matches IoOutcome::Done(r) && r is Ok,
        PendingAction::Delete(_) => outcome matches IoOutcome::Done(r) && r is Ok,
        _ => false,
    }
}

fn quote(before: &str, name: &str, after: &str) -> (s: String)
    ensures
        s@ == quoted(before@, name@, after@),
{
    let mut s = before.to_owned();
    s.append("'");
    s.append(name);
    s.append("'");
    s.append(after);
    s
}

fn dimensions_text(size: [u32; 3]) -> (s: String)
    ensures
        s@ == dimensions(size@),
{
    let mut s = "  (".to_owned();
    push_decimal(&mut s, size[0] as u64);
    s.append("×");
    push_decimal(&mut s, size[1] as u64);
    s.append("×");
    push_decimal(&mut s, size[2] as u64);
    s.append(" vox)");
    s
}

fn failure(what: &str, e: &IoError) -> (s: String)
    ensures
        s@ == what@ + error_text(*e),
{
    let text = e.message();
    concat(what, text.as_str())
}

/// Apply a deferred [`PendingAction`] after the draw pass, with what came of its
/// file work. Tells whether the list of projects must be read again.
pub fn apply_action(
    action: PendingAction,
    outcome: IoOutcome,
    state: &mut EditorState,
    scratch: &mut UiScratch,
    blocks: &[BlockMaterial],
) -> (refresh: bool)
    requires
        fits(action, outcome, *old(state)),
    ensures
        applied(
            action,
            outcome,
            *old(state),
            *final(state),
            *old(scratch),
            *final(scratch),
            blocks@,
        ),
        refresh == list_is_stale(action, outcome),
{
    match action {
        PendingAction::Save => match outcome {
            IoOutcome::Saved(Ok(size)) => {
                let after = dimensions_text(size);
                state.status = quote("Saved ", state.name.as_str(), after.as_str());
                true
            },
            IoOutcome::Saved(Err(e)) => {
                state.status = failure("Save failed: ", &e);
                false
            },
            _ => false,
        },
        PendingAction::New(object_type) => {
            state.new_project(object_type, blocks);
            false
        },
        PendingAction::Load(name) => match outcome {
            IoOutcome::Loaded(Ok(p)) => {
                let count: usize = p.model.voxel_count();
                let mut after = "  (".to_owned();
                push_decimal(&mut after, count as u64);
                after.append(" vox)");
                let status = quote("Loaded ", name.as_str(), after.as_str());
                state.replace(name, p.object_type, p.model, p.tree, p.palette);
                state.status = status;
                false
            },
            IoOutcome::Loaded(Err(e)) => {
                state.status = failure("Load failed: ", &e);
                false
            },
            _ => false,
        },
        PendingAction::Rename { from, to } => match outcome {
            IoOutcome::Done(Ok(_)) => {
                let after = quote(" → ", to.as_str(), "");
                let status = quote("Renamed ", from.as_str(), after.as_str());
                if same_text(state.name.as_str(), from.as_str()) {
                    state.name = to;
                }
                state.status = status;
                true
            },
            IoOutcome::Done(Err(e)) => {
                state.status = failure("Rename failed: ", &e);
                false
            },
            _ => false,
        },
        PendingAction::Delete(name) => match outcome {
            IoOutcome::Done(Ok(_)) => {
                state.status = quote("Deleted ", name.as_str(), "");
                true
            },
            IoOutcome::Done(Err(e)) => {
                state.status = failure("Delete failed: ", &e);
                false
            },
            _ => false,
        },
        PendingAction::AddPart { parent, name } => {
            let id = state.tree.add(name, parent);
            state.select_part(id);
            scratch.part_rename_for = None;
            state.status = "Added part".to_owned();
            false
        },
        PendingAction::RenamePart { id, name } => {
            let renamed = match state.tree.get_mut(id) {
                Some(part) => {
                    part.name = name;
                    true
                },
                None => false,
            };
            if renamed {
                scratch.part_rename_for = None;
                state.status = "Renamed part".to_owned();
            }
            false
        },
        PendingAction::Reparent { child, new_parent } => {
            if state.tree.reparent(child, new_parent) {
                state.dirty = true;
                state.status = "Re-parented part".to_owned();
            } else {
                state.status = "Re-parent rejected (cycle or root)".to_owned();
            }
            false
        },
        PendingAction::DeletePart(id) => {
            let dropped = state.tree.remove(id);
            if dropped.len() > 0 {
                state.model.remove_part(dropped[0]);
            }
            state.active_part = state.tree.root();
            scratch.part_rename_for = None;
            state.dirty = true;
            state.status = "Deleted part".to_owned();
            false
        },
        PendingAction::ClearGeometry => {
            state.clear_geometry();
            false
        },
    }
}

/// A row shows the part's own name and the number of its voxels.
pub open spec fn shows_part(arena: Arena, m: Map<Cell, Voxel>, r: RowModel) -> bool {
    part_at(arena, r.id) matches Some(p) && r.name == p.name && r.count == of_part(
        m,
        r.id,
    ).dom().len()
}

proof fn lemma_rows_show(
    arena: Arena,
    m: Map<Cell, Voxel>,
    id: PartId,
    depth: nat,
    levels: nat,
)
    requires
        ids_ok(arena),
    ensures
        forall|i: int|
            0 <= i < rows_from(arena, m, id, depth, levels).len() ==> shows_part(
                arena,
                m,
                #[trigger] rows_from(arena, m, id, depth, levels)[i],
            ),
    decreases levels, 0nat,
{
    if levels > 0 && part_at(arena, id) is Some {
        let rows = rows_from(arena, m, id, depth, levels);
        let parts = child_parts(arena, id);
        let below_rows = rows_of_all(arena, m, parts, depth + 1, (levels - 1) as nat);
        lemma_rows_of_all_show(arena, m, parts, depth + 1, (levels - 1) as nat);
        assert forall|i: int| 0 <= i < rows.len() implies shows_part(
            arena,
            m,
            #[trigger] rows[i],
        ) by {
            if i > 0 {
                assert(rows[i] == below_rows[i - 1]);
            }
        }
    }
}

proof fn lemma_rows_of_all_show(
    arena: Arena,
    m: Map<Cell, Voxel>,
    parts: Seq<PartModel>,
    depth: nat,
    levels: nat,
)
    requires
        ids_ok(arena),
    ensures
        forall|i: int|
            0 <= i < rows_of_all(arena, m, parts, depth, levels).len() ==> shows_part(
                arena,
                m,
                #[trigger] rows_of_all(arena, m, parts, depth, levels)[i],
            ),
    decreases levels, parts.len(),
{
    if parts.len() > 0 {
        let all = rows_of_all(arena, m, parts, depth, levels);
        let rest = rows_of_all(arena, m, parts.drop_last(), depth, levels);
        let own = rows_from(arena, m, parts.last().id, depth, levels);
        lemma_rows_of_all_show(arena, m, parts.drop_last(), depth, levels);
        lemma_rows_show(arena, m, parts.last().id, depth, levels);
        assert forall|i: int| 0 <= i < all.len() implies shows_part(
            arena,
            m,
            #[trigger] all[i],
        ) by {
            if i < rest.len() {
                assert(all[i] == rest[i]);
            } else {
                assert(all[i] == own[i - rest.len()]);
            }
        }
    }
}

/// There is a row for the part at this depth.
pub open spec fn has_row(rows: Seq<RowModel>, id: PartId, depth: nat) -> bool {
    exists|i: int| 0 <= i < rows.len() && (#[trigger] rows[i]).id == id && rows[i].depth == depth
}

proof fn lemma_rows_of_all_hold(
    arena: Arena,
    m: Map<Cell, Voxel>,
    parts: Seq<PartModel>,
    depth: nat,
    levels: nat,
    k: int,
    c: PartId,
    d: nat,
)
    requires
        0 <= k < parts.len(),
        has_row(rows_from(arena, m, parts[k].id, depth, levels), c, d),
    ensures
        has_row(rows_of_all(arena, m, parts, depth, levels), c, d),
    decreases parts.len(),
{
    let rest = rows_of_all(arena, m, parts.drop_last(), depth, levels);
    let own = rows_from(arena, m, parts.last().id, depth, levels);
    let all = rows_of_all(arena, m, parts, depth, levels);
    assert(all == rest + own);
    if k < parts.len() - 1 {
        lemma_rows_of_all_hold(arena, m, parts.drop_last(), depth, levels, k, c, d);
        let i = choose|i: int|
            0 <= i < rest.len() && (#[trigger] rest[i]).id == c && rest[i].depth == d;
        assert(all[i] == rest[i]);
    } else {
        let i = choose|i: int|
            0 <= i < own.len() && (#[trigger] own[i]).id == c && own[i].depth == d;
        assert(all[rest.len() + i] == own[i]);
    }
}

proof fn lemma_row_of_descendant(
    arena: Arena,
    m: Map<Cell, Voxel>,
    id: PartId,
    depth: nat,
    levels: nat,
    c: PartId,
    n: nat,
)
    requires
        ids_ok(arena),
        n < levels,
        ancestor(arena, Some(c), n) == Some(id),
        forall|k: nat|
            k <= n ==> (#[trigger] ancestor(arena, Some(c), k) matches Some(x) && part_at(
                arena,
                x,
            ) is Some),
    ensures
        has_row(rows_from(arena, m, id, depth, levels), c, depth + n),
    decreases n,
{
    let rows = rows_from(arena, m, id, depth, levels);
    assert(part_at(arena, id) is Some);
    if n == 0 {
        assert(rows[0].id == c && rows[0].depth == depth);
    } else {
        let x = ancestor(arena, Some(c), (n - 1) as nat)->0;
        lemma_ancestor_step(arena, Some(c), (n - 1) as nat);
        assert(up(arena, x) == Some(id));
        let parts = child_parts(arena, id);
        let p = part_at(arena, x)->0;
        assert(p.id == x);
        children_name_their_parent(arena, id, p);
        let k = parts.index_of(p);
        lemma_row_of_descendant(arena, m, x, depth + 1, (levels - 1) as nat, c, (n - 1) as nat);
        lemma_rows_of_all_hold(
            arena,
            m,
            parts,
            depth + 1,
            (levels - 1) as nat,
            k,
            c,
            depth + n,
        );
        let below_rows = rows_of_all(arena, m, parts, depth + 1, (levels - 1) as nat);
        let i = choose|i: int|
            0 <= i < below_rows.len() && (#[trigger] below_rows[i]).id == c && below_rows[i].depth
                == depth + n;
        assert(rows[i + 1] == below_rows[i]);
    }
}

/// The rig list shows every live part under its own name and with the number of its
/// voxels, indented by the number of its ancestors; the root comes first.
pub proof fn every_part_has_a_row(tree: PartTree, m: Map<Cell, Voxel>, id: PartId, n: nat)
    requires
        tree.whole(),
        tree@.len() <= u32::MAX,
        part_at(tree@, id) is Some,
        ancestor(tree@, Some(id), n) == Some(tree.spec_root()),
    ensures
        ({
            let rows = rows_from(tree@, m, tree.spec_root(), 0, tree@.len());
            &&& has_row(rows, id, n)
            &&& rows[0].id == tree.spec_root() && rows[0].depth == 0
            &&& forall|i: int|
                0 <= i < rows.len() ==> shows_part(tree@, m, #[trigger] rows[i])
        }),
{
    let root = tree.spec_root();
    let levels = if n < tree@.len() {
        tree@.len()
    } else {
        n + 1
    };
    rows_reach_every_level(tree, m, levels);
    let k = every_chain_ends_at_the_root(tree@, root, id);
    lemma_ancestor_step(tree@, Some(id), n);
    if n > k {
        lemma_ancestor_sum(tree@, Some(id), k + 1, (n - k - 1) as nat);
    } else if n < k {
        assert(ancestor(tree@, Some(id), n) != ancestor(tree@, Some(id), k));
    }
    lemma_row_of_descendant(tree@, m, root, 0, levels, id, n);
    lemma_rows_show(tree@, m, root, 0, tree@.len());
}

/// An action whose file work fails changes nothing but the status line.
pub proof fn failures_change_only_the_status(
    action: PendingAction,
    outcome: IoOutcome,
    s: EditorState,
    t: EditorState,
    sc: UiScratch,
    tc: UiScratch,
    blocks: Seq<BlockMaterial>,
)
    requires
        applied(action, outcome, s, t, sc, tc, blocks),
        fits(action, outcome, s),
        match outcome {
            IoOutcome::Saved(r) => r is Err && action is Save,
            IoOutcome::Loaded(r) => r is Err && action is Load,
            IoOutcome::Done(r) => r is Err && (action is Rename || action is Delete),
            IoOutcome::Nothing => false,
        },
    ensures
        t == (EditorState { status: t.status, ..s }),
        tc == sc,
        !list_is_stale(action, outcome),
{
}

/// What each action leaves alone: only a new or a loaded project, a deleted part and
/// clearing touch the voxels; only those, and adding, renaming and moving parts, touch
/// the rig; only new and loaded projects touch the palette and the object type; and
/// no action touches the overlays.
pub proof fn actions_keep_to_their_subject(
    action: PendingAction,
    outcome: IoOutcome,
    s: EditorState,
    t: EditorState,
    sc: UiScratch,
    tc: UiScratch,
    blocks: Seq<BlockMaterial>,
)
    requires
        applied(action, outcome, s, t, sc, tc, blocks),
        fits(action, outcome, s),
    ensures
        t.show_grid == s.show_grid && t.show_reference == s.show_reference && t.show_pivots
            == s.show_pivots,
        !(action is New || action is Load) ==> {
            &&& t.palette == s.palette
            &&& t.object_type == s.object_type
            &&& t.tool == s.tool
            &&& t.active_color == s.active_color
            &&& t.tree.spec_root() == s.tree.spec_root()
        },
        !(action is New || action is Load || action is Rename) ==> t.name == s.name,
        !(action is New || action is Load || action is DeletePart || action is ClearGeometry)
            ==> t.model == s.model,
        action is Save || action is Rename || action is Delete || action is ClearGeometry ==> t.tree
            == s.tree && t.active_part == s.active_part,
{
}

/// A new project is empty, of one block, with the default rig of its type and the
/// game's palette, and its root part selected for painting.
pub proof fn new_projects_start_empty(
    object_type: ObjectType,
    outcome: IoOutcome,
    s: EditorState,
    t: EditorState,
    sc: UiScratch,
    tc: UiScratch,
    blocks: Seq<BlockMaterial>,
    c: Cell,
)
    requires
        applied(PendingAction::New(object_type), outcome, s, t, sc, tc, blocks),
    ensures
        !t.model@.contains_key(c),
        t.model.spec_blocks() == 1,
        t.model.spec_resolution() == s.model.spec_resolution(),
        t.object_type == object_type,
        t.name@ == "untitled"@,
        t.tree@ == default_arena(object_type),
        t.active_part == t.tree.spec_root(),
        t.palette@.len() == blocks.len() + 10,
        t.active_color < t.palette@.len(),
        t.tool == Tool::Paint,
        t.dirty,
{
}

/// A loaded project is what was read, under its name, with its root part selected and
/// a color of its palette.
pub proof fn loading_shows_what_was_read(
    name: String,
    p: LoadedProject,
    s: EditorState,
    t: EditorState,
    sc: UiScratch,
    tc: UiScratch,
    blocks: Seq<BlockMaterial>,
)
    requires
        applied(
            PendingAction::Load(name),
            IoOutcome::Loaded(Ok(p)),
            s,
            t,
            sc,
            tc,
            blocks,
        ),
        p.palette.wf(),
    ensures
        t.model@ == p.model@,
        t.tree@ == p.tree@,
        t.palette@ == p.palette@,
        t.object_type == p.object_type,
        t.name@ == name@,
        t.active_part == p.tree.spec_root(),
        t.active_color < t.palette@.len(),
        s.active_color < p.palette@.len() <= 256 ==> t.active_color == s.active_color,
        t.dirty,
{
}

/// The open project takes the new name exactly if it was the one renamed.
pub proof fn renaming_follows_the_open_project(
    from: String,
    to: String,
    s: EditorState,
    t: EditorState,
    sc: UiScratch,
    tc: UiScratch,
    blocks: Seq<BlockMaterial>,
)
    requires
        applied(
            PendingAction::Rename { from, to },
            IoOutcome::Done(Ok(())),
            s,
            t,
            sc,
            tc,
            blocks,
        ),
    ensures
        s.name@ == from@ ==> t.name@ == to@,
        s.name@ != from@ ==> t.name@ == s.name@,
        list_is_stale(PendingAction::Rename { from, to }, IoOutcome::Done(Ok(()))),
{
}

/// A part that is added is live under its parent and selected; every other part stays.
pub proof fn added_parts_are_selected(
    parent: PartId,
    name: String,
    outcome: IoOutcome,
    s: EditorState,
    t: EditorState,
    sc: UiScratch,
    tc: UiScratch,
    blocks: Seq<BlockMaterial>,
    other: PartId,
)
    requires
        applied(PendingAction::AddPart { parent, name }, outcome, s, t, sc, tc, blocks),
        s.tree@.len() < u32::MAX,
    ensures
        part_at(s.tree@, t.active_part) is None,
        part_at(t.tree@, t.active_part) matches Some(p) && p.name == name@ && p.parent == Some(
            parent,
        ),
        other != t.active_part ==> part_at(t.tree@, other) == part_at(s.tree@, other),
        tc.part_rename_for is None,
{
}

/// Renaming a part changes its name and nothing else of the rig.
pub proof fn renaming_a_part_keeps_the_rig(
    id: PartId,
    name: String,
    outcome: IoOutcome,
    s: EditorState,
    t: EditorState,
    sc: UiScratch,
    tc: UiScratch,
    blocks: Seq<BlockMaterial>,
    other: PartId,
)
    requires
        applied(PendingAction::RenamePart { id, name }, outcome, s, t, sc, tc, blocks),
    ensures
        other != id ==> part_at(t.tree@, other) == part_at(s.tree@, other),
        match part_at(s.tree@, id) {
            Some(p) => part_at(t.tree@, id) == Some(
                PartModel { id: p.id, name: name@, parent: p.parent, pivot: p.pivot },
            ),
            None => t.tree@ == s.tree@ && t.status == s.status,
        },
        t.active_part == s.active_part,
{
}

/// Moving a part keeps the voxels; it is refused, and said so, for the root and where
/// it would make a loop.
pub proof fn moving_a_part_keeps_the_voxels(
    child: PartId,
    new_parent: PartId,
    outcome: IoOutcome,
    s: EditorState,
    t: EditorState,
    sc: UiScratch,
    tc: UiScratch,
    blocks: Seq<BlockMaterial>,
)
    requires
        applied(PendingAction::Reparent { child, new_parent }, outcome, s, t, sc, tc, blocks),
    ensures
        t.model == s.model,
        child == s.tree.spec_root() || below(s.tree@, new_parent, child) ==> t.tree@ == s.tree@
            && t.dirty == s.dirty && t.status@ == "Re-parent rejected (cycle or root)"@,
        child != s.tree.spec_root() && part_at(s.tree@, child) is Some && !below(
            s.tree@,
            new_parent,
            child,
        ) ==> up(t.tree@, child) == Some(new_parent) && t.dirty && t.status@
            == "Re-parented part"@,
{
}

/// Deleting a part takes it out of the rig with its voxels, and no others, hangs its
/// children under its parent, and selects the root. The root itself stays.
pub proof fn deleting_a_part_takes_its_voxels(
    id: PartId,
    outcome: IoOutcome,
    s: EditorState,
    t: EditorState,
    sc: UiScratch,
    tc: UiScratch,
    blocks: Seq<BlockMaterial>,
    c: Cell,
    other: PartId,
)
    requires
        applied(PendingAction::DeletePart(id), outcome, s, t, sc, tc, blocks),
    ensures
        t.active_part == s.tree.spec_root(),
        id == s.tree.spec_root() || part_at(s.tree@, id) is None ==> t.tree@ == s.tree@ && t.model@
            == s.model@,
        id != s.tree.spec_root() && part_at(s.tree@, id) is Some ==> {
            &&& part_at(t.tree@, id) is None
            &&& t.model@.contains_key(c) <==> s.model@.contains_key(c) && s.model@[c].part != id
            &&& t.model@.contains_key(c) ==> t.model@[c] == s.model@[c]
            &&& other != id && up(s.tree@, other) == Some(id) ==> up(t.tree@, other) == up(
                s.tree@,
                id,
            )
            &&& other != id && up(s.tree@, other) != Some(id) ==> part_at(t.tree@, other) == part_at(
                s.tree@,
                other,
            )
        },
{
}

/// The list of projects is read again exactly after a save, a rename or a delete
/// that worked.
pub proof fn lists_are_refreshed_after_file_work(action: PendingAction, outcome: IoOutcome)
    ensures
        list_is_stale(action, outcome) ==> action is Save || action is Rename || action is Delete,
        action is Save ==> (list_is_stale(action, outcome) <==> (outcome matches IoOutcome::Saved(
            r,
        ) && r is Ok)),
        action is Rename || action is Delete ==> (list_is_stale(action, outcome) <==> (
        outcome matches IoOutcome::Done(r) && r is Ok)),
{
}

/// What the status line says of an action and its file work: what was done, with the
/// name in quotes, or what failed, with the reason.
pub proof fn status_lines_say_what_was_done(
    action: PendingAction,
    outcome: IoOutcome,
    s: EditorState,
    t: EditorState,
    sc: UiScratch,
    tc: UiScratch,
    blocks: Seq<BlockMaterial>,
)
    requires
        applied(action, outcome, s, t, sc, tc, blocks),
    ensures
        action is Save ==> match outcome {
            IoOutcome::Saved(Ok(size)) => t.status@ == "Saved "@ + ("'"@ + s.name@ + "'"@) + (
            "  ("@ + decimal(size[0] as nat) + "×"@ + decimal(size[1] as nat) + "×"@ + decimal(
                size[2] as nat,
            ) + " vox)"@),
            IoOutcome::Saved(Err(e)) => t.status@ == "Save failed: "@ + error_text(e),
            _ => true,
        },
        action matches PendingAction::Load(name) ==> match outcome {
            IoOutcome::Loaded(Ok(p)) => t.status@ == "Loaded "@ + ("'"@ + name@ + "'"@) + ("  ("@
                + decimal(p.model@.dom().len()) + " vox)"@),
            IoOutcome::Loaded(Err(e)) => t.status@ == "Load failed: "@ + error_text(e),
            _ => true,
        },
        action matches PendingAction::Delete(name) ==> match outcome {
            IoOutcome::Done(Ok(_)) => t.status@ == "Deleted "@ + ("'"@ + name@ + "'"@) + ""@,
            IoOutcome::Done(Err(e)) => t.status@ == "Delete failed: "@ + error_text(e),
            _ => true,
        },
{
    match (action, outcome) {
        (PendingAction::Save, IoOutcome::Saved(Ok(size))) => {
            assert(t.status@ =~= "Saved "@ + ("'"@ + s.name@ + "'"@) + ("  ("@ + decimal(
                size[0] as nat,
            ) + "×"@ + decimal(size[1] as nat) + "×"@ + decimal(size[2] as nat) + " vox)"@));
        },
        (PendingAction::Load(name), IoOutcome::Loaded(Ok(p))) => {
            assert(t.status@ =~= "Loaded "@ + ("'"@ + name@ + "'"@) + ("  ("@ + decimal(
                p.model@.dom().len(),
            ) + " vox)"@));
        },
        (PendingAction::Delete(name), IoOutcome::Done(Ok(_))) => {
            assert(t.status@ =~= "Deleted "@ + ("'"@ + name@ + "'"@) + ""@);
        },
        _ => {},
    }
}

/// The row is of a part that hangs under `id`, as many levels down as it is indented.
spec fn hangs_under(arena: Arena, r: RowModel, id: PartId, depth: nat) -> bool {
    r.depth >= depth && ancestor(arena, Some(r.id), (r.depth - depth) as nat) == Some(id)
}

/// No part has two rows.
pub open spec fn one_row_each(rows: Seq<RowModel>) -> bool {
    forall|i: int, j: int|
        0 <= i < j < rows.len() ==> (#[trigger] rows[i]).id != (#[trigger] rows[j]).id
}

proof fn lemma_rows_hang(
    arena: Arena,
    m: Map<Cell, Voxel>,
    id: PartId,
    depth: nat,
    levels: nat,
)
    requires
        ids_ok(arena),
        acyclic(arena),
    ensures
        one_row_each(rows_from(arena, m, id, depth, levels)),
        forall|i: int|
            0 <= i < rows_from(arena, m, id, depth, levels).len() ==> hangs_under(
                arena,
                #[trigger] rows_from(arena, m, id, depth, levels)[i],
                id,
                depth,
            ),
    decreases levels, 0nat,
{
    if levels > 0 && part_at(arena, id) is Some {
        let rows = rows_from(arena, m, id, depth, levels);
        let parts = child_parts(arena, id);
        let next = (levels - 1) as nat;
        let below_rows = rows_of_all(arena, m, parts, depth + 1, next);
        assert(parts.take(parts.len() as int) =~= parts);
        lemma_child_rows_hang(arena, m, id, parts.len(), depth + 1, next);
        assert(rows[0].id == id && rows[0].depth == depth);
        assert forall|i: int| 0 <= i < rows.len() implies hangs_under(
            arena,
            #[trigger] rows[i],
            id,
            depth,
        ) && (i > 0 ==> rows[i].id != id) by {
            if i > 0 {
                let r = below_rows[i - 1];
                assert(rows[i] == r);
                assert(hangs_under(arena, r, id, depth));
                assert(r.depth > depth);
                assert(rooted(arena, Some(r.id)));
                if r.id == id {
                    lemma_no_cycle(arena, id, (r.depth - depth) as nat);
                }
            }
        }
        assert forall|i: int, j: int| 0 <= i < j < rows.len() implies (#[trigger] rows[i]).id != (
        #[trigger] rows[j]).id by {
            assert(rows[j] == below_rows[j - 1]);
            if i > 0 {
                assert(rows[i] == below_rows[i - 1]);
            }
        }
    }
}

proof fn lemma_child_rows_hang(
    arena: Arena,
    m: Map<Cell, Voxel>,
    id: PartId,
    n: nat,
    depth: nat,
    levels: nat,
)
    requires
        ids_ok(arena),
        acyclic(arena),
        n <= child_parts(arena, id).len(),
        depth > 0,
    ensures
        ({
            let rows = rows_of_all(arena, m, child_parts(arena, id).take(n as int), depth, levels);
            &&& one_row_each(rows)
            &&& forall|i: int|
                0 <= i < rows.len() ==> {
                    let r = #[trigger] rows[i];
                    &&& r.depth >= depth
                    &&& hangs_under(arena, r, id, (depth - 1) as nat)
                    &&& exists|k: int|
                        0 <= k < n && hangs_under(
                            arena,
                            r,
                            (#[trigger] child_parts(arena, id)[k]).id,
                            depth,
                        )
                }
        }),
    decreases levels, n + 1,
{
    let parts = child_parts(arena, id);
    let rows = rows_of_all(arena, m, parts.take(n as int), depth, levels);
    if n > 0 {
        let last = parts[n - 1].id;
        assert(parts.take(n as int).drop_last() =~= parts.take(n - 1));
        assert(parts.take(n as int).last() == parts[n - 1]);
        let rest = rows_of_all(arena, m, parts.take(n - 1), depth, levels);
        let own = rows_from(arena, m, last, depth, levels);
        assert(rows == rest + own);
        lemma_child_rows_hang(arena, m, id, (n - 1) as nat, depth, levels);
        lemma_rows_hang(arena, m, last, depth, levels);
        lemma_children(arena, id, n - 1);
        children_name_their_parent(arena, id, parts[n - 1]);
        assert forall|i: int| 0 <= i < rows.len() implies {
            let r = #[trigger] rows[i];
            &&& r.depth >= depth
            &&& hangs_under(arena, r, id, (depth - 1) as nat)
            &&& exists|k: int|
                0 <= k < n && hangs_under(
                    arena,
                    r,
                    (#[trigger] child_parts(arena, id)[k]).id,
                    depth,
                )
        } by {
            if i < rest.len() {
                let r = rest[i];
                assert(rows[i] == r);
                let k = choose|k: int|
                    0 <= k < n - 1 && hangs_under(
                        arena,
                        r,
                        (#[trigger] child_parts(arena, id)[k]).id,
                        depth,
                    );
                assert(hangs_under(arena, r, child_parts(arena, id)[k].id, depth));
            } else {
                let r = own[i - rest.len()];
                assert(rows[i] == r);
                lemma_ancestor_step(arena, Some(r.id), (r.depth - depth) as nat);
                assert(hangs_under(arena, r, child_parts(arena, id)[n - 1].id, depth));
            }
        }
        assert forall|i: int, j: int| 0 <= i < j < rows.len() implies (#[trigger] rows[i]).id != (
        #[trigger] rows[j]).id by {
            if j < rest.len() {
                assert(rows[i] == rest[i] && rows[j] == rest[j]);
            } else if i >= rest.len() {
                assert(rows[i] == own[i - rest.len()] && rows[j] == own[j - rest.len()]);
            } else {
                let r = rest[i];
                let o = own[j - rest.len()];
                assert(rows[i] == r && rows[j] == o);
                if r.id == o.id {
                    let k = choose|k: int|
                        0 <= k < n - 1 && hangs_under(
                            arena,
                            r,
                            (#[trigger] child_parts(arena, id)[k]).id,
                            depth,
                        );
                    lemma_same_distance(
                        arena,
                        r.id,
                        id,
                        (r.depth - depth + 1) as nat,
                        (o.depth - depth + 1) as nat,
                    );
                    lemma_ancestor_step(arena, Some(o.id), (o.depth - depth) as nat);
                    assert(parts[k].id == last);
                }
            }
        }
    }
}

/// A part is an ancestor of another at one distance only.
proof fn lemma_same_distance(arena: Arena, c: PartId, a: PartId, i: nat, j: nat)
    requires
        acyclic(arena),
        ancestor(arena, Some(c), i) == Some(a),
        ancestor(arena, Some(c), j) == Some(a),
    ensures
        i == j,
{
    assert(rooted(arena, Some(a)));
    if i < j {
        lemma_ancestor_sum(arena, Some(c), i, (j - i) as nat);
        lemma_no_cycle(arena, a, (j - i) as nat);
    } else if j < i {
        lemma_ancestor_sum(arena, Some(c), j, (i - j) as nat);
        lemma_no_cycle(arena, a, (i - j) as nat);
    }
}

/// No part is listed twice, and each is indented by its distance from the root.
pub proof fn no_part_is_listed_twice(tree: PartTree, m: Map<Cell, Voxel>, i: int)
    requires
        tree.wf(),
        0 <= i < rows_from(tree@, m, tree.spec_root(), 0, tree@.len()).len(),
    ensures
        one_row_each(rows_from(tree@, m, tree.spec_root(), 0, tree@.len())),
        ({
            let r = rows_from(tree@, m, tree.spec_root(), 0, tree@.len())[i];
            ancestor(tree@, Some(r.id), r.depth) == Some(tree.spec_root())
        }),
{
    lemma_rows_hang(tree@, m, tree.spec_root(), 0, tree@.len());
    assert(hangs_under(
        tree@,
        rows_from(tree@, m, tree.spec_root(), 0, tree@.len())[i],
        tree.spec_root(),
        0,
    ));
}

/// The `j`-th row stands right under the `i`-th, one level further in, with nothing but
/// deeper rows or siblings between.
pub open spec fn stands_under(rows: Seq<RowModel>, i: int, j: int) -> bool {
    &&& 0 <= i < j < rows.len()
    &&& rows[i].depth + 1 == rows[j].depth
    &&& forall|k: int| i < k < j ==> (#[trigger] rows[k]).depth >= rows[j].depth
}

/// Rows stand under their parents, and the children of one part by their ids.
pub open spec fn well_nested(arena: Arena, rows: Seq<RowModel>) -> bool {
    &&& forall|i: int, j: int| #[trigger]
        stands_under(rows, i, j) ==> up(arena, rows[j].id) == Some(rows[i].id)
    &&& forall|i: int, j: int|
        0 <= i < j < rows.len() && up(arena, (#[trigger] rows[i]).id) is Some && up(
            arena,
            rows[i].id,
        ) == up(arena, (#[trigger] rows[j]).id) ==> rows[i].id.0 < rows[j].id.0
}

proof fn lemma_rows_nest(
    arena: Arena,
    m: Map<Cell, Voxel>,
    id: PartId,
    depth: nat,
    levels: nat,
)
    requires
        ids_ok(arena),
        acyclic(arena),
    ensures
        well_nested(arena, rows_from(arena, m, id, depth, levels)),
        rows_from(arena, m, id, depth, levels).len() > 0 ==> rows_from(
            arena,
            m,
            id,
            depth,
            levels,
        )[0].depth == depth,
    decreases levels, 0nat,
{
    if levels > 0 && part_at(arena, id) is Some {
        let rows = rows_from(arena, m, id, depth, levels);
        let parts = child_parts(arena, id);
        let next = (levels - 1) as nat;
        let below_rows = rows_of_all(arena, m, parts, depth + 1, next);
        assert(parts.take(parts.len() as int) =~= parts);
        lemma_child_rows_hang(arena, m, id, parts.len(), depth + 1, next);
        lemma_child_rows_nest(arena, m, id, parts.len(), depth + 1, next);
        assert forall|i: int, j: int| #[trigger] stands_under(rows, i, j) implies up(
            arena,
            rows[j].id,
        ) == Some(rows[i].id) by {
            let r = below_rows[j - 1];
            assert(rows[j] == r);
            if i == 0 {
                assert(hangs_under(arena, r, id, depth));
                lemma_ancestor_step(arena, Some(r.id), 0);
            } else {
                assert(stands_under(below_rows, i - 1, j - 1)) by {
                    assert(rows[i] == below_rows[i - 1]);
                    assert forall|k: int| i - 1 < k < j - 1 implies (#[trigger] below_rows[k]).depth
                        >= r.depth by {
                        assert(rows[k + 1] == below_rows[k]);
                    }
                }
            }
        }
        assert forall|i: int, j: int|
            0 <= i < j < rows.len() && up(arena, (#[trigger] rows[i]).id) is Some && up(
                arena,
                rows[i].id,
            ) == up(arena, (#[trigger] rows[j]).id) implies rows[i].id.0 < rows[j].id.0 by {
            let r = below_rows[j - 1];
            assert(rows[j] == r);
            if i == 0 {
                // the parent of `id` would hang under `id`
                assert(hangs_under(arena, r, id, depth));
                let d = (r.depth - depth) as nat;
                lemma_ancestor_step(arena, Some(r.id), 0);
                lemma_ancestor_step(arena, Some(id), 0);
                lemma_ancestor_sum(arena, Some(r.id), 1, (d - 1) as nat);
                lemma_ancestor_sum(arena, Some(id), 1, (d - 1) as nat);
                assert(rooted(arena, Some(id)));
                lemma_no_cycle(arena, id, d);
            } else {
                assert(rows[i] == below_rows[i - 1]);
            }
        }
    }
}

proof fn lemma_child_rows_nest(
    arena: Arena,
    m: Map<Cell, Voxel>,
    id: PartId,
    n: nat,
    depth: nat,
    levels: nat,
)
    requires
        ids_ok(arena),
        acyclic(arena),
        n <= child_parts(arena, id).len(),
        depth > 0,
    ensures
        well_nested(
            arena,
            rows_of_all(arena, m, child_parts(arena, id).take(n as int), depth, levels),
        ),
    decreases levels, n + 1,
{
    let parts = child_parts(arena, id);
    let rows = rows_of_all(arena, m, parts.take(n as int), depth, levels);
    if n > 0 {
        let last = parts[n - 1].id;
        assert(parts.take(n as int).drop_last() =~= parts.take(n - 1));
        assert(parts.take(n as int).last() == parts[n - 1]);
        let rest = rows_of_all(arena, m, parts.take(n - 1), depth, levels);
        let own = rows_from(arena, m, last, depth, levels);
        assert(rows == rest + own);
        lemma_child_rows_nest(arena, m, id, (n - 1) as nat, depth, levels);
        lemma_child_rows_hang(arena, m, id, (n - 1) as nat, depth, levels);
        lemma_rows_nest(arena, m, last, depth, levels);
        lemma_rows_hang(arena, m, last, depth, levels);
        lemma_children(arena, id, n - 1);
        children_name_their_parent(arena, id, parts[n - 1]);
        assert forall|i: int, j: int| #[trigger] stands_under(rows, i, j) implies up(
            arena,
            rows[j].id,
        ) == Some(rows[i].id) by {
            let a = rest.len() as int;
            if j < a {
                assert(stands_under(rest, i, j)) by {
                    assert(rows[i] == rest[i] && rows[j] == rest[j]);
                    assert forall|k: int| i < k < j implies (#[trigger] rest[k]).depth
                        >= rest[j].depth by {
                        assert(rows[k] == rest[k]);
                    }
                }
                assert(rows[i] == rest[i] && rows[j] == rest[j]);
            } else if i >= a {
                assert(stands_under(own, i - a, j - a)) by {
                    assert(rows[i] == own[i - a] && rows[j] == own[j - a]);
                    assert forall|k: int| i - a < k < j - a implies (#[trigger] own[k]).depth
                        >= own[j - a].depth by {
                        assert(rows[k + a] == own[k]);
                    }
                }
                assert(rows[i] == own[i - a] && rows[j] == own[j - a]);
            } else {
                assert(rows[i] == rest[i]);
                assert(rows[i].depth >= depth);
                assert(rows[a] == own[0]);
                assert(own[0].depth == depth);
                assert(rows[j].depth > depth);
            }
        }
        assert forall|i: int, j: int|
            0 <= i < j < rows.len() && up(arena, (#[trigger] rows[i]).id) is Some && up(
                arena,
                rows[i].id,
            ) == up(arena, (#[trigger] rows[j]).id) implies rows[i].id.0 < rows[j].id.0 by {
            let a = rest.len() as int;
            if j < a {
                assert(rows[i] == rest[i] && rows[j] == rest[j]);
            } else if i >= a {
                assert(rows[i] == own[i - a] && rows[j] == own[j - a]);
            } else {
                let r = rest[i];
                let o = own[j - a];
                assert(rows[i] == r && rows[j] == o);
                let k = choose|k: int|
                    0 <= k < n - 1 && hangs_under(
                        arena,
                        r,
                        (#[trigger] child_parts(arena, id)[k]).id,
                        depth,
                    );
                assert(hangs_under(arena, o, last, depth));
                lemma_siblings_of_two_parts(
                    arena,
                    id,
                    parts[k].id,
                    last,
                    r.id,
                    o.id,
                    (r.depth - depth) as nat,
                    (o.depth - depth) as nat,
                );
                lemma_children(arena, id, k);
            }
        }
    }
}

/// Two parts with one parent that hang under different children of `id` are those
/// children.
proof fn lemma_siblings_of_two_parts(
    arena: Arena,
    id: PartId,
    a: PartId,
    b: PartId,
    x: PartId,
    y: PartId,
    i: nat,
    j: nat,
)
    requires
        acyclic(arena),
        a != b,
        up(arena, b) == Some(id),
        ancestor(arena, Some(x), i) == Some(a),
        ancestor(arena, Some(y), j) == Some(b),
        ancestor(arena, Some(x), i + 1) == Some(id),
        up(arena, x) == up(arena, y),
        up(arena, x) is Some,
    ensures
        x == a,
        y == b,
{
    let q = up(arena, x)->0;
    lemma_ancestor_step(arena, Some(x), 0);
    lemma_ancestor_step(arena, Some(y), 0);
    lemma_ancestor_step(arena, Some(y), j);
    assert(ancestor(arena, Some(x), 1) == Some(q));
    assert(ancestor(arena, Some(y), 1) == Some(q));
    // both chains go on from `q`, and `id` is on them at one distance
    lemma_ancestor_sum(arena, Some(x), 1, i);
    lemma_ancestor_sum(arena, Some(y), 1, j);
    assert(ancestor(arena, Some(q), i) == Some(id));
    assert(ancestor(arena, Some(q), j) == Some(id));
    lemma_same_distance(arena, q, id, i, j);
    if i > 0 {
        lemma_ancestor_sum(arena, Some(x), 1, (i - 1) as nat);
        lemma_ancestor_sum(arena, Some(y), 1, (i - 1) as nat);
        assert(ancestor(arena, Some(q), (i - 1) as nat) == Some(a));
        assert(ancestor(arena, Some(q), (i - 1) as nat) == Some(b));
    }
}

/// The rows are the tree, written down from the root: each part stands under its parent,
/// one level further in, and the children of a part follow each other by their ids.
pub proof fn rows_are_nested(tree: PartTree, m: Map<Cell, Voxel>)
    requires
        tree.wf(),
    ensures
        well_nested(tree@, rows_from(tree@, m, tree.spec_root(), 0, tree@.len())),
{
    lemma_rows_nest(tree@, m, tree.spec_root(), 0, tree@.len());
}

} // verus!
