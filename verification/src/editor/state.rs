//! The central editor state: the open project and the current selection.

use vstd::prelude::*;
use vstd::string::*;

use crate::editor::palette::{block_swatches, ramp, BlockMaterial, Palette};
use crate::editor::parts::{
    default_arena, default_parts, object_label, part_at, ObjectType, PartTree,
};
use crate::editor::volume::{
    clamp_u32, clamped, cropped, inside, VoxelModel, BLOCKS_MAX, BLOCKS_MIN, DEFAULT_RESOLUTION,
    RESOLUTION_MAX, RESOLUTION_MIN,
};
use crate::editor::voxel_map::{Cell, PartId, Voxel};
use crate::text::{concat, decimal, push_decimal};

verus! {

/// The active painting tool.
#[derive(Clone, Copy, Debug, PartialEq, Eq, Structural)]
pub enum Tool {
    /// Add a sub-voxel of the selected color/part on the face the cursor hits.
    Paint,
    /// Remove the sub-voxel the cursor hits.
    Erase,
    /// Adopt the color of the sub-voxel the cursor hits (eyedropper).
    Pick,
}

impl Default for Tool {
    fn default() -> (t: Tool)
        ensures
            t == Tool::Paint,
    {
        Tool::Paint
    }
}

impl Tool {
    /// Short label for the toolbar.
    pub fn label(self) -> (s: &'static str)
        ensures
            s@ == (match self {
                Tool::Paint => "Paint"@,
                Tool::Erase => "Erase"@,
                Tool::Pick => "Pick"@,
            }),
    {
        match self {
            Tool::Paint => "Paint",
            Tool::Erase => "Erase",
            Tool::Pick => "Pick",
        }
    }
}

/// The editor's whole working state. Single source of truth for the open model.
#[derive(Debug)]
pub struct EditorState {
    /// Display name of the open project (the file stem on save).
    pub name: String,
    /// What the model represents; drives the rig panel.
    pub object_type: ObjectType,
    /// The editable sub-voxel geometry.
    pub model: VoxelModel,
    /// The body-part hierarchy (rig).
    pub tree: PartTree,
    /// The working color palette.
    pub palette: Palette,
    /// The active tool.
    pub tool: Tool,
    /// The palette index new sub-voxels are painted with.
    pub active_color: u8,
    /// The part new sub-voxels are tagged with (the part being edited).
    pub active_part: PartId,
    /// `true` when the visible mesh is stale and must be rebuilt.
    pub dirty: bool,
    /// Whether to draw the sub-voxel grid overlay.
    pub show_grid: bool,
    /// Whether to draw the reference-block boundary outline(s).
    pub show_reference: bool,
    /// Whether to draw each part's pivot gizmo (rig preview).
    pub show_pivots: bool,
    /// The last status message (save/load outcome), shown in the UI.
    pub status: String,
}

/// The two states show the same overlays.
pub open spec fn same_view(a: EditorState, b: EditorState) -> bool {
    a.show_grid == b.show_grid && a.show_reference == b.show_reference && a.show_pivots
        == b.show_pivots
}

/// The two states have the same project open, but for its voxels.
pub open spec fn same_project(a: EditorState, b: EditorState) -> bool {
    &&& a.name == b.name
    &&& a.object_type == b.object_type
    &&& a.tree == b.tree
    &&& a.palette == b.palette
    &&& a.model.spec_resolution() == b.model.spec_resolution()
}

/// The two states have the same tool, color and part selected.
pub open spec fn same_selection(a: EditorState, b: EditorState) -> bool {
    a.tool == b.tool && a.active_color == b.active_color && a.active_part == b.active_part
}

/// The voxel that the selection paints.
pub open spec fn brush(s: EditorState) -> Voxel {
    Voxel { color: s.active_color, part: s.active_part }
}

impl EditorState {
    pub open spec fn wf(&self) -> bool {
        &&& self.model.wf()
        &&& self.tree.wf()
        &&& self.palette.wf()
    }

    /// A fresh, empty character project ready to paint.
    pub fn new_default(blocks: &[BlockMaterial]) -> (s: EditorState)
        ensures
            s.wf(),
            s.name@ == "untitled"@,
            s.object_type == ObjectType::Character,
            s.model@ == Map::<Cell, Voxel>::empty(),
            s.model.spec_resolution() == DEFAULT_RESOLUTION,
            s.model.spec_blocks() == BLOCKS_MIN,
            s.tree@ == default_arena(ObjectType::Character),
            s.tree.spec_root() == PartId(0),
            s.palette@ == block_swatches(blocks@) + ramp(),
            s.tool == Tool::Paint,
            s.active_color == 0,
            s.active_part == s.tree.spec_root(),
            s.dirty,
            s.show_grid,
            s.show_reference,
            !s.show_pivots,
            s.status@ == "New character"@,
    {
        let object_type = ObjectType::Character;
        let tree = default_parts(object_type);
        EditorState {
            name: "untitled".to_owned(),
            object_type,
            model: VoxelModel::default(),
            active_part: tree.root(),
            tree,
            palette: Palette::default_game(blocks),
            tool: Tool::Paint,
            active_color: 0,
            dirty: true,
            show_grid: true,
            show_reference: true,
            show_pivots: false,
            status: "New character".to_owned(),
        }
    }

    /// Replace the whole project (used on load / new). Marks the scene dirty and
    /// clamps the selection to valid values for the incoming data.
    pub fn replace(
        &mut self,
        name: String,
        object_type: ObjectType,
        model: VoxelModel,
        tree: PartTree,
        palette: Palette,
    )
        requires
            palette.wf(),
        ensures
            final(self).name == name,
            final(self).object_type == object_type,
            final(self).model == model,
            final(self).tree == tree,
            final(self).palette == palette,
            final(self).active_part == tree.spec_root(),
            final(self).active_color == (if old(self).active_color > (palette@.len() - 1) % 256 {
                (palette@.len() - 1) % 256
            } else {
                old(self).active_color as int
            }),
            final(self).active_color < palette@.len(),
            final(self).tool == Tool::Paint,
            final(self).dirty,
            same_view(*final(self), *old(self)),
            final(self).status == old(self).status,
    {
        self.name = name;
        self.object_type = object_type;
        self.model = model;
        self.active_part = tree.root();
        self.tree = tree;
        let last: u8 = ((palette.len() - 1) % 256) as u8;
        if self.active_color > last {
            self.active_color = last;
        }
        self.palette = palette;
        self.tool = Tool::Paint;
        self.dirty = true;
    }

    /// Start a brand-new project of the given type, discarding the current one.
    pub fn new_project(&mut self, object_type: ObjectType, blocks: &[BlockMaterial])
        requires
            old(self).model.wf(),
        ensures
            final(self).wf(),
            final(self).name@ == "untitled"@,
            final(self).object_type == object_type,
            final(self).model@ == Map::<Cell, Voxel>::empty(),
            final(self).model.spec_resolution() == old(self).model.spec_resolution(),
            final(self).model.spec_blocks() == BLOCKS_MIN,
            final(self).tree@ == default_arena(object_type),
            final(self).tree.spec_root() == PartId(0),
            final(self).palette@ == block_swatches(blocks@) + ramp(),
            final(self).active_part == PartId(0),
            final(self).active_color == (if old(self).active_color > (blocks@.len() + 9) % 256 {
                (blocks@.len() as int + 9) % 256
            } else {
                old(self).active_color as int
            }),
            final(self).tool == Tool::Paint,
            final(self).dirty,
            same_view(*final(self), *old(self)),
            final(self).status@ == "New "@ + object_label(object_type),
    {
        proof {
            self.model.lemma_extent();
        }
        let tree = default_parts(object_type);
        let model = VoxelModel::new(self.model.resolution(), BLOCKS_MIN);
        let palette = Palette::default_game(blocks);
        assert(palette@.len() == blocks@.len() + 10);
        self.replace("untitled".to_owned(), object_type, model, tree, palette);
        self.status = concat("New ", object_type.label());
    }

    /// Paints `cell` with the active part/color, marking dirty if the grid
    /// changed.
    pub fn paint(&mut self, cell: Cell)
        requires
            old(self).model.wf(),
        ensures
            final(self).model.wf(),
            final(self).model@ == (if inside(cell, old(self).model.spec_extent()) {
                old(self).model@.insert(cell, brush(*old(self)))
            } else {
                old(self).model@
            }),
            final(self).model.spec_blocks() == old(self).model.spec_blocks(),
            final(self).dirty == (old(self).dirty || final(self).model@ != old(self).model@),
            same_project(*final(self), *old(self)),
            same_selection(*final(self), *old(self)),
            same_view(*final(self), *old(self)),
            final(self).status == old(self).status,
    {
        let voxel = Voxel { color: self.active_color, part: self.active_part };
        if self.model.set(cell, voxel) {
            self.dirty = true;
        }
    }

    /// Erase the sub-voxel at `cell`, marking dirty if one was removed.
    pub fn erase(&mut self, cell: Cell)
        requires
            old(self).model.wf(),
        ensures
            final(self).model.wf(),
            final(self).model@ == old(self).model@.remove(cell),
            final(self).model.spec_blocks() == old(self).model.spec_blocks(),
            final(self).dirty == (old(self).dirty || old(self).model@.contains_key(cell)),
            same_project(*final(self), *old(self)),
            same_selection(*final(self), *old(self)),
            same_view(*final(self), *old(self)),
            final(self).status == old(self).status,
    {
        if self.model.clear(cell) {
            self.dirty = true;
        }
    }

    /// Eyedrop the color (and part) at `cell` into the active selection.
    pub fn pick(&mut self, cell: Cell)
        ensures
            *final(self) == (if old(self).model@.contains_key(cell) {
                EditorState {
                    active_color: old(self).model@[cell].color,
                    active_part: old(self).model@[cell].part,
                    ..*old(self)
                }
            } else {
                *old(self)
            }),
    {
        if let Some(v) = self.model.get(cell) {
            self.active_color = v.color;
            self.active_part = v.part;
        }
    }

    /// Resize the build volume to `blocks` per edge, clamped to the supported
    /// range. Rebuilds the model at the new extent, keeping every voxel that
    /// still fits. No-op if unchanged.
    pub fn set_blocks(&mut self, blocks: u32)
        requires
            old(self).model.wf(),
        ensures
            final(self).model.wf(),
            final(self).model.spec_blocks() == clamped(
                blocks as int,
                BLOCKS_MIN as int,
                BLOCKS_MAX as int,
            ),
            final(self).model@ == cropped(old(self).model@, final(self).model.spec_extent()),
            1 <= final(self).model.spec_blocks() <= 4,
            forall|c: Cell| #[trigger]
                final(self).model@.contains_key(c) <==> old(self).model@.contains_key(c) && inside(
                    c,
                    final(self).model.spec_extent(),
                ),
            final(self).dirty == (old(self).dirty || final(self).model.spec_blocks() != old(self).model.spec_blocks()),
            same_project(*final(self), *old(self)),
            same_selection(*final(self), *old(self)),
            same_view(*final(self), *old(self)),
            final(self).status == old(self).status,
    {
        let blocks: u32 = clamp_u32(blocks, BLOCKS_MIN, BLOCKS_MAX);
        if blocks == self.model.blocks() {
            proof {
                self.model.lemma_all_inside();
                assert(cropped(self.model@, self.model.spec_extent()) =~= self.model@);
            }
            return ;
        }
        let next = self.model.resized(blocks);
        self.model = next;
        self.dirty = true;
    }

    /// Change the sub-voxel resolution. This is destructive (the grid does not
    /// resample), so it clears geometry to avoid leaving voxels at meaningless
    /// coordinates. No-op if unchanged.
    pub fn set_resolution(&mut self, resolution: u32)
        requires
            old(self).model.wf(),
        ensures
            if resolution == old(self).model.spec_resolution() {
                *final(self) == *old(self)
            } else {
                &&& final(self).model.wf()
                &&& final(self).model@ == Map::<Cell, Voxel>::empty()
                &&& final(self).model.spec_resolution() == clamped(
                    resolution as int,
                    RESOLUTION_MIN as int,
                    RESOLUTION_MAX as int,
                )
                &&& final(self).model.spec_blocks() == old(self).model.spec_blocks()
                &&& final(self).dirty
                &&& final(self).status@ == "Resolution set to "@ + decimal(resolution as nat)
                    + " (geometry cleared)"@
                &&& final(self).name == old(self).name
                &&& final(self).object_type == old(self).object_type
                &&& final(self).tree == old(self).tree
                &&& final(self).palette == old(self).palette
                &&& same_selection(*final(self), *old(self))
                &&& same_view(*final(self), *old(self))
            },
    {
        if resolution == self.model.resolution() {
            return ;
        }
        proof {
            self.model.lemma_extent();
        }
        self.model = VoxelModel::new(resolution, self.model.blocks());
        self.dirty = true;
        let mut status = "Resolution set to ".to_owned();
        push_decimal(&mut status, resolution as u64);
        status.append(" (geometry cleared)");
        self.status = status;
    }

    /// Switch the active part being edited, if `id` is a live part.
    pub fn select_part(&mut self, id: PartId)
        ensures
            *final(self) == (if part_at(old(self).tree@, id) is Some {
                EditorState { active_part: id, ..*old(self) }
            } else {
                *old(self)
            }),
    {
        if self.tree.get(id).is_some() {
            self.active_part = id;
        }
    }

    /// Clear all geometry (keeps the rig, palette, and extents).
    pub fn clear_geometry(&mut self)
        requires
            old(self).model.wf(),
        ensures
            final(self).model.wf(),
            final(self).model@ == Map::<Cell, Voxel>::empty(),
            final(self).model.spec_blocks() == old(self).model.spec_blocks(),
            final(self).dirty,
            same_project(*final(self), *old(self)),
            same_selection(*final(self), *old(self)),
            same_view(*final(self), *old(self)),
            final(self).status@ == "Cleared geometry"@,
    {
        self.model.clear_all();
        self.dirty = true;
        self.status = "Cleared geometry".to_owned();
    }
}

/// What is painted is the active color on the active part; and two states that share
/// view, project or selection agree on every field of it.
pub proof fn selections_and_views_are_whole(a: EditorState, b: EditorState)
    ensures
        brush(a).color == a.active_color && brush(a).part == a.active_part,
        same_selection(a, b) <==> a.tool == b.tool && a.active_color == b.active_color
            && a.active_part == b.active_part,
        same_view(a, b) <==> a.show_grid == b.show_grid && a.show_reference == b.show_reference
            && a.show_pivots == b.show_pivots,
        same_project(a, b) ==> a.name == b.name && a.object_type == b.object_type && a.tree == b.tree
            && a.palette == b.palette && a.model.spec_resolution() == b.model.spec_resolution(),
{
}

} // verus!
