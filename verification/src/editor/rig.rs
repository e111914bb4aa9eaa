//! The rig sidecar document: the editor's interchange format.
//!
//! Everything a `.vox` file can't carry lives in a sibling sidecar: the object
//! type, the part hierarchy with pivots, which sub-voxels belong to which part,
//! and the resolution / multi-block extent. Voxels are stored in editor cell
//! space (Y-up).

use vstd::prelude::*;

use crate::editor::palette::{loaded, BlockMaterial, Palette};
use crate::editor::parts::{
    arena_view, live_parts, part_at, refs_view, Arena, ObjectType, Part, PartModel, PartTree, Pivot,
};
use crate::editor::volume::{
    all_inside, clamped, inside, VoxelModel, BLOCKS_MAX, BLOCKS_MIN, RESOLUTION_MAX,
    RESOLUTION_MIN,
};
use crate::editor::voxel_map::{Cell, PartId, Voxel, VoxelMap};
use crate::grid_map::lists;

verus! {

/// Schema version stamped into every sidecar. The loader rejects versions it
/// doesn't understand.
pub const RIG_VERSION: u32 = 1;

/// One persisted part.
#[derive(Debug)]
pub struct RigPart {
    /// Stable part id (dense index, preserved across save/load).
    pub id: u32,
    /// Display / export name.
    pub name: String,
    /// Parent part id, or `None` for the root.
    pub parent: Option<u32>,
    /// Joint pivot `[x, y, z]`, as the bit patterns of single-precision numbers.
    pub pivot: [u32; 3],
}

/// One persisted sub-voxel: its cell coordinate, palette slot, and owning part.
#[derive(Clone, Copy, Debug)]
pub struct RigVoxel {
    /// Editor cell coordinate `[x, y, z]` (Y-up).
    pub cell: [i32; 3],
    /// Palette slot (index into [`RigDoc::palette`]).
    pub color: u8,
    /// Owning part id.
    pub part: u32,
}

/// The full sidecar document. One per model.
#[derive(Debug)]
pub struct RigDoc {
    /// Schema version ([`RIG_VERSION`]).
    pub version: u32,
    /// Human name of the model (matches the file stem).
    pub name: String,
    /// Whether this is a posable `Character` or an `Item`.
    pub object_type: ObjectType,
    /// Sub-voxels per reference-block edge.
    pub resolution: u32,
    /// Reference-block count per edge.
    pub blocks: u32,
    /// The root part id.
    pub root_part: u32,
    /// The part hierarchy.
    pub parts: Vec<RigPart>,
    /// sRGB palette in slot order (`palette[i]` is color index `i`).
    pub palette: Vec<[u8; 3]>,
    /// Every placed sub-voxel.
    pub voxels: Vec<RigVoxel>,
}

/// The part that a persisted part stands for.
pub open spec fn part_of(rp: RigPart) -> PartModel {
    PartModel {
        id: PartId(rp.id),
        name: rp.name@,
        parent: match rp.parent {
            Some(q) => Some(PartId(q)),
            None => None,
        },
        pivot: Pivot { x: rp.pivot[0], y: rp.pivot[1], z: rp.pivot[2] },
    }
}

pub open spec fn parts_of(parts: Seq<RigPart>) -> Seq<PartModel> {
    parts.map_values(|rp: RigPart| part_of(rp))
}

/// The placed sub-voxel that a persisted one stands for.
pub open spec fn entry_of(rv: RigVoxel) -> (Cell, Voxel) {
    (
        Cell { x: rv.cell[0], y: rv.cell[1], z: rv.cell[2] },
        Voxel { color: rv.color, part: PartId(rv.part) },
    )
}

pub open spec fn entries_of(voxels: Seq<RigVoxel>) -> Seq<(Cell, Voxel)> {
    voxels.map_values(|rv: RigVoxel| entry_of(rv))
}

/// The greatest id among the parts, or 0 if there are none.
pub open spec fn max_id(parts: Seq<PartModel>) -> int
    decreases parts.len(),
{
    if parts.len() == 0 {
        0
    } else {
        let before = max_id(parts.drop_last());
        if parts.last().id.0 > before {
            parts.last().id.0 as int
        } else {
            before
        }
    }
}

/// The first `n` parts put in the slots of their ids, a later one over an
/// earlier one, in an arena of `len` slots.
pub open spec fn placed(parts: Seq<PartModel>, len: nat) -> Arena
    decreases parts.len(),
{
    if parts.len() == 0 {
        Seq::new(len, |i: int| None)
    } else {
        placed(parts.drop_last(), len).update(parts.last().id.0 as int, Some(parts.last()))
    }
}

/// The arena that a document's parts are loaded into: one slot for every id up
/// to the greatest, gaps empty.
pub open spec fn loaded_arena(parts: Seq<PartModel>) -> Arena {
    placed(parts, (max_id(parts) + 1) as nat)
}

/// The sub-voxels that a document's voxels are loaded into: those out of bounds
/// are dropped, and a later one replaces an earlier one of the same cell.
pub open spec fn loaded_voxels(entries: Seq<(Cell, Voxel)>, extent: int) -> Map<Cell, Voxel>
    decreases entries.len(),
{
    if entries.len() == 0 {
        Map::empty()
    } else {
        let before = loaded_voxels(entries.drop_last(), extent);
        let e = entries.last();
        if inside(e.0, extent) {
            before.insert(e.0, e.1)
        } else {
            before
        }
    }
}

pub open spec fn loaded_resolution(doc: RigDoc) -> int {
    clamped(doc.resolution as int, RESOLUTION_MIN as int, RESOLUTION_MAX as int)
}

pub open spec fn loaded_blocks(doc: RigDoc) -> int {
    clamped(doc.blocks as int, BLOCKS_MIN as int, BLOCKS_MAX as int)
}

/// The document can be loaded: its version is known and its root is a part.
pub open spec fn loadable(doc: RigDoc) -> bool {
    &&& doc.version == RIG_VERSION
    &&& part_at(loaded_arena(parts_of(doc.parts@)), PartId(doc.root_part)) is Some
}

/// The document is that of a live editor state.
pub open spec fn is_doc_of(
    doc: RigDoc,
    name: Seq<char>,
    object_type: ObjectType,
    model: VoxelModel,
    tree: PartTree,
    palette: Palette,
) -> bool {
    &&& doc.version == RIG_VERSION
    &&& doc.name@ == name
    &&& doc.object_type == object_type
    &&& doc.resolution == model.spec_resolution()
    &&& doc.blocks == model.spec_blocks()
    &&& doc.root_part == tree.spec_root().0
    &&& parts_of(doc.parts@) == live_parts(tree@)
    &&& doc.palette@.len() == palette@.len()
    &&& forall|i: int|
        0 <= i < palette@.len() ==> (#[trigger] doc.palette@[i])@ == palette@[i].0
    &&& lists(entries_of(doc.voxels@), model@)
}

fn parts_to_doc(parts: &Vec<&Part>) -> (out: Vec<RigPart>)
    ensures
        parts_of(out@) == refs_view(parts@),
{
    let mut out: Vec<RigPart> = Vec::new();
    let mut i: usize = 0;
    while i < parts.len()
        invariant
            i <= parts@.len(),
            out@.len() == i,
            forall|k: int| 0 <= k < i ==> part_of(#[trigger] out@[k]) == parts@[k]@,
        decreases parts@.len() - i,
    {
        let p = parts[i];
        let rp = RigPart {
            id: p.id.0,
            name: p.name.clone(),
            parent: match p.parent {
                Some(q) => Some(q.0),
                None => None,
            },
            pivot: [p.pivot.x, p.pivot.y, p.pivot.z],
        };
        out.push(rp);
        i += 1;
    }
    assert(parts_of(out@) =~= refs_view(parts@));
    out
}

fn voxels_to_doc(list: &Vec<(Cell, Voxel)>) -> (out: Vec<RigVoxel>)
    ensures
        entries_of(out@) == list@,
{
    let mut out: Vec<RigVoxel> = Vec::new();
    let mut i: usize = 0;
    while i < list.len()
        invariant
            i <= list@.len(),
            out@.len() == i,
            forall|k: int| 0 <= k < i ==> entry_of(#[trigger] out@[k]) == list@[k],
        decreases list@.len() - i,
    {
        let (cell, v) = list[i];
        out.push(RigVoxel { cell: [cell.x, cell.y, cell.z], color: v.color, part: v.part.0 });
        i += 1;
    }
    assert(entries_of(out@) =~= list@);
    out
}

fn greatest_id(parts: &Vec<RigPart>) -> (m: u32)
    ensures
        m == max_id(parts_of(parts@)),
        forall|k: int| 0 <= k < parts@.len() ==> (#[trigger] parts@[k]).id <= m,
{
    let mut m: u32 = 0;
    let mut i: usize = 0;
    let ghost all = parts_of(parts@);
    while i < parts.len()
        invariant
            i <= parts@.len(),
            all == parts_of(parts@),
            m == max_id(all.take(i as int)),
            forall|k: int| 0 <= k < i ==> (#[trigger] parts@[k]).id <= m,
        decreases parts@.len() - i,
    {
        proof {
            assert(all.take(i + 1).drop_last() =~= all.take(i as int));
            assert(all.take(i + 1).last() == part_of(parts@[i as int]));
        }
        if parts[i].id > m {
            m = parts[i].id;
        }
        i += 1;
    }
    assert(all.take(i as int) =~= all);
    m
}

/// The parts put in the slots of their ids.
fn arena_from(parts: &Vec<RigPart>) -> (slots: Vec<Option<Part>>)
    ensures
        arena_view(slots@) == loaded_arena(parts_of(parts@)),
{
    let m: u32 = greatest_id(parts);
    let ghost len = m as int + 1;
    let ghost all = parts_of(parts@);
    let mut slots: Vec<Option<Part>> = Vec::new();
    slots.push(None);
    let mut k: u32 = 0;
    while k < m
        invariant
            k <= m,
            slots@.len() == k + 1,
            forall|i: int| 0 <= i <= k ==> (#[trigger] slots@[i]) is None,
        decreases m - k,
    {
        slots.push(None);
        k += 1;
    }
    assert(arena_view(slots@) =~= placed(all.take(0), len as nat));
    let mut i: usize = 0;
    while i < parts.len()
        invariant
            i <= parts@.len(),
            all == parts_of(parts@),
            slots@.len() == len,
            len == m + 1,
            forall|k: int| 0 <= k < parts@.len() ==> (#[trigger] parts@[k]).id <= m,
            arena_view(slots@) == placed(all.take(i as int), len as nat),
        decreases parts@.len() - i,
    {
        let rp = &parts[i];
        let part = Part {
            id: PartId(rp.id),
            name: rp.name.clone(),
            parent: match rp.parent {
                Some(q) => Some(PartId(q)),
                None => None,
            },
            pivot: Pivot { x: rp.pivot[0], y: rp.pivot[1], z: rp.pivot[2] },
        };
        let ghost before = slots@;
        proof {
            assert(all.take(i + 1).drop_last() =~= all.take(i as int));
            assert(all.take(i + 1).last() == part@);
        }
        slots.set(rp.id as usize, Some(part));
        assert(arena_view(slots@) =~= arena_view(before).update(rp.id as int, Some(part@)));
        i += 1;
    }
    assert(all.take(i as int) =~= all);
    slots
}

/// The voxels that lie in the build volume, later ones over earlier ones.
fn voxels_from(voxels: &Vec<RigVoxel>, model: &VoxelModel) -> (map: VoxelMap)
    requires
        model.wf(),
    ensures
        map.wf(),
        map@ == loaded_voxels(entries_of(voxels@), model.spec_extent()),
        all_inside(map@, model.spec_extent()),
{
    let mut map = VoxelMap::new();
    let mut i: usize = 0;
    let ghost all = entries_of(voxels@);
    let ghost e = model.spec_extent();
    assert(all.take(0) =~= Seq::<(Cell, Voxel)>::empty());
    while i < voxels.len()
        invariant
            i <= voxels@.len(),
            all == entries_of(voxels@),
            e == model.spec_extent(),
            model.wf(),
            map.wf(),
            map@ == loaded_voxels(all.take(i as int), e),
            all_inside(map@, e),
        decreases voxels@.len() - i,
    {
        let rv = &voxels[i];
        let cell = Cell { x: rv.cell[0], y: rv.cell[1], z: rv.cell[2] };
        proof {
            assert(all.take(i + 1).drop_last() =~= all.take(i as int));
            assert(all.take(i + 1).last() == entry_of(*rv));
        }
        if model.in_bounds(cell) {
            map.insert(cell, Voxel { color: rv.color, part: PartId(rv.part) });
        }
        i += 1;
    }
    assert(all.take(i as int) =~= all);
    map
}

impl RigDoc {
    /// Build a sidecar document from the live editor state.
    pub fn from_state(
        name: &str,
        object_type: ObjectType,
        model: &VoxelModel,
        tree: &PartTree,
        palette: &Palette,
    ) -> (doc: RigDoc)
        requires
            model.wf(),
        ensures
            is_doc_of(doc, name@, object_type, *model, *tree, *palette),
    {
        let list = model.iter();
        let live = tree.iter();
        RigDoc {
            version: RIG_VERSION,
            name: name.to_owned(),
            object_type,
            resolution: model.resolution(),
            blocks: model.blocks(),
            root_part: tree.root().0,
            parts: parts_to_doc(&live),
            palette: palette.rgbs(),
            voxels: voxels_to_doc(&list),
        }
    }

    /// Reconstruct the runtime model + part tree + palette from a loaded
    /// document. Returns `None` if the schema version is unsupported or the part
    /// data is internally inconsistent (no root). Out-of-bounds voxels are
    /// dropped rather than rejected so a slightly-corrupt file still loads.
    pub fn into_runtime(self, known: &[BlockMaterial]) -> (r: Option<
        (VoxelModel, PartTree, Palette, ObjectType),
    >)
        ensures
            match r {
                Some((model, tree, palette, object_type)) => {
                    &&& loadable(self)
                    &&& model.wf()
                    &&& model.spec_resolution() == loaded_resolution(self)
                    &&& model.spec_blocks() == loaded_blocks(self)
                    &&& model@ == loaded_voxels(
                        entries_of(self.voxels@),
                        loaded_resolution(self) * loaded_blocks(self),
                    )
                    &&& tree@ == loaded_arena(parts_of(self.parts@))
                    &&& tree.spec_root() == PartId(self.root_part)
                    &&& palette@ == loaded(known@, self.palette@)
                    &&& palette.wf()
                    &&& object_type == self.object_type
                },
                None => !loadable(self),
            },
    {
        if self.version != RIG_VERSION {
            return None;
        }
        let tree = PartTree::from_arena(arena_from(&self.parts), PartId(self.root_part));
        if tree.get(PartId(self.root_part)).is_none() {
            return None;
        }
        let mut model = VoxelModel::new(self.resolution, self.blocks);
        let voxels = voxels_from(&self.voxels, &model);
        model.replace_voxels(voxels);
        let palette = Palette::from_rgbs(known, self.palette.as_slice());
        Some((model, tree, palette, self.object_type))
    }
}

/// What is known of the loaded voxels of a list without repeated cells.
proof fn lemma_loaded_voxels(entries: Seq<(Cell, Voxel)>, extent: int)
    requires
        forall|i: int| 0 <= i < entries.len() ==> inside((#[trigger] entries[i]).0, extent),
        forall|i: int, j: int| 0 <= i < j < entries.len() ==> entries[i].0 != entries[j].0,
    ensures
        forall|i: int|
            0 <= i < entries.len() ==> loaded_voxels(entries, extent).contains_key(
                (#[trigger] entries[i]).0,
            ) && loaded_voxels(entries, extent)[entries[i].0] == entries[i].1,
        forall|c: Cell| #[trigger]
            loaded_voxels(entries, extent).contains_key(c) ==> exists|i: int|
                0 <= i < entries.len() && entries[i].0 == c,
    decreases entries.len(),
{
    if entries.len() > 0 {
        let rest = entries.drop_last();
        let n = entries.len() - 1;
        assert forall|i: int, j: int| 0 <= i < j < rest.len() implies rest[i].0 != rest[j].0 by {
            assert(rest[i] == entries[i] && rest[j] == entries[j]);
        }
        assert forall|i: int| 0 <= i < rest.len() implies inside((#[trigger] rest[i]).0, extent) by {
            assert(rest[i] == entries[i]);
        }
        lemma_loaded_voxels(rest, extent);
        assert(inside(entries[n].0, extent));
        let all = loaded_voxels(entries, extent);
        assert forall|i: int| 0 <= i < entries.len() implies all.contains_key(
            (#[trigger] entries[i]).0,
        ) && all[entries[i].0] == entries[i].1 by {
            if i < n {
                assert(rest[i] == entries[i]);
                assert(entries[i].0 != entries[n].0);
            }
        }
        assert forall|c: Cell| #[trigger] all.contains_key(c) implies exists|i: int|
            0 <= i < entries.len() && entries[i].0 == c by {
            if c == entries[n].0 {
                assert(entries[n].0 == c);
            } else {
                assert(loaded_voxels(rest, extent).contains_key(c));
                let i = choose|i: int| 0 <= i < rest.len() && rest[i].0 == c;
                assert(entries[i].0 == c);
            }
        }
    }
}

/// The live parts sit in the slots of their ids, in order.
proof fn lemma_live_parts(arena: Arena)
    requires
        forall|i: int|
            0 <= i < arena.len() && (#[trigger] arena[i]) is Some ==> arena[i]->0.id.0 == i,
    ensures
        ({
            let live = live_parts(arena);
            &&& forall|k: int|
                0 <= k < live.len() ==> (#[trigger] live[k]).id.0 < arena.len()
                    && arena[live[k].id.0 as int] == Some(live[k])
            &&& forall|j: int, k: int| 0 <= j < k < live.len() ==> live[j].id.0 < live[k].id.0
            &&& forall|i: int|
                0 <= i < arena.len() && (#[trigger] arena[i]) is Some ==> exists|k: int|
                    0 <= k < live.len() && live[k] == arena[i]->0
        }),
    decreases arena.len(),
{
    if arena.len() > 0 {
        let rest = arena.drop_last();
        let n = arena.len() - 1;
        assert forall|i: int| 0 <= i < rest.len() && (#[trigger] rest[i]) is Some implies
            rest[i]->0.id.0 == i by {
            assert(rest[i] == arena[i]);
        }
        lemma_live_parts(rest);
        let before = live_parts(rest);
        let live = live_parts(arena);
        assert forall|k: int| 0 <= k < live.len() implies (#[trigger] live[k]).id.0 < arena.len()
            && arena[live[k].id.0 as int] == Some(live[k]) by {
            if k < before.len() {
                assert(live[k] == before[k]);
                assert(rest[live[k].id.0 as int] == arena[live[k].id.0 as int]);
            } else {
                assert(arena[n] is Some);
            }
        }
        assert forall|j: int, k: int| 0 <= j < k < live.len() implies live[j].id.0
            < live[k].id.0 by {
            assert(live[j] == before[j]);
            if k < before.len() {
                assert(live[k] == before[k]);
            } else {
                assert(arena[n] is Some);
            }
        }
        assert forall|i: int| 0 <= i < arena.len() && (#[trigger] arena[i]) is Some implies exists|
            k: int,
        | 0 <= k < live.len() && live[k] == arena[i]->0 by {
            if i < n {
                assert(rest[i] == arena[i]);
                let k = choose|k: int| 0 <= k < before.len() && before[k] == rest[i]->0;
                assert(live[k] == before[k]);
            } else {
                assert(live[before.len() as int] == arena[i]->0);
            }
        }
    }
}

proof fn lemma_max_id(parts: Seq<PartModel>)
    ensures
        0 <= max_id(parts) <= u32::MAX,
        forall|k: int| 0 <= k < parts.len() ==> (#[trigger] parts[k]).id.0 <= max_id(parts),
    decreases parts.len(),
{
    if parts.len() > 0 {
        let rest = parts.drop_last();
        lemma_max_id(rest);
        assert forall|k: int| 0 <= k < parts.len() implies (#[trigger] parts[k]).id.0 <= max_id(
            parts,
        ) by {
            if k < rest.len() {
                assert(rest[k] == parts[k]);
            }
        }
    }
}

/// Parts with ascending ids all end up in their slots, and nothing else does.
proof fn lemma_placed(parts: Seq<PartModel>, len: nat)
    requires
        forall|k: int| 0 <= k < parts.len() ==> (#[trigger] parts[k]).id.0 < len,
        forall|j: int, k: int| 0 <= j < k < parts.len() ==> parts[j].id.0 < parts[k].id.0,
    ensures
        placed(parts, len).len() == len,
        forall|k: int|
            0 <= k < parts.len() ==> placed(parts, len)[(#[trigger] parts[k]).id.0 as int] == Some(
                parts[k],
            ),
        forall|i: int|
            0 <= i < len && (#[trigger] placed(parts, len)[i]) is Some ==> exists|k: int|
                0 <= k < parts.len() && parts[k].id.0 == i,
    decreases parts.len(),
{
    if parts.len() > 0 {
        let rest = parts.drop_last();
        let n = parts.len() - 1;
        assert forall|k: int| 0 <= k < rest.len() implies (#[trigger] rest[k]).id.0 < len by {
            assert(rest[k] == parts[k]);
        }
        assert forall|j: int, k: int| 0 <= j < k < rest.len() implies rest[j].id.0
            < rest[k].id.0 by {
            assert(rest[j] == parts[j] && rest[k] == parts[k]);
        }
        lemma_placed(rest, len);
        let all = placed(parts, len);
        assert forall|k: int| 0 <= k < parts.len() implies all[(#[trigger] parts[k]).id.0 as int]
            == Some(parts[k]) by {
            if k < n {
                assert(rest[k] == parts[k]);
                assert(parts[k].id.0 < parts[n].id.0);
            }
        }
        assert forall|i: int| 0 <= i < len && (#[trigger] all[i]) is Some implies exists|k: int|
            0 <= k < parts.len() && parts[k].id.0 == i by {
            if i == parts[n].id.0 {
                assert(parts[n].id.0 == i);
            } else {
                assert(placed(rest, len)[i] is Some);
                let k = choose|k: int| 0 <= k < rest.len() && rest[k].id.0 == i;
                assert(parts[k].id.0 == i);
            }
        }
    }
}

/// Loading a saved project gives back the model, the rig and the colors: every
/// voxel, every live part under its id, the root, the extents and the palette's
/// sRGB values.
pub proof fn saving_and_loading_keeps_the_project(
    doc: RigDoc,
    known: Seq<BlockMaterial>,
    name: Seq<char>,
    object_type: ObjectType,
    model: VoxelModel,
    tree: PartTree,
    palette: Palette,
)
    requires
        is_doc_of(doc, name, object_type, model, tree, palette),
        model.wf(),
        tree.wf(),
        palette.wf(),
    ensures
        loadable(doc),
        doc.object_type == object_type,
        loaded_resolution(doc) == model.spec_resolution(),
        loaded_blocks(doc) == model.spec_blocks(),
        loaded_voxels(
            entries_of(doc.voxels@),
            loaded_resolution(doc) * loaded_blocks(doc),
        ) == model@,
        forall|id: PartId| #[trigger]
            part_at(loaded_arena(parts_of(doc.parts@)), id) == part_at(tree@, id),
        PartId(doc.root_part) == tree.spec_root(),
        loaded(known, doc.palette@).len() == palette@.len(),
        forall|i: int|
            0 <= i < palette@.len() ==> (#[trigger] loaded(known, doc.palette@)[i]).0
                == palette@[i].0,
{
    model.lemma_extent();
    model.lemma_all_inside();
    let entries = entries_of(doc.voxels@);
    let extent = model.spec_extent();
    assert forall|i: int| 0 <= i < entries.len() implies inside(
        (#[trigger] entries[i]).0,
        extent,
    ) by {
        assert(model@.contains_key(entries[i].0));
    }
    lemma_loaded_voxels(entries, extent);
    assert(loaded_voxels(entries, extent) =~= model@) by {
        assert forall|c: Cell| loaded_voxels(entries, extent).contains_key(c)
            == model@.contains_key(c) by {
            if loaded_voxels(entries, extent).contains_key(c) {
                let i = choose|i: int| 0 <= i < entries.len() && entries[i].0 == c;
                assert(model@.contains_key(entries[i].0));
            }
            if model@.contains_key(c) {
                let i = choose|i: int| 0 <= i < entries.len() && entries[i].0 == c;
                assert(loaded_voxels(entries, extent).contains_key(entries[i].0));
            }
        }
        assert forall|c: Cell| loaded_voxels(entries, extent).contains_key(c) implies loaded_voxels(
            entries,
            extent,
        )[c] == model@[c] by {
            let i = choose|i: int| 0 <= i < entries.len() && entries[i].0 == c;
            assert(model@[entries[i].0] == entries[i].1);
        }
    }
    let live = live_parts(tree@);
    let len = (max_id(live) + 1) as nat;
    lemma_live_parts(tree@);
    lemma_max_id(live);
    lemma_placed(live, len);
    let arena = loaded_arena(live);
    assert forall|id: PartId| #[trigger] part_at(arena, id) == part_at(tree@, id) by {
        match part_at(tree@, id) {
            Some(p) => {
                assert(tree@[id.0 as int] is Some);
                let k = choose|k: int| 0 <= k < live.len() && live[k] == tree@[id.0 as int]->0;
                assert(live[k].id.0 == id.0);
                assert(arena[live[k].id.0 as int] == Some(live[k]));
            },
            None => {
                if part_at(arena, id) is Some {
                    assert(arena[id.0 as int] is Some);
                    let k = choose|k: int| 0 <= k < live.len() && live[k].id.0 == id.0;
                    assert(tree@[live[k].id.0 as int] == Some(live[k]));
                }
            },
        }
    }
    assert(part_at(arena, tree.spec_root()) is Some);
    assert forall|i: int| 0 <= i < palette@.len() implies (#[trigger] loaded(
        known,
        doc.palette@,
    )[i]).0 == palette@[i].0 by {
        assert(doc.palette@[i]@ == palette@[i].0);
    }
}

/// Every voxel of the document that lies in the build volume is loaded, and nothing
/// else; where several name one cell, the last of them counts.
pub proof fn loading_keeps_the_last_voxel(
    entries: Seq<(Cell, Voxel)>,
    extent: int,
    cell: Cell,
    i: int,
)
    requires
        0 <= i < entries.len(),
        entries[i].0 == cell,
        forall|j: int| i < j < entries.len() ==> (#[trigger] entries[j]).0 != cell,
    ensures
        loaded_voxels(entries, extent).contains_key(cell) <==> 0 <= cell.x < extent && 0 <= cell.y
            < extent && 0 <= cell.z < extent,
        loaded_voxels(entries, extent).contains_key(cell) ==> loaded_voxels(entries, extent)[cell]
            == entries[i].1,
    decreases entries.len(),
{
    let rest = entries.drop_last();
    if i < rest.len() {
        assert(entries[entries.len() - 1].0 != cell);
        assert forall|j: int| i < j < rest.len() implies (#[trigger] rest[j]).0 != cell by {
            assert(rest[j] == entries[j]);
        }
        loading_keeps_the_last_voxel(rest, extent, cell, i);
    } else {
        lemma_loaded_inside(rest, extent, cell);
    }
}

proof fn lemma_loaded_inside(entries: Seq<(Cell, Voxel)>, extent: int, cell: Cell)
    ensures
        loaded_voxels(entries, extent).contains_key(cell) ==> inside(cell, extent),
    decreases entries.len(),
{
    if entries.len() > 0 {
        lemma_loaded_inside(entries.drop_last(), extent, cell);
    }
}

/// A cell that no voxel of the document names stays empty.
pub proof fn loading_adds_no_voxel(entries: Seq<(Cell, Voxel)>, extent: int, cell: Cell)
    requires
        forall|j: int| 0 <= j < entries.len() ==> (#[trigger] entries[j]).0 != cell,
    ensures
        !loaded_voxels(entries, extent).contains_key(cell),
    decreases entries.len(),
{
    if entries.len() > 0 {
        let rest = entries.drop_last();
        assert(entries[entries.len() - 1].0 != cell);
        assert forall|j: int| 0 <= j < rest.len() implies (#[trigger] rest[j]).0 != cell by {
            assert(rest[j] == entries[j]);
        }
        loading_adds_no_voxel(rest, extent, cell);
    }
}

proof fn lemma_greatest_id(parts: Seq<PartModel>)
    ensures
        max_id(parts) >= 0,
        forall|i: int| 0 <= i < parts.len() ==> (#[trigger] parts[i]).id.0 <= max_id(parts),
        parts.len() > 0 ==> exists|i: int|
            0 <= i < parts.len() && (#[trigger] parts[i]).id.0 == max_id(parts),
    decreases parts.len(),
{
    if parts.len() > 0 {
        let rest = parts.drop_last();
        lemma_greatest_id(rest);
        assert forall|i: int| 0 <= i < parts.len() implies (#[trigger] parts[i]).id.0 <= max_id(
            parts,
        ) by {
            if i < rest.len() {
                assert(rest[i] == parts[i]);
            }
        }
        if parts.last().id.0 > max_id(rest) || rest.len() == 0 {
            assert(parts[parts.len() - 1].id.0 == max_id(parts));
        } else {
            let i = choose|i: int|
                0 <= i < rest.len() && (#[trigger] rest[i]).id.0 == max_id(rest);
            assert(parts[i].id.0 == max_id(parts));
        }
    }
}

proof fn lemma_slot_of(parts: Seq<PartModel>, len: nat, id: PartId)
    requires
        id.0 < len,
        forall|i: int| 0 <= i < parts.len() ==> (#[trigger] parts[i]).id.0 < len,
    ensures
        placed(parts, len).len() == len,
        match placed(parts, len)[id.0 as int] {
            Some(p) => exists|i: int|
                {
                    &&& 0 <= i < parts.len()
                    &&& #[trigger] parts[i] == p
                    &&& p.id == id
                    &&& forall|j: int| i < j < parts.len() ==> (#[trigger] parts[j]).id != id
                },
            None => forall|i: int| 0 <= i < parts.len() ==> (#[trigger] parts[i]).id != id,
        },
    decreases parts.len(),
{
    if parts.len() > 0 {
        let rest = parts.drop_last();
        assert forall|i: int| 0 <= i < rest.len() implies (#[trigger] rest[i]).id.0 < len by {
            assert(rest[i] == parts[i]);
        }
        lemma_slot_of(rest, len, id);
        if parts.last().id == id {
            let i = parts.len() - 1;
            assert(parts[i] == parts.last());
            assert(placed(parts, len)[id.0 as int] == Some(parts[i]));
        } else {
            assert(parts[parts.len() - 1].id != id);
            match placed(rest, len)[id.0 as int] {
                Some(p) => {
                    let i = choose|i: int|
                        {
                            &&& 0 <= i < rest.len()
                            &&& #[trigger] rest[i] == p
                            &&& p.id == id
                            &&& forall|j: int| i < j < rest.len() ==> (#[trigger] rest[j]).id != id
                        };
                    assert(parts[i] == p);
                    assert forall|j: int| i < j < parts.len() implies (#[trigger] parts[j]).id
                        != id by {
                        if j < rest.len() {
                            assert(rest[j] == parts[j]);
                        }
                    }
                },
                None => {
                    assert forall|i: int| 0 <= i < parts.len() implies (#[trigger] parts[i]).id
                        != id by {
                        if i < rest.len() {
                            assert(rest[i] == parts[i]);
                        }
                    }
                },
            }
        }
    }
}

/// A loaded rig holds each part of the document under its own id, the last one where
/// several have the same; ids in between that no part has stay empty, and there is no
/// slot past the greatest id.
pub proof fn loaded_parts_keep_their_ids(parts: Seq<PartModel>, id: PartId)
    ensures
        match part_at(loaded_arena(parts), id) {
            Some(p) => exists|i: int|
                {
                    &&& 0 <= i < parts.len()
                    &&& #[trigger] parts[i] == p
                    &&& p.id == id
                    &&& forall|j: int| i < j < parts.len() ==> (#[trigger] parts[j]).id != id
                },
            None => forall|i: int| 0 <= i < parts.len() ==> (#[trigger] parts[i]).id != id,
        },
        parts.len() > 0 ==> exists|i: int|
            0 <= i < parts.len() && (#[trigger] parts[i]).id.0 + 1 == loaded_arena(parts).len(),
{
    lemma_greatest_id(parts);
    let len = (max_id(parts) + 1) as nat;
    if id.0 < len {
        lemma_slot_of(parts, len, id);
    } else {
        lemma_slot_of(parts, len, PartId(0));
        assert forall|i: int| 0 <= i < parts.len() implies (#[trigger] parts[i]).id != id by {}
    }
    lemma_slot_of(parts, len, PartId(0));
    if parts.len() > 0 {
        let i = choose|i: int| 0 <= i < parts.len() && (#[trigger] parts[i]).id.0 == max_id(parts);
        assert(parts[i].id.0 + 1 == loaded_arena(parts).len());
    }
}

/// A document loads exactly if it is of version 1 and one of its parts is the root.
pub proof fn documents_load_with_a_root(doc: RigDoc)
    ensures
        loadable(doc) <==> doc.version == 1 && exists|i: int|
            0 <= i < doc.parts@.len() && (#[trigger] doc.parts@[i]).id == doc.root_part,
{
    let parts = parts_of(doc.parts@);
    let root = PartId(doc.root_part);
    loaded_parts_keep_their_ids(parts, root);
    if part_at(loaded_arena(parts), root) is Some {
        let p = part_at(loaded_arena(parts), root)->0;
        let i = choose|i: int|
            {
                &&& 0 <= i < parts.len()
                &&& #[trigger] parts[i] == p
                &&& p.id == root
                &&& forall|j: int| i < j < parts.len() ==> (#[trigger] parts[j]).id != root
            };
        assert(doc.parts@[i].id == doc.root_part);
    } else {
        assert forall|i: int| 0 <= i < doc.parts@.len() implies (#[trigger] doc.parts@[i]).id
            != doc.root_part by {
            assert(parts[i].id != root);
        }
    }
}

/// A persisted part and voxel stand for what they say, field by field.
pub proof fn documents_mean_what_they_say(rp: RigPart, rv: RigVoxel)
    ensures
        part_of(rp).id.0 == rp.id,
        part_of(rp).name == rp.name@,
        part_of(rp).parent matches Some(q) ==> rp.parent == Some(q.0),
        part_of(rp).parent is None ==> rp.parent is None,
        part_of(rp).pivot.x == rp.pivot[0] && part_of(rp).pivot.y == rp.pivot[1] && part_of(
            rp,
        ).pivot.z == rp.pivot[2],
        entry_of(rv).0.x == rv.cell[0] && entry_of(rv).0.y == rv.cell[1] && entry_of(rv).0.z
            == rv.cell[2],
        entry_of(rv).1.color == rv.color,
        entry_of(rv).1.part.0 == rv.part,
{
}

/// Resolution and extent of a document are limited to what models can have.
pub proof fn documents_are_limited(doc: RigDoc)
    ensures
        4 <= loaded_resolution(doc) <= 32,
        4 <= doc.resolution <= 32 ==> loaded_resolution(doc) == doc.resolution,
        doc.resolution < 4 ==> loaded_resolution(doc) == 4,
        doc.resolution > 32 ==> loaded_resolution(doc) == 32,
        1 <= loaded_blocks(doc) <= 4,
        1 <= doc.blocks <= 4 ==> loaded_blocks(doc) == doc.blocks,
        doc.blocks > 4 ==> loaded_blocks(doc) == 4,
{
}

/// A document is of version 1 and holds the project's name, type, extents and root, its
/// live parts in the order of their ids, its colors in order, and each voxel once.
pub proof fn documents_hold_the_project(
    doc: RigDoc,
    name: Seq<char>,
    object_type: ObjectType,
    model: VoxelModel,
    tree: PartTree,
    palette: Palette,
    cell: Cell,
    i: int,
)
    requires
        is_doc_of(doc, name, object_type, model, tree, palette),
    ensures
        doc.version == 1,
        doc.name@ == name,
        doc.object_type == object_type,
        doc.resolution == model.spec_resolution(),
        doc.blocks == model.spec_blocks(),
        doc.root_part == tree.spec_root().0,
        doc.parts@.len() == live_parts(tree@).len(),
        0 <= i < doc.parts@.len() ==> part_of(doc.parts@[i]) == live_parts(tree@)[i],
        doc.palette@.len() == palette@.len(),
        0 <= i < palette@.len() ==> doc.palette@[i]@ == palette@[i].0,
        doc.voxels@.len() == model@.dom().len(),
        model@.contains_key(cell) ==> exists|k: int|
            0 <= k < doc.voxels@.len() && #[trigger] entry_of(doc.voxels@[k]) == (
                cell,
                model@[cell],
            ),
        0 <= i < doc.voxels@.len() ==> model@.contains_key(entry_of(doc.voxels@[i]).0)
            && model@[entry_of(doc.voxels@[i]).0] == entry_of(doc.voxels@[i]).1,
{
    let entries = entries_of(doc.voxels@);
    if 0 <= i < doc.parts@.len() {
        assert(parts_of(doc.parts@)[i] == part_of(doc.parts@[i]));
    }
    if 0 <= i < doc.voxels@.len() {
        assert(entries[i] == entry_of(doc.voxels@[i]));
        assert(model@.contains_key(entries[i].0));
    }
    if model@.contains_key(cell) {
        let k = choose|k: int| 0 <= k < entries.len() && entries[k].0 == cell;
        assert(model@[entries[k].0] == entries[k].1);
        assert(entries[k] == entry_of(doc.voxels@[k]));
    }
}

} // verus!
