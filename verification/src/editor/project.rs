//! The on-disk project format: file names, the project browser's list, and the
//! geometry export.
//!
//! A project is a pair of files sharing a stem: `<name>.vox`, the geometry, and
//! `<name>.rig.ron`, the rig sidecar. The sidecar is the source of truth; the
//! `.vox` is the export artifact.

use vstd::prelude::*;
use vstd::string::*;

use crate::editor::palette::Palette;
use crate::editor::volume::{tight_bounds, VoxelModel};
use crate::editor::vox_writer::{
    lemma_scene_len, read_color, read_voxel, representable, vox_file,
    voxels_read_back, write_vox, VoxScene, VoxVoxel,
};
use crate::editor::voxel_map::{Cell, Voxel};
use crate::grid_map::lists;
use crate::text::{concat, concat3, same_text};

verus! {

/// File extension for the rig sidecar (paired with the `.vox` of the same stem).
pub const RIG_EXTENSION: &'static str = "rig.ron";

/// A project discovered on disk: its stem (used as the display name and the file
/// base) and whether the rig sidecar exists.
#[derive(Debug)]
pub struct ProjectEntry {
    /// File stem (the name shown in the browser; no extension).
    pub name: String,
    /// `true` if a `<name>.rig.ron` sidecar exists next to the `.vox`.
    pub has_rig: bool,
}

/// What a project entry holds: its name and whether it has a rig.
pub type EntryModel = (Seq<char>, bool);

impl View for ProjectEntry {
    type V = EntryModel;

    open spec fn view(&self) -> EntryModel {
        (self.name@, self.has_rig)
    }
}

/// Outcome of an IO operation, surfaced to the UI status line.
#[derive(Debug)]
pub enum IoError {
    /// The model has no placed voxels, so there is nothing to export.
    Empty,
    /// The model is too large to fit the `.vox` 256/axis voxel limit.
    TooLarge,
    /// A filesystem error (with the offending path and message).
    Fs(String),
    /// The sidecar could not be parsed / is an unsupported version.
    BadSidecar(String),
}

/// The text of an error.
pub open spec fn error_text(e: IoError) -> Seq<char> {
    match e {
        IoError::Empty => "model is empty — nothing to save"@,
        IoError::TooLarge => "model exceeds the .vox 256-per-axis limit"@,
        IoError::Fs(m) => "filesystem error: "@ + m@,
        IoError::BadSidecar(m) => "could not read rig sidecar: "@ + m@,
    }
}

impl IoError {
    /// The message shown to the user.
    pub fn message(&self) -> (s: String)
        ensures
            s@ == error_text(*self),
    {
        match self {
            IoError::Empty => "model is empty — nothing to save".to_owned(),
            IoError::TooLarge => "model exceeds the .vox 256-per-axis limit".to_owned(),
            IoError::Fs(m) => concat("filesystem error: ", m.as_str()),
            IoError::BadSidecar(m) => concat("could not read rig sidecar: ", m.as_str()),
        }
    }
}

/// Directory the editor reads/writes projects from: `assets/models` under the
/// crate's own directory, so a checkout has a stable, self-contained location.
pub fn models_dir(crate_root: &str) -> (p: String)
    ensures
        p@ == crate_root@ + "/assets/models"@,
{
    concat(crate_root, "/assets/models")
}

/// Path of the rig sidecar for `stem`, to be joined to the models directory as the
/// platform joins paths.
pub fn rig_path(stem: &str) -> (p: String)
    ensures
        p@ == stem@ + "."@ + RIG_EXTENSION@,
{
    concat3(stem, ".", RIG_EXTENSION)
}

/// Path of the `.vox` for `stem`, to be joined to the models directory as the
/// platform joins paths.
pub fn vox_path(stem: &str) -> (p: String)
    ensures
        p@ == stem@ + ".vox"@,
{
    concat(stem, ".vox")
}

/// The stem of a file whose extension is `vox`. A name that begins with its only
/// dot has no extension.
pub open spec fn stem_of(file: Seq<char>) -> Option<Seq<char>> {
    let n = file.len() - 4;
    if n > 0 && file.skip(n) == ".vox"@ {
        Some(file.take(n))
    } else {
        None
    }
}

/// The stem of a `.vox` file's name, or `None` for any other file.
pub fn project_stem(file: &str) -> (stem: Option<String>)
    ensures
        match stem {
            Some(s) => stem_of(file@) == Some(s@),
            None => stem_of(file@) is None,
        },
{
    let len: usize = file.unicode_len();
    if len <= 4 {
        return None;
    }
    let n: usize = len - 4;
    let tail = file.substring_char(n, len);
    proof {
        assert(file@.subrange(n as int, len as int) =~= file@.skip(n as int));
    }
    if !same_text(tail, ".vox") {
        return None;
    }
    assert(file@.subrange(0, n as int) =~= file@.take(n as int));
    Some(file.substring_char(0, n).to_owned())
}

/// The characters of each name.
pub open spec fn texts(files: Seq<String>) -> Seq<Seq<char>> {
    files.map_values(|f: String| f@)
}

/// The projects among the files of a directory, in the order of the files.
pub open spec fn projects_among(files: Seq<Seq<char>>, all: Seq<Seq<char>>) -> Seq<EntryModel>
    decreases files.len(),
{
    if files.len() == 0 {
        Seq::empty()
    } else {
        let before = projects_among(files.drop_last(), all);
        match stem_of(files.last()) {
            Some(s) => before.push((s, all.contains(s + "."@ + RIG_EXTENSION@))),
            None => before,
        }
    }
}

/// `a` comes before `b` or is `b`, comparing code points.
pub open spec fn name_le(a: Seq<char>, b: Seq<char>) -> bool
    decreases a.len(),
{
    if a.len() == 0 {
        true
    } else if b.len() == 0 {
        false
    } else if a[0] as u32 != b[0] as u32 {
        (a[0] as u32) < (b[0] as u32)
    } else {
        name_le(a.skip(1), b.skip(1))
    }
}

pub(crate) proof fn lemma_name_le_total(a: Seq<char>, b: Seq<char>)
    ensures
        name_le(a, b) || name_le(b, a),
    decreases a.len(),
{
    if a.len() > 0 && b.len() > 0 && a[0] as u32 == b[0] as u32 {
        lemma_name_le_total(a.skip(1), b.skip(1));
    }
}

pub(crate) proof fn lemma_name_le_trans(a: Seq<char>, b: Seq<char>, c: Seq<char>)
    requires
        name_le(a, b),
        name_le(b, c),
    ensures
        name_le(a, c),
    decreases a.len(),
{
    if a.len() > 0 && b.len() > 0 && c.len() > 0 && a[0] as u32 == b[0] as u32 && b[0] as u32
        == c[0] as u32 {
        lemma_name_le_trans(a.skip(1), b.skip(1), c.skip(1));
    }
}

/// Whether `a` comes no later than `b`.
fn name_not_after(a: &str, b: &str) -> (r: bool)
    ensures
        r == name_le(a@, b@),
{
    let n: usize = a.unicode_len();
    let m: usize = b.unicode_len();
    let mut i: usize = 0;
    assert(a@.skip(0) =~= a@);
    assert(b@.skip(0) =~= b@);
    while i < n && i < m
        invariant
            n == a@.len(),
            m == b@.len(),
            i <= n,
            i <= m,
            name_le(a@, b@) == name_le(a@.skip(i as int), b@.skip(i as int)),
        decreases n - i,
    {
        let x: u32 = a.get_char(i) as u32;
        let y: u32 = b.get_char(i) as u32;
        if x != y {
            return x < y;
        }
        proof {
            assert(a@.skip(i as int).skip(1) =~= a@.skip(i + 1));
            assert(b@.skip(i as int).skip(1) =~= b@.skip(i + 1));
        }
        i += 1;
    }
    i == n
}

pub open spec fn entry_views(v: Seq<ProjectEntry>) -> Seq<EntryModel> {
    v.map_values(|e: ProjectEntry| e@)
}

/// No entry comes before its predecessor.
pub open spec fn sorted_by_name(v: Seq<EntryModel>) -> bool {
    forall|i: int, j: int| 0 <= i <= j < v.len() ==> name_le(v[i].0, v[j].0)
}

/// Inserts an entry behind all that come no later.
fn insert_by_name(list: &mut Vec<ProjectEntry>, entry: ProjectEntry)
    requires
        sorted_by_name(entry_views(old(list)@)),
    ensures
        sorted_by_name(entry_views(final(list)@)),
        entry_views(final(list)@).to_multiset() == entry_views(old(list)@).to_multiset().insert(
            entry@,
        ),
{
    let ghost before = entry_views(list@);
    let mut i: usize = list.len();
    proof {
        lemma_name_le_total(entry@.0, entry@.0);
    }
    while i > 0 && !name_not_after(list[i - 1].name.as_str(), entry.name.as_str())
        invariant
            i <= list@.len(),
            before == entry_views(list@),
            forall|k: int| i <= k < list@.len() ==> name_le(entry@.0, (#[trigger] before[k]).0),
        decreases i,
    {
        proof {
            lemma_name_le_total(entry@.0, before[i - 1].0);
        }
        i -= 1;
    }
    list.insert(i, entry);
    proof {
        broadcast use vstd::seq_lib::group_to_multiset_ensures;

        let after = entry_views(list@);
        assert(after =~= before.insert(i as int, entry@));
        assert forall|a: int, b: int| 0 <= a <= b < after.len() implies name_le(
            after[a].0,
            after[b].0,
        ) by {
            if a == i {
                if b == i {
                } else {
                    assert(after[b] == before[b - 1]);
                }
            } else if b == i {
                assert(after[a] == before[a]);
                lemma_name_le_trans(before[a].0, before[i - 1].0, entry@.0);
            } else {
                let a0 = if a < i {
                    a
                } else {
                    a - 1
                };
                let b0 = if b < i {
                    b
                } else {
                    b - 1
                };
                assert(after[a] == before[a0]);
                assert(after[b] == before[b0]);
            }
        }
    }
}

fn contains_text(files: &Vec<String>, name: &str) -> (r: bool)
    ensures
        r == texts(files@).contains(name@),
{
    let mut i: usize = 0;
    while i < files.len()
        invariant
            i <= files@.len(),
            forall|k: int| 0 <= k < i ==> texts(files@)[k] != name@,
        decreases files@.len() - i,
    {
        if same_text(files[i].as_str(), name) {
            assert(texts(files@)[i as int] == name@);
            return true;
        }
        i += 1;
    }
    false
}

/// The projects among the files of a directory, sorted by name. A directory that
/// does not exist yet has no files.
pub fn list_projects(files: &Vec<String>) -> (out: Vec<ProjectEntry>)
    ensures
        sorted_by_name(entry_views(out@)),
        entry_views(out@).to_multiset() == projects_among(
            texts(files@),
            texts(files@),
        ).to_multiset(),
{
    let mut out: Vec<ProjectEntry> = Vec::new();
    let mut i: usize = 0;
    assert(entry_views(out@) =~= Seq::<EntryModel>::empty());
    assert(texts(files@).take(0) =~= Seq::<Seq<char>>::empty());
    while i < files.len()
        invariant
            i <= files@.len(),
            sorted_by_name(entry_views(out@)),
            entry_views(out@).to_multiset() == projects_among(
                texts(files@).take(i as int),
                texts(files@),
            ).to_multiset(),
        decreases files@.len() - i,
    {
        broadcast use vstd::seq_lib::group_to_multiset_ensures;

        proof {
            assert(texts(files@).take(i + 1).drop_last() =~= texts(files@).take(i as int));
            assert(texts(files@).take(i + 1).last() == files@[i as int]@);
        }
        match project_stem(files[i].as_str()) {
            Some(stem) => {
                let sidecar = rig_path(stem.as_str());
                let has_rig = contains_text(files, sidecar.as_str());
                insert_by_name(&mut out, ProjectEntry { name: stem, has_rig });
            },
            None => {},
        }
        i += 1;
    }
    assert(texts(files@).take(i as int) =~= texts(files@));
    out
}

/// The voxel of the export that stands for a sub-voxel: cropped to `min`, with
/// y and z swapped, since z is up there.
pub open spec fn exported(min: Cell, e: (Cell, Voxel)) -> VoxVoxel {
    VoxVoxel {
        x: (e.0.x - min.x) as u8,
        y: (e.0.z - min.z) as u8,
        z: (e.0.y - min.y) as u8,
        palette_slot: e.1.color,
    }
}

/// The extents of the export: x, then the editor's z, then its y.
pub open spec fn exported_size(min: Cell, max: Cell) -> Seq<u32> {
    seq![
        (max.x - min.x + 1) as u32,
        (max.z - min.z + 1) as u32,
        (max.y - min.y + 1) as u32,
    ]
}

/// The scene holds each voxel of the model once, cropped to its tight bounds.
pub open spec fn is_scene_of(
    scene: VoxScene,
    m: Map<Cell, Voxel>,
    palette: Seq<(Seq<u8>, Seq<char>)>,
    min: Cell,
    max: Cell,
) -> bool {
    &&& tight_bounds(m, min, max)
    &&& scene.size@ == exported_size(min, max)
    &&& exists|list: Seq<(Cell, Voxel)>| #[trigger]
        lists(list, m) && scene.voxels@ == list.map_values(|e: (Cell, Voxel)| exported(min, e))
    &&& scene.palette@.len() == palette.len()
    &&& forall|i: int| 0 <= i < palette.len() ==> (#[trigger] scene.palette@[i])@ == palette[i].0
}

/// Build a [`VoxScene`] from the editor model: crop to the occupied bounds and
/// convert each editor cell `(ex, ey, ez)` (Y-up) into MagicaVoxel voxel space
/// `(ex, ez, ey)` (Z-up). Returns `None` if the model is empty.
pub fn build_scene(model: &VoxelModel, palette: &Palette) -> (scene: Option<VoxScene>)
    requires
        model.wf(),
    ensures
        match scene {
            Some(s) => (exists|min: Cell, max: Cell|
                is_scene_of(s, model@, palette@, min, max)) && representable(s)
                && s.voxels@.len() == model@.dom().len() <= 0x20_0000,
            None => model@ == Map::<Cell, Voxel>::empty(),
        },
{
    let (min, max) = match model.occupied_bounds() {
        Some(b) => b,
        None => {
            return None;
        },
    };
    proof {
        model.lemma_extent();
        model.lemma_all_inside();
    }
    let list = model.iter();
    let mut voxels: Vec<VoxVoxel> = Vec::new();
    let mut i: usize = 0;
    while i < list.len()
        invariant
            i <= list@.len(),
            voxels@.len() == i,
            lists(list@, model@),
            tight_bounds(model@, min, max),
            0 <= min.x <= max.x < 128,
            0 <= min.y <= max.y < 128,
            0 <= min.z <= max.z < 128,
            forall|k: int| 0 <= k < i ==> #[trigger] voxels@[k] == exported(min, list@[k]),
        decreases list@.len() - i,
    {
        let (cell, v) = list[i];
        assert(model@.contains_key(list@[i as int].0));
        voxels.push(
            VoxVoxel {
                x: (cell.x - min.x) as u8,
                y: (cell.z - min.z) as u8,
                z: (cell.y - min.y) as u8,
                palette_slot: v.color,
            },
        );
        i += 1;
    }
    let size: [u32; 3] = [
        (max.x - min.x + 1) as u32,
        (max.z - min.z + 1) as u32,
        (max.y - min.y + 1) as u32,
    ];
    let scene = VoxScene { size, voxels, palette: palette.rgbs() };
    proof {
        assert(scene.size@ =~= exported_size(min, max));
        assert(scene.voxels@ =~= list@.map_values(|e: (Cell, Voxel)| exported(min, e)));
        assert(lists(list@, model@));
        assert(is_scene_of(scene, model@, palette@, min, max));
        lemma_volume_bounds_count(model@);
        assert(scene.size@[0] == max.x - min.x + 1);
        assert(scene.size@[1] == max.z - min.z + 1);
        assert(scene.size@[2] == max.y - min.y + 1);
        assert(representable(scene));
    }
    Some(scene)
}

/// A build volume holds at most 128³ voxels.
proof fn lemma_volume_bounds_count(m: Map<Cell, Voxel>)
    requires
        m.dom().finite(),
        forall|c: Cell| #[trigger]
            m.contains_key(c) ==> 0 <= c.x < 128 && 0 <= c.y < 128 && 0 <= c.z < 128,
    ensures
        m.dom().len() <= 0x20_0000,
{
    let f = |c: Cell| c.x * 16384 + c.y * 128 + c.z;
    let image = m.dom().map(f);
    assert forall|a: Cell, b: Cell| #![auto]
        m.dom().contains(a) && m.dom().contains(b) && f(a) == f(b) implies a == b by {
        assert(m.contains_key(a) && m.contains_key(b));
    }
    vstd::set_lib::lemma_map_size(m.dom(), image, f);
    let range = vstd::set_lib::set_int_range(0, 0x20_0000);
    vstd::set_lib::lemma_int_range(0, 0x20_0000);
    assert forall|n: int| image.contains(n) implies range.contains(n) by {
        let c = choose|c: Cell| m.dom().contains(c) && f(c) == n;
        assert(m.contains_key(c));
    }
    vstd::set_lib::lemma_len_subset(image, range);
}

/// What an exported model is read back as: a reader of the file finds every voxel
/// of the model, with the height as its last coordinate, cropped to the bounds,
/// and in its color.
pub proof fn exported_models_read_back(
    scene: VoxScene,
    model: VoxelModel,
    palette: Seq<(Seq<u8>, Seq<char>)>,
    min: Cell,
    max: Cell,
    cell: Cell,
)
    requires
        model.wf(),
        is_scene_of(scene, model@, palette, min, max),
        model@.contains_key(cell),
        model@[cell].color < palette.len(),
        model@[cell].color < 255,
    ensures
        exists|i: int|
            0 <= i < scene.voxels.len() && reads_as(
                #[trigger] read_voxel(vox_file(scene), i),
                (cell.x - min.x, cell.z - min.z, cell.y - min.y),
            ) && read_color(vox_file(scene), read_voxel(vox_file(scene), i)[3] as int).take(3)
                == palette[model@[cell].color as int].0,
{
    model.lemma_extent();
    model.lemma_all_inside();
    lemma_volume_bounds_count(model@);
    lemma_scene_len(scene);
    let list = choose|list: Seq<(Cell, Voxel)>| #[trigger]
        lists(list, model@) && scene.voxels@ == list.map_values(
            |e: (Cell, Voxel)| exported(min, e),
        );
    let i = choose|i: int| 0 <= i < list.len() && list[i].0 == cell;
    assert(scene.voxels@[i] == exported(min, list[i]));
    voxels_read_back(scene, i);
    let file = vox_file(scene);
    let slot = model@[cell].color as int;
    assert(scene.palette@[slot]@ == palette[slot].0);
    let color = read_color(file, read_voxel(file, i)[3] as int);
    assert forall|k: int| 0 <= k < 3 implies color[k] == #[trigger] palette[slot].0[k] by {
        assert(palette[slot].0[k] == scene.palette[slot][k]);
    }
    assert(color.take(3) =~= palette[slot].0);
    assert(reads_as(
        read_voxel(file, i),
        (cell.x - min.x, cell.z - min.z, cell.y - min.y),
    ));
}

/// The first three bytes are these coordinates.
pub open spec fn reads_as(b: Seq<u8>, at: (int, int, int)) -> bool {
    b[0] == at.0 && b[1] == at.1 && b[2] == at.2
}

/// The geometry export of a project: its scene and the bytes of the `.vox`
/// file. A model without voxels has none.
pub fn export_model(model: &VoxelModel, palette: &Palette) -> (r: Result<
    (VoxScene, Vec<u8>),
    IoError,
>)
    requires
        model.wf(),
    ensures
        match r {
            Ok((scene, bytes)) => {
                &&& exists|min: Cell, max: Cell|
                    is_scene_of(scene, model@, palette@, min, max)
                &&& bytes@ == vox_file(scene)
                &&& model@ != Map::<Cell, Voxel>::empty()
            },
            Err(e) => e is Empty && model@ == Map::<Cell, Voxel>::empty(),
        },
{
    let scene = match build_scene(model, palette) {
        Some(s) => s,
        None => {
            return Err(IoError::Empty);
        },
    };
    proof {
        lemma_scene_len(scene);
        let (min, max) = choose|min: Cell, max: Cell|
            is_scene_of(scene, model@, palette@, min, max);
        assert(tight_bounds(model@, min, max));
        let c = choose|c: Cell| #[trigger] model@.contains_key(c) && c.x == min.x;
        assert(model@.contains_key(c));
        assert(!Map::<Cell, Voxel>::empty().contains_key(c));
    }
    match write_vox(&scene) {
        Some(bytes) => {
            assert(bytes@ == vox_file(scene));
            assert(model@ != Map::<Cell, Voxel>::empty());
            Ok((scene, bytes))
        },
        None => Err(IoError::TooLarge),
    }
}

/// Renaming a project moves both of its files, unless the name stays the same. The
/// paths are to be joined to the models directory.
pub fn rename_moves(old_name: &str, new_name: &str) -> (moves: Vec<(String, String)>)
    ensures
        if old_name@ == new_name@ {
            moves@.len() == 0
        } else {
            &&& moves@.len() == 2
            &&& moves@[0].0@ == old_name@ + ".vox"@
            &&& moves@[0].1@ == new_name@ + ".vox"@
            &&& moves@[1].0@ == old_name@ + "."@ + RIG_EXTENSION@
            &&& moves@[1].1@ == new_name@ + "."@ + RIG_EXTENSION@
        },
{
    let mut moves: Vec<(String, String)> = Vec::new();
    if same_text(old_name, new_name) {
        return moves;
    }
    moves.push((vox_path(old_name), vox_path(new_name)));
    moves.push((rig_path(old_name), rig_path(new_name)));
    moves
}

/// The files of a project, in the order in which they are deleted. The paths are to
/// be joined to the models directory.
pub fn project_files(name: &str) -> (files: Vec<String>)
    ensures
        files@.len() == 2,
        files@[0]@ == name@ + ".vox"@,
        files@[1]@ == name@ + "."@ + RIG_EXTENSION@,
{
    let mut files: Vec<String> = Vec::new();
    files.push(vox_path(name));
    files.push(rig_path(name));
    files
}

/// A file is a project's geometry exactly if its name is a stem, which is not empty,
/// and `.vox`.
pub proof fn stems_come_back(stem: Seq<char>, file: Seq<char>)
    ensures
        stem.len() > 0 ==> stem_of(stem + ".vox"@) == Some(stem),
        stem_of(file) matches Some(s) ==> s.len() > 0 && file == s + ".vox"@,
        stem_of(".vox"@) is None,
{
    reveal_strlit(".vox");
    let tail = ".vox"@;
    assert(tail.len() == 4);
    let whole = stem + tail;
    assert(whole.skip(whole.len() - 4) =~= tail);
    assert(whole.take(whole.len() - 4) =~= stem);
    if stem_of(file) is Some {
        assert(file =~= file.take(file.len() - 4) + file.skip(file.len() - 4));
    }
}

proof fn lemma_projects_among(files: Seq<Seq<char>>, all: Seq<Seq<char>>, k: int)
    requires
        0 <= k < files.len(),
        stem_of(files[k]) is Some,
    ensures
        projects_among(files, all).contains(
            (stem_of(files[k])->0, all.contains(stem_of(files[k])->0 + "."@ + RIG_EXTENSION@)),
        ),
    decreases files.len(),
{
    let rest = files.drop_last();
    let e = (stem_of(files[k])->0, all.contains(stem_of(files[k])->0 + "."@ + RIG_EXTENSION@));
    if k < rest.len() {
        assert(rest[k] == files[k]);
        lemma_projects_among(rest, all, k);
        let i = projects_among(rest, all).index_of(e);
        assert(projects_among(files, all)[i] == e);
    } else {
        assert(projects_among(files, all).last() == e);
    }
}

proof fn lemma_projects_are_files(files: Seq<Seq<char>>, all: Seq<Seq<char>>, i: int)
    requires
        0 <= i < projects_among(files, all).len(),
    ensures
        exists|k: int|
            0 <= k < files.len() && stem_of(#[trigger] files[k]) == Some(
                projects_among(files, all)[i].0,
            ),
        projects_among(files, all)[i].1 == all.contains(
            projects_among(files, all)[i].0 + "."@ + RIG_EXTENSION@,
        ),
    decreases files.len(),
{
    let rest = files.drop_last();
    if i < projects_among(rest, all).len() {
        lemma_projects_are_files(rest, all, i);
        let k = choose|k: int|
            0 <= k < rest.len() && stem_of(#[trigger] rest[k]) == Some(
                projects_among(rest, all)[i].0,
            );
        assert(files[k] == rest[k]);
    } else {
        assert(stem_of(files[files.len() - 1]) == Some(projects_among(files, all)[i].0));
    }
}

/// The browser lists a project for every `.vox` file of the directory, and no other;
/// it has a rig exactly if the sidecar of the same stem is among the files.
pub proof fn every_vox_file_is_a_project(files: Seq<Seq<char>>, name: Seq<char>, rig: bool)
    requires
        name.len() > 0,
    ensures
        projects_among(files, files).contains((name, rig)) <==> {
            &&& files.contains(name + ".vox"@)
            &&& rig == files.contains(name + "."@ + "rig.ron"@)
        },
{
    stems_come_back(name, name + ".vox"@);
    let found = projects_among(files, files);
    if found.contains((name, rig)) {
        let i = found.index_of((name, rig));
        lemma_projects_are_files(files, files, i);
        let k = choose|k: int| 0 <= k < files.len() && stem_of(#[trigger] files[k]) == Some(name);
        stems_come_back(name, files[k]);
        assert(files[k] == name + ".vox"@);
    }
    if files.contains(name + ".vox"@) {
        let k = files.index_of(name + ".vox"@);
        lemma_projects_among(files, files, k);
    }
}

/// Names are ordered by their first difference: a name comes before what it begins,
/// and before a name with a greater character at the first place where they differ.
pub proof fn names_are_ordered_by_first_difference(
    common: Seq<char>,
    a: Seq<char>,
    b: Seq<char>,
)
    ensures
        name_le(common, common + b),
        a.len() > 0 && b.len() > 0 && (a[0] as u32) < (b[0] as u32) ==> name_le(
            common + a,
            common + b,
        ) && !name_le(common + b, common + a),
        b.len() > 0 ==> !name_le(common + b, common),
    decreases common.len(),
{
    if common.len() == 0 {
        assert(common + a =~= a);
        assert(common + b =~= b);
    } else {
        let rest = common.skip(1);
        names_are_ordered_by_first_difference(rest, a, b);
        assert((common + a).skip(1) =~= rest + a);
        assert((common + b).skip(1) =~= rest + b);
    }
}

/// An export keeps distances and colors: a voxel keeps its color slot, and two voxels
/// stand apart as in the model, with the height last. The lowest voxel on each axis is
/// at 0, and the size reaches just past the highest.
pub proof fn exports_keep_distances(
    m: Map<Cell, Voxel>,
    min: Cell,
    max: Cell,
    a: (Cell, Voxel),
    b: (Cell, Voxel),
)
    requires
        tight_bounds(m, min, max),
        m.contains_key(a.0) && m.contains_key(b.0),
        max.x - min.x < 256 && max.y - min.y < 256 && max.z - min.z < 256,
    ensures
        exported(min, a).palette_slot == a.1.color,
        exported(min, a).x - exported(min, b).x == a.0.x - b.0.x,
        exported(min, a).y - exported(min, b).y == a.0.z - b.0.z,
        exported(min, a).z - exported(min, b).z == a.0.y - b.0.y,
        exported(min, a).x < exported_size(min, max)[0],
        exported(min, a).y < exported_size(min, max)[1],
        exported(min, a).z < exported_size(min, max)[2],
        a.0.x == min.x ==> exported(min, a).x == 0,
        a.0.x == max.x ==> exported(min, a).x + 1 == exported_size(min, max)[0],
        a.0.z == max.z ==> exported(min, a).y + 1 == exported_size(min, max)[1],
        a.0.y == max.y ==> exported(min, a).z + 1 == exported_size(min, max)[2],
{
}

/// What each error says.
pub proof fn errors_say_what_is_wrong(m: String)
    ensures
        error_text(IoError::Empty) == "model is empty — nothing to save"@,
        error_text(IoError::TooLarge) == "model exceeds the .vox 256-per-axis limit"@,
        error_text(IoError::Fs(m)) == "filesystem error: "@ + m@,
        error_text(IoError::BadSidecar(m)) == "could not read rig sidecar: "@ + m@,
{
}

} // verus!
