//! A minimal, correct MagicaVoxel `.vox` writer.
//!
//! The format is a small RIFF-like sequence of chunks:
//!
//! ```text
//! "VOX " <version:i32>
//! MAIN (content 0, children = SIZE + XYZI + RGBA)
//!   SIZE  <x:i32> <y:i32> <z:i32>
//!   XYZI  <numVoxels:i32> then per-voxel (x, y, z, colorIndex) bytes
//!   RGBA  256 × (r, g, b, a) bytes
//! ```
//!
//! A reader maps the file's color index `c` to the palette position `c - 1`, so
//! palette slot `s` is written with color index `s + 1`, and its color goes to
//! file palette position `s`.

use vstd::prelude::*;

verus! {

/// One voxel in MagicaVoxel (Z-up) space, with a 0-based editor palette slot.
#[derive(Clone, Copy, Debug)]
pub struct VoxVoxel {
    /// MagicaVoxel x (`0..size.x`).
    pub x: u8,
    /// MagicaVoxel y (`0..size.y`).
    pub y: u8,
    /// MagicaVoxel z (up, `0..size.z`).
    pub z: u8,
    /// 0-based palette slot this voxel paints (the editor's color index).
    pub palette_slot: u8,
}

/// Everything needed to serialize one `.vox` file: the model dimensions in
/// MagicaVoxel space, its voxels, and the sRGB palette (slot order).
#[derive(Debug)]
pub struct VoxScene {
    /// Model size on MagicaVoxel x/y/z.
    pub size: [u32; 3],
    /// The voxels, in MagicaVoxel space.
    pub voxels: Vec<VoxVoxel>,
    /// sRGB palette, slot order. `palette[s]` is the color for `palette_slot s`.
    pub palette: Vec<[u8; 3]>,
}

/// `.vox` format version.
pub const VOX_VERSION: u32 = 150;

/// The lower four bytes of `n`, least significant first.
pub open spec fn le_bytes(n: int) -> Seq<u8> {
    seq![
        (n % 256) as u8,
        (n / 256 % 256) as u8,
        (n / 65536 % 256) as u8,
        (n / 16777216 % 256) as u8,
    ]
}

/// A chunk: id, content length, children length, content, children.
pub open spec fn chunk(id: Seq<u8>, content: Seq<u8>, children: Seq<u8>) -> Seq<u8> {
    id + le_bytes(content.len() as int) + le_bytes(children.len() as int) + content + children
}

/// The bytes of one voxel: its place and its color index, which is the slot plus
/// one, at most 255.
pub open spec fn voxel_bytes(v: VoxVoxel) -> Seq<u8> {
    seq![
        v.x,
        v.y,
        v.z,
        if v.palette_slot < 255 {
            (v.palette_slot + 1) as u8
        } else {
            255
        },
    ]
}

pub open spec fn all_voxel_bytes(voxels: Seq<VoxVoxel>) -> Seq<u8>
    decreases voxels.len(),
{
    if voxels.len() == 0 {
        Seq::empty()
    } else {
        all_voxel_bytes(voxels.drop_last()) + voxel_bytes(voxels.last())
    }
}

/// The color table: the palette's colors, opaque, then zeros up to 256 entries.
pub open spec fn rgba_bytes(palette: Seq<[u8; 3]>) -> Seq<u8> {
    Seq::new(
        1024,
        |i: int|
            if i / 4 >= palette.len() {
                0
            } else if i % 4 == 3 {
                0xff
            } else {
                palette[i / 4][i % 4]
            },
    )
}

pub open spec fn size_bytes(size: Seq<u32>) -> Seq<u8> {
    le_bytes(size[0] as int) + le_bytes(size[1] as int) + le_bytes(size[2] as int)
}

pub open spec fn xyzi_bytes(voxels: Seq<VoxVoxel>) -> Seq<u8> {
    le_bytes(voxels.len() as int) + all_voxel_bytes(voxels)
}

/// `"SIZE"`.
pub open spec fn size_id() -> Seq<u8> {
    seq![0x53, 0x49, 0x5a, 0x45]
}

/// `"XYZI"`.
pub open spec fn xyzi_id() -> Seq<u8> {
    seq![0x58, 0x59, 0x5a, 0x49]
}

/// `"RGBA"`.
pub open spec fn rgba_id() -> Seq<u8> {
    seq![0x52, 0x47, 0x42, 0x41]
}

/// `"MAIN"`.
pub open spec fn main_id() -> Seq<u8> {
    seq![0x4d, 0x41, 0x49, 0x4e]
}

/// `"VOX "`.
pub open spec fn magic() -> Seq<u8> {
    seq![0x56, 0x4f, 0x58, 0x20]
}

/// The three chunks that hold a scene.
#[verifier::opaque]
pub open spec fn scene_chunks(scene: VoxScene) -> Seq<u8> {
    chunk(size_id(), size_bytes(scene.size@), Seq::empty()) + chunk(
        xyzi_id(),
        xyzi_bytes(scene.voxels@),
        Seq::empty(),
    ) + chunk(rgba_id(), rgba_bytes(scene.palette@), Seq::empty())
}

/// The whole file.
#[verifier::opaque]
pub open spec fn vox_file(scene: VoxScene) -> Seq<u8> {
    magic() + le_bytes(VOX_VERSION as int) + chunk(main_id(), Seq::empty(), scene_chunks(scene))
}

/// Every axis of the scene is between 1 and 256.
pub open spec fn representable(scene: VoxScene) -> bool {
    &&& 1 <= scene.size[0] <= 256
    &&& 1 <= scene.size[1] <= 256
    &&& 1 <= scene.size[2] <= 256
}

/// Appends `n`, least significant byte first.
fn push_le(out: &mut Vec<u8>, n: u32)
    ensures
        final(out)@ == old(out)@ + le_bytes(n as int),
{
    out.push((n % 256) as u8);
    out.push((n / 256 % 256) as u8);
    out.push((n / 65536 % 256) as u8);
    out.push((n / 16777216 % 256) as u8);
    assert(out@ =~= old(out)@ + le_bytes(n as int));
}

/// Appends a length, as the format's 32 bits hold it.
fn push_len(out: &mut Vec<u8>, len: usize)
    ensures
        final(out)@ == old(out)@ + le_bytes(len as int),
{
    let low: u64 = len as u64 % 0x1_0000_0000;
    proof {
        lemma_low_bytes(len as int);
    }
    push_le(out, low as u32);
}

/// Whole multiples of 256 do not change a byte of what is above `d`.
proof fn lemma_low_byte(q: int, r: int, d: int, k: int)
    requires
        0 < d,
        0 <= r,
    ensures
        (q * (256 * k * d) + r) / d % 256 == r / d % 256,
{
    let m = q * (256 * k);
    assert(q * (256 * k * d) + r == r + m * d) by (nonlinear_arith)
        requires
            m == q * (256 * k),
    ;
    vstd::arithmetic::div_mod::lemma_hoist_over_denominator(r, m, d as nat);
    assert(m == 256 * (q * k)) by (nonlinear_arith)
        requires
            m == q * (256 * k),
    ;
    vstd::arithmetic::div_mod::lemma_mod_multiples_vanish(q * k, r / d, 256);
    assert(r / d + m == 256 * (q * k) + r / d);
}

/// The four bytes of a number are those of its lower 32 bits.
#[verifier::spinoff_prover]
proof fn lemma_low_bytes(n: int)
    requires
        0 <= n,
    ensures
        le_bytes(n % 0x1_0000_0000) == le_bytes(n),
{
    let r = n % 0x1_0000_0000;
    let q = n / 0x1_0000_0000;
    assert(n == q * 0x1_0000_0000 + r);
    lemma_low_byte(q, r, 1, 0x100_0000);
    lemma_low_byte(q, r, 256, 0x1_0000);
    lemma_low_byte(q, r, 65536, 0x100);
    lemma_low_byte(q, r, 16777216, 1);
    assert(le_bytes(r) =~= le_bytes(n));
}

/// Appends bytes.
fn push_bytes(out: &mut Vec<u8>, bytes: &[u8])
    ensures
        final(out)@ == old(out)@ + bytes@,
{
    let mut i: usize = 0;
    while i < bytes.len()
        invariant
            i <= bytes@.len(),
            out@ == old(out)@ + bytes@.take(i as int),
        decreases bytes@.len() - i,
    {
        out.push(bytes[i]);
        i += 1;
        assert(out@ =~= old(out)@ + bytes@.take(i as int));
    }
    assert(bytes@.take(i as int) =~= bytes@);
}

/// Append one chunk (`id`, content bytes, children bytes) to `out` in the
/// format's header layout. Lengths are little-endian 32-bit integers; of a longer
/// one, the lower 32 bits are written.
pub fn push_chunk(out: &mut Vec<u8>, id: &[u8; 4], content: &[u8], children: &[u8])
    ensures
        final(out)@ == old(out)@ + chunk(id@, content@, children@),
{
    out.push(id[0]);
    out.push(id[1]);
    out.push(id[2]);
    out.push(id[3]);
    assert(out@ =~= old(out)@ + id@);
    push_len(out, content.len());
    push_len(out, children.len());
    push_bytes(out, content);
    push_bytes(out, children);
    assert(out@ =~= old(out)@ + chunk(id@, content@, children@));
}

proof fn lemma_all_voxel_bytes_len(voxels: Seq<VoxVoxel>)
    ensures
        all_voxel_bytes(voxels).len() == 4 * voxels.len(),
    decreases voxels.len(),
{
    if voxels.len() > 0 {
        lemma_all_voxel_bytes_len(voxels.drop_last());
    }
}

/// The length of the chunks of a scene.
pub(crate) proof fn lemma_scene_len(scene: VoxScene)
    ensures
        scene_chunks(scene).len() == 1076 + 4 * scene.voxels@.len(),
{
    reveal(scene_chunks);
    lemma_all_voxel_bytes_len(scene.voxels@);
}

/// The content of the voxel chunk.
fn xyzi_content(voxels: &Vec<VoxVoxel>) -> (out: Vec<u8>)
    ensures
        out@ == xyzi_bytes(voxels@),
{
    let mut out: Vec<u8> = Vec::new();
    push_len(&mut out, voxels.len());
    let ghost head = le_bytes(voxels@.len() as int);
    assert(out@ =~= head);
    let mut i: usize = 0;
    assert(head + all_voxel_bytes(voxels@.take(0)) =~= head);
    while i < voxels.len()
        invariant
            i <= voxels@.len(),
            out@ == head + all_voxel_bytes(voxels@.take(i as int)),
        decreases voxels@.len() - i,
    {
        let v = voxels[i];
        let ghost before = out@;
        out.push(v.x);
        out.push(v.y);
        out.push(v.z);
        out.push(v.palette_slot.saturating_add(1));
        i += 1;
        proof {
            assert(voxels@.take(i as int).drop_last() =~= voxels@.take(i - 1));
            assert(out@ =~= before + voxel_bytes(v));
            assert(out@ =~= head + all_voxel_bytes(voxels@.take(i as int)));
        }
    }
    assert(voxels@.take(i as int) =~= voxels@);
    out
}

/// The content of the color chunk.
fn rgba_content(palette: &Vec<[u8; 3]>) -> (out: Vec<u8>)
    ensures
        out@ == rgba_bytes(palette@),
{
    let mut out: Vec<u8> = Vec::new();
    let mut s: usize = 0;
    while s < 256
        invariant
            s <= 256,
            out@ == rgba_bytes(palette@).take(4 * s as int),
        decreases 256 - s,
    {
        if s < palette.len() {
            let rgb = palette[s];
            out.push(rgb[0]);
            out.push(rgb[1]);
            out.push(rgb[2]);
            out.push(0xff);
        } else {
            out.push(0);
            out.push(0);
            out.push(0);
            out.push(0);
        }
        s += 1;
        assert(out@ =~= rgba_bytes(palette@).take(4 * s as int));
    }
    assert(out@ =~= rgba_bytes(palette@));
    out
}

/// Serialize a [`VoxScene`] into `.vox` file bytes.
///
/// Returns `None` if the scene is unrepresentable (an axis is empty or longer
/// than 256, since voxel coordinates are single bytes).
pub fn write_vox(scene: &VoxScene) -> (out: Option<Vec<u8>>)
    ensures
        match out {
            Some(bytes) => representable(*scene) && bytes@ == vox_file(*scene),
            None => !representable(*scene),
        },
{
    if scene.size[0] == 0 || scene.size[0] > 256 || scene.size[1] == 0 || scene.size[1] > 256
        || scene.size[2] == 0 || scene.size[2] > 256 {
        return None;
    }
    proof {
        lemma_scene_len(*scene);
    }
    let mut size_content: Vec<u8> = Vec::new();
    push_le(&mut size_content, scene.size[0]);
    push_le(&mut size_content, scene.size[1]);
    push_le(&mut size_content, scene.size[2]);
    assert(size_content@ =~= size_bytes(scene.size@));
    let xyzi = xyzi_content(&scene.voxels);
    let rgba = rgba_content(&scene.palette);
    proof {
        lemma_all_voxel_bytes_len(scene.voxels@);
    }
    let none: [u8; 0] = [];
    assert(none@ =~= Seq::<u8>::empty());
    let size_tag: [u8; 4] = [0x53, 0x49, 0x5a, 0x45];
    let xyzi_tag: [u8; 4] = [0x58, 0x59, 0x5a, 0x49];
    let rgba_tag: [u8; 4] = [0x52, 0x47, 0x42, 0x41];
    let main_tag: [u8; 4] = [0x4d, 0x41, 0x49, 0x4e];
    assert(size_tag@ =~= size_id());
    assert(xyzi_tag@ =~= xyzi_id());
    assert(rgba_tag@ =~= rgba_id());
    assert(main_tag@ =~= main_id());
    let mut children: Vec<u8> = Vec::new();
    push_chunk(&mut children, &size_tag, size_content.as_slice(), &none);
    push_chunk(&mut children, &xyzi_tag, xyzi.as_slice(), &none);
    push_chunk(&mut children, &rgba_tag, rgba.as_slice(), &none);
    proof {
        reveal(scene_chunks);
        reveal(vox_file);
    }
    assert(children@ =~= scene_chunks(*scene));
    let mut out: Vec<u8> = Vec::new();
    out.push(0x56);
    out.push(0x4f);
    out.push(0x58);
    out.push(0x20);
    assert(out@ =~= magic());
    push_le(&mut out, VOX_VERSION);
    push_chunk(&mut out, &main_tag, &none, children.as_slice());
    assert(out@ =~= vox_file(*scene));
    Some(out)
}

/// The number that four bytes stand for, least significant first.
pub open spec fn from_le(b: Seq<u8>) -> int {
    b[0] + 256 * b[1] + 65536 * b[2] + 16777216 * b[3]
}

/// Lengths read back as they were written.
pub proof fn le_bytes_round_trip(n: int)
    requires
        0 <= n < 0x1_0000_0000,
    ensures
        from_le(le_bytes(n)) == n,
{
}

/// A chunk as a reader finds it.
pub struct ChunkModel {
    pub id: Seq<u8>,
    pub content: Seq<u8>,
    pub children: Seq<u8>,
    /// Where the next chunk starts.
    pub end: int,
}

/// The chunk that starts at `at`: the id, two lengths, and what they span.
#[verifier::opaque]
pub open spec fn read_chunk(b: Seq<u8>, at: int) -> ChunkModel {
    let n = from_le(b.subrange(at + 4, at + 8));
    let m = from_le(b.subrange(at + 8, at + 12));
    ChunkModel {
        id: b.subrange(at, at + 4),
        content: b.subrange(at + 12, at + 12 + n),
        children: b.subrange(at + 12 + n, at + 12 + n + m),
        end: at + 12 + n + m,
    }
}

/// The chunks of a file, as a reader walks them: the outer one, then those inside
/// it, one after the other.
pub open spec fn read_main(file: Seq<u8>) -> ChunkModel {
    read_chunk(file, 8)
}

pub open spec fn read_size(file: Seq<u8>) -> ChunkModel {
    read_chunk(read_main(file).children, 0)
}

pub open spec fn read_voxels(file: Seq<u8>) -> ChunkModel {
    read_chunk(read_main(file).children, read_size(file).end)
}

pub open spec fn read_colors(file: Seq<u8>) -> ChunkModel {
    read_chunk(read_main(file).children, read_voxels(file).end)
}

/// The four bytes of the `i`-th voxel that a reader finds: x, y, z, color index.
pub open spec fn read_voxel(file: Seq<u8>, i: int) -> Seq<u8> {
    read_voxels(file).content.subrange(4 + 4 * i, 8 + 4 * i)
}

/// The color (red, green, blue, alpha) that a reader finds for a color index.
pub open spec fn read_color(file: Seq<u8>, index: int) -> Seq<u8> {
    read_colors(file).content.subrange(4 * (index - 1), 4 * (index - 1) + 4)
}

proof fn lemma_read_chunk(
    before: Seq<u8>,
    id: Seq<u8>,
    content: Seq<u8>,
    children: Seq<u8>,
    after: Seq<u8>,
)
    requires
        id.len() == 4,
        content.len() < 0x1_0000_0000,
        children.len() < 0x1_0000_0000,
    ensures
        read_chunk(before + chunk(id, content, children) + after, before.len() as int) == (
        ChunkModel {
            id,
            content,
            children,
            end: (before.len() + 12 + content.len() + children.len()) as int,
        }),
{
    reveal(read_chunk);
    let b = before + chunk(id, content, children) + after;
    let at = before.len() as int;
    let n = content.len() as int;
    let m = children.len() as int;
    assert(b.subrange(at, at + 4) =~= id);
    assert(b.subrange(at + 4, at + 8) =~= le_bytes(n));
    assert(b.subrange(at + 8, at + 12) =~= le_bytes(m));
    le_bytes_round_trip(n);
    le_bytes_round_trip(m);
    assert(b.subrange(at + 12, at + 12 + n) =~= content);
    assert(b.subrange(at + 12 + n, at + 12 + n + m) =~= children);
}

/// Three chunks without children, one after the other, are found in turn.
proof fn lemma_read_three(
    ids: (Seq<u8>, Seq<u8>, Seq<u8>),
    contents: (Seq<u8>, Seq<u8>, Seq<u8>),
)
    requires
        ids.0.len() == 4,
        ids.1.len() == 4,
        ids.2.len() == 4,
        contents.0.len() < 0x1_0000_0000,
        contents.1.len() < 0x1_0000_0000,
        contents.2.len() < 0x1_0000_0000,
    ensures
        ({
            let none = Seq::<u8>::empty();
            let all = chunk(ids.0, contents.0, none) + chunk(ids.1, contents.1, none) + chunk(
                ids.2,
                contents.2,
                none,
            );
            let first = read_chunk(all, 0);
            let second = read_chunk(all, first.end);
            let third = read_chunk(all, second.end);
            &&& first.id == ids.0 && first.content == contents.0
            &&& second.id == ids.1 && second.content == contents.1
            &&& third.id == ids.2 && third.content == contents.2
            &&& third.end == all.len()
        }),
{
    let none = Seq::<u8>::empty();
    let one = chunk(ids.0, contents.0, none);
    let two = chunk(ids.1, contents.1, none);
    let three = chunk(ids.2, contents.2, none);
    let all = one + two + three;
    assert(one.len() == 12 + contents.0.len());
    assert(two.len() == 12 + contents.1.len());
    assert(three.len() == 12 + contents.2.len());
    assert(all =~= none + one + (two + three));
    lemma_read_chunk(none, ids.0, contents.0, none, two + three);
    lemma_read_chunk(one, ids.1, contents.1, none, three);
    assert(all =~= (one + two) + three + none);
    lemma_read_chunk(one + two, ids.2, contents.2, none, none);
}

/// The outer chunk of the file holds the chunks of the scene.
proof fn lemma_read_main(scene: VoxScene)
    requires
        scene_chunks(scene).len() < 0x1_0000_0000,
    ensures
        vox_file(scene).take(4) == magic(),
        from_le(vox_file(scene).subrange(4, 8)) == VOX_VERSION,
        read_main(vox_file(scene)).id == main_id(),
        read_main(vox_file(scene)).content == Seq::<u8>::empty(),
        read_main(vox_file(scene)).children == scene_chunks(scene),
        read_main(vox_file(scene)).end == vox_file(scene).len(),
{
    reveal(vox_file);
    let none = Seq::<u8>::empty();
    let file = vox_file(scene);
    let inner = scene_chunks(scene);
    let head = magic() + le_bytes(VOX_VERSION as int);
    assert(file =~= head + chunk(main_id(), none, inner) + none);
    lemma_read_chunk(head, main_id(), none, inner, none);
    assert(file.take(4) =~= magic());
    assert(file.subrange(4, 8) =~= le_bytes(VOX_VERSION as int));
    le_bytes_round_trip(VOX_VERSION as int);
}

/// The sizes and the number of voxels read back.
proof fn lemma_read_numbers(scene: VoxScene)
    requires
        scene.voxels.len() < 0x1_0000_0000,
    ensures
        from_le(size_bytes(scene.size@).subrange(0, 4)) == scene.size[0],
        from_le(size_bytes(scene.size@).subrange(4, 8)) == scene.size[1],
        from_le(size_bytes(scene.size@).subrange(8, 12)) == scene.size[2],
        from_le(xyzi_bytes(scene.voxels@).subrange(0, 4)) == scene.voxels.len(),
{
    let size = size_bytes(scene.size@);
    assert(size.subrange(0, 4) =~= le_bytes(scene.size[0] as int));
    assert(size.subrange(4, 8) =~= le_bytes(scene.size[1] as int));
    assert(size.subrange(8, 12) =~= le_bytes(scene.size[2] as int));
    le_bytes_round_trip(scene.size[0] as int);
    le_bytes_round_trip(scene.size[1] as int);
    le_bytes_round_trip(scene.size[2] as int);
    assert(xyzi_bytes(scene.voxels@).subrange(0, 4) =~= le_bytes(scene.voxels@.len() as int));
    le_bytes_round_trip(scene.voxels@.len() as int);
}

/// A reader of the file finds the magic word, the version and exactly the three
/// chunks of the scene, with the size and the number of voxels that were written.
pub proof fn file_reads_back(scene: VoxScene)
    requires
        scene_chunks(scene).len() < 0x1_0000_0000,
    ensures
        ({
            let file = vox_file(scene);
            &&& file.take(4) == magic()
            &&& from_le(file.subrange(4, 8)) == VOX_VERSION
            &&& read_main(file).id == main_id()
            &&& read_main(file).content.len() == 0
            &&& read_main(file).end == file.len()
            &&& read_size(file).id == size_id()
            &&& from_le(read_size(file).content.subrange(0, 4)) == scene.size[0]
            &&& from_le(read_size(file).content.subrange(4, 8)) == scene.size[1]
            &&& from_le(read_size(file).content.subrange(8, 12)) == scene.size[2]
            &&& read_voxels(file).id == xyzi_id()
            &&& read_voxels(file).content == xyzi_bytes(scene.voxels@)
            &&& from_le(read_voxels(file).content.subrange(0, 4)) == scene.voxels.len()
            &&& read_colors(file).id == rgba_id()
            &&& read_colors(file).content == rgba_bytes(scene.palette@)
            &&& read_colors(file).end == read_main(file).children.len()
        }),
{
    lemma_scene_len(scene);
    lemma_read_main(scene);
    lemma_all_voxel_bytes_len(scene.voxels@);
    lemma_read_numbers(scene);
    lemma_read_three(
        (size_id(), xyzi_id(), rgba_id()),
        (size_bytes(scene.size@), xyzi_bytes(scene.voxels@), rgba_bytes(scene.palette@)),
    );
    reveal(scene_chunks);
}

/// A reader of the file finds each voxel's coordinates as they were written, and
/// under its color index the color of the voxel's slot.
pub proof fn voxels_read_back(scene: VoxScene, i: int)
    requires
        scene_chunks(scene).len() < 0x1_0000_0000,
        0 <= i < scene.voxels.len(),
        scene.voxels[i].palette_slot < scene.palette.len(),
        scene.voxels[i].palette_slot < 255,
    ensures
        ({
            let v = scene.voxels[i];
            let b = read_voxel(vox_file(scene), i);
            let color = read_color(vox_file(scene), b[3] as int);
            &&& b.len() == 4 && color.len() == 4
            &&& b[0] == v.x && b[1] == v.y && b[2] == v.z
            &&& color[0] == scene.palette[v.palette_slot as int][0]
            &&& color[1] == scene.palette[v.palette_slot as int][1]
            &&& color[2] == scene.palette[v.palette_slot as int][2]
            &&& color[3] == 0xff
        }),
{
    file_reads_back(scene);
    lemma_voxel_at(scene.voxels@, i);
    lemma_all_voxel_bytes_len(scene.voxels@);
    let v = scene.voxels[i];
    let all = all_voxel_bytes(scene.voxels@);
    assert(xyzi_bytes(scene.voxels@).subrange(4 + 4 * i, 8 + 4 * i) =~= all.subrange(
        4 * i,
        4 * i + 4,
    ));
}

proof fn lemma_voxel_at(voxels: Seq<VoxVoxel>, i: int)
    requires
        0 <= i < voxels.len(),
    ensures
        all_voxel_bytes(voxels).subrange(4 * i, 4 * i + 4) == voxel_bytes(voxels[i]),
    decreases voxels.len(),
{
    let head = all_voxel_bytes(voxels.drop_last());
    lemma_all_voxel_bytes_len(voxels.drop_last());
    if i == voxels.len() - 1 {
        assert(all_voxel_bytes(voxels).subrange(4 * i, 4 * i + 4) =~= voxel_bytes(voxels[i]));
    } else {
        lemma_voxel_at(voxels.drop_last(), i);
        assert(all_voxel_bytes(voxels).subrange(4 * i, 4 * i + 4) =~= head.subrange(
            4 * i,
            4 * i + 4,
        ));
    }
}

/// Every voxel's slot has a color index of its own: slot 255 shares that of the slot
/// before.
pub open spec fn slots_fit(scene: VoxScene) -> bool {
    forall|i: int|
        0 <= i < scene.voxels.len() ==> (#[trigger] scene.voxels[i]).palette_slot < 255
}

/// Where the contents stand in the file.
proof fn lemma_file_parts(scene: VoxScene)
    ensures
        ({
            let n = scene.voxels@.len() as int;
            let file = vox_file(scene);
            &&& file.len() == 1096 + 4 * n
            &&& file.subrange(32, 44) == size_bytes(scene.size@)
            &&& file.subrange(56, 60 + 4 * n) == xyzi_bytes(scene.voxels@)
            &&& file.subrange(72 + 4 * n, 1096 + 4 * n) == rgba_bytes(scene.palette@)
        }),
{
    let n = scene.voxels@.len() as int;
    let file = vox_file(scene);
    let inner = scene_chunks(scene);
    lemma_scene_len(scene);
    lemma_all_voxel_bytes_len(scene.voxels@);
    assert(file.len() == 20 + inner.len() && file.subrange(20, file.len() as int) =~= inner) by {
        reveal(vox_file);
    }
    let none = Seq::<u8>::empty();
    let first = chunk(size_id(), size_bytes(scene.size@), none);
    let second = chunk(xyzi_id(), xyzi_bytes(scene.voxels@), none);
    let third = chunk(rgba_id(), rgba_bytes(scene.palette@), none);
    assert(inner == first + second + third) by {
        reveal(scene_chunks);
    }
    assert(first.len() == 24 && second.len() == 16 + 4 * n && third.len() == 1036);
    assert(first.subrange(12, 24) =~= size_bytes(scene.size@));
    assert(second.subrange(12, 16 + 4 * n) =~= xyzi_bytes(scene.voxels@));
    assert(third.subrange(12, 1036) =~= rgba_bytes(scene.palette@));
    assert(file.subrange(32, 44) =~= first.subrange(12, 24)) by {
        assert forall|i: int| 12 <= i < 24 implies file[20 + i] == first[i] by {
            assert(inner[i] == file.subrange(20, file.len() as int)[i]);
        }
    }
    assert(file.subrange(56, 60 + 4 * n) =~= second.subrange(12, 16 + 4 * n)) by {
        assert forall|i: int| 12 <= i < 16 + 4 * n implies file[44 + i] == second[i] by {
            assert(inner[24 + i] == file.subrange(20, file.len() as int)[24 + i]);
        }
    }
    assert(file.subrange(72 + 4 * n, 1096 + 4 * n) =~= third.subrange(12, 1036)) by {
        assert forall|i: int| 12 <= i < 1036 implies file[60 + 4 * n + i] == third[i] by {
            assert(inner[40 + 4 * n + i] == file.subrange(20, file.len() as int)[40 + 4 * n + i]);
        }
    }
}

proof fn lemma_same_voxel(a: Seq<VoxVoxel>, c: Seq<VoxVoxel>, i: int)
    requires
        xyzi_bytes(a) == xyzi_bytes(c),
        0 <= i < a.len(),
        a.len() == c.len(),
        a[i].palette_slot < 255,
        c[i].palette_slot < 255,
    ensures
        a[i] == c[i],
{
    let b = xyzi_bytes(a).subrange(4 + 4 * i, 8 + 4 * i);
    lemma_voxel_bytes_at(a, i);
    lemma_voxel_bytes_at(c, i);
    assert(b == voxel_bytes(a[i]));
    assert(b == voxel_bytes(c[i]));
    assert(b[0] == a[i].x && b[1] == a[i].y && b[2] == a[i].z && b[3] == a[i].palette_slot + 1);
    assert(b[0] == c[i].x && b[1] == c[i].y && b[2] == c[i].z && b[3] == c[i].palette_slot + 1);
}

proof fn lemma_same_size(a: Seq<u32>, c: Seq<u32>)
    requires
        a.len() == 3,
        c.len() == 3,
        size_bytes(a) == size_bytes(c),
    ensures
        a == c,
{
    let b = size_bytes(a);
    assert forall|i: int| 0 <= i < 3 implies a[i] == c[i] by {
        assert(b.subrange(4 * i, 4 * i + 4) =~= le_bytes(a[i] as int));
        assert(b.subrange(4 * i, 4 * i + 4) =~= le_bytes(c[i] as int));
        le_bytes_round_trip(a[i] as int);
        le_bytes_round_trip(c[i] as int);
    }
    assert(a =~= c);
}

/// Where a voxel's bytes stand in the voxel chunk.
proof fn lemma_voxel_bytes_at(voxels: Seq<VoxVoxel>, i: int)
    requires
        0 <= i < voxels.len(),
    ensures
        xyzi_bytes(voxels).subrange(4 + 4 * i, 8 + 4 * i) == voxel_bytes(voxels[i]),
{
    lemma_voxel_at(voxels, i);
    lemma_all_voxel_bytes_len(voxels);
    assert(xyzi_bytes(voxels).subrange(4 + 4 * i, 8 + 4 * i) =~= all_voxel_bytes(voxels).subrange(
        4 * i,
        4 * i + 4,
    ));
}

proof fn lemma_same_palette(a: Seq<[u8; 3]>, c: Seq<[u8; 3]>)
    requires
        a.len() <= 256,
        c.len() <= 256,
        rgba_bytes(a) == rgba_bytes(c),
    ensures
        a.len() == c.len(),
        forall|i: int| 0 <= i < a.len() ==> (#[trigger] a[i])@ == c[i]@,
{
    // the alpha byte tells whether a slot has a color
    if a.len() < c.len() {
        let k = 4 * a.len() + 3;
        assert(rgba_bytes(a)[k as int] == 0);
        assert(rgba_bytes(c)[k as int] == 0xff);
    }
    if c.len() < a.len() {
        let k = 4 * c.len() + 3;
        assert(rgba_bytes(c)[k as int] == 0);
        assert(rgba_bytes(a)[k as int] == 0xff);
    }
    assert forall|i: int| 0 <= i < a.len() implies (#[trigger] a[i])@ == c[i]@ by {
        assert forall|j: int| 0 <= j < 3 implies a[i]@[j] == c[i]@[j] by {
            let k = 4 * i + j;
            assert(k / 4 == i && k % 4 == j);
            assert(rgba_bytes(a)[k] == a[i][j]);
            assert(rgba_bytes(c)[k] == c[i][j]);
        }
        assert(a[i]@ =~= c[i]@);
    }
}

/// The bytes determine the scene: equal files come from scenes of equal size, with
/// equal palettes and equal voxels in equal order.
pub proof fn files_determine_scenes(a: VoxScene, c: VoxScene)
    requires
        slots_fit(a),
        slots_fit(c),
        a.palette.len() <= 256,
        c.palette.len() <= 256,
        vox_file(a) == vox_file(c),
    ensures
        a.size@ == c.size@,
        a.palette@ == c.palette@,
        a.voxels@ == c.voxels@,
{
    lemma_file_parts(a);
    lemma_file_parts(c);
    lemma_same_size(a.size@, c.size@);
    lemma_same_palette(a.palette@, c.palette@);
    assert forall|i: int| 0 <= i < a.palette@.len() implies a.palette@[i] == c.palette@[i] by {
        assert(a.palette@[i]@ == c.palette@[i]@);
        assert(a.palette@[i] =~= c.palette@[i]);
    }
    assert(a.palette@ =~= c.palette@);
    assert forall|i: int| 0 <= i < a.voxels@.len() implies a.voxels@[i] == c.voxels@[i] by {
        assert(a.voxels[i].palette_slot < 255 && c.voxels[i].palette_slot < 255);
        lemma_same_voxel(a.voxels@, c.voxels@, i);
    }
    assert(a.voxels@ =~= c.voxels@);
}

/// A voxel is four bytes: its place, and the color index, which counts from 1; the last
/// slot shares the index of the one before it. A color is opaque; entries without a
/// color are all zero.
pub proof fn voxels_and_colors_are_four_bytes(v: VoxVoxel, palette: Seq<[u8; 3]>, s: int)
    requires
        0 <= s < 256,
    ensures
        voxel_bytes(v).len() == 4,
        voxel_bytes(v)[0] == v.x && voxel_bytes(v)[1] == v.y && voxel_bytes(v)[2] == v.z,
        v.palette_slot < 255 ==> voxel_bytes(v)[3] == v.palette_slot + 1,
        v.palette_slot == 255 ==> voxel_bytes(v)[3] == 255,
        rgba_bytes(palette).len() == 1024,
        s < palette.len() ==> {
            &&& rgba_bytes(palette)[4 * s] == palette[s][0]
            &&& rgba_bytes(palette)[4 * s + 1] == palette[s][1]
            &&& rgba_bytes(palette)[4 * s + 2] == palette[s][2]
            &&& rgba_bytes(palette)[4 * s + 3] == 255
        },
        s >= palette.len() ==> {
            &&& rgba_bytes(palette)[4 * s] == 0
            &&& rgba_bytes(palette)[4 * s + 1] == 0
            &&& rgba_bytes(palette)[4 * s + 2] == 0
            &&& rgba_bytes(palette)[4 * s + 3] == 0
        },
{
}

/// The words of the format, letter by letter, and the version.
pub proof fn words_of_the_format()
    ensures
        magic() == seq!['V' as u8, 'O' as u8, 'X' as u8, ' ' as u8],
        main_id() == seq!['M' as u8, 'A' as u8, 'I' as u8, 'N' as u8],
        size_id() == seq!['S' as u8, 'I' as u8, 'Z' as u8, 'E' as u8],
        xyzi_id() == seq!['X' as u8, 'Y' as u8, 'Z' as u8, 'I' as u8],
        rgba_id() == seq!['R' as u8, 'G' as u8, 'B' as u8, 'A' as u8],
        VOX_VERSION == 150,
{
}

/// A scene can be written exactly if no axis is empty or longer than 256.
pub proof fn scenes_have_up_to_256_cells_per_axis(scene: VoxScene)
    ensures
        representable(scene) <==> forall|k: int|
            0 <= k < 3 ==> 0 < #[trigger] scene.size@[k] <= 256,
{
    if forall|k: int| 0 <= k < 3 ==> 0 < #[trigger] scene.size@[k] <= 256 {
        assert(0 < scene.size@[0] <= 256 && 0 < scene.size@[1] <= 256 && 0 < scene.size@[2] <= 256);
    }
}

/// Numbers are written least significant byte first.
pub proof fn numbers_are_little_endian(n: int)
    requires
        0 <= n < 0x1_0000_0000,
    ensures
        le_bytes(n).len() == 4,
        n == le_bytes(n)[0] + 256 * (le_bytes(n)[1] + 256 * (le_bytes(n)[2] + 256 * le_bytes(n)[3])),
{
}

} // verus!
