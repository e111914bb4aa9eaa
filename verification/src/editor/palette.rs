//! The editor's working color palette.
//!
//! A [`Palette`] is an ordered list of [`PaletteColor`]s; a sub-voxel stores a
//! `u8` index into it. The default palette is seeded from the colors of the
//! in-game blocks, so a model painted in the editor reads in the same hues the
//! game renders its blocks in.

use vstd::prelude::*;

verus! {

/// Maximum palette entries. The `.vox` format has 256 palette slots, of which
/// 255 can be used.
pub const MAX_COLORS: usize = 255;

/// A block the game can build with.
#[derive(Clone, Copy, Debug)]
pub struct BlockMaterial {
    /// Raw material index.
    pub index: u8,
    /// sRGB color the game renders the block in.
    pub color: [u8; 3],
    pub label: &'static str,
}

/// One palette entry: an sRGB color plus a label for the UI.
#[derive(Clone, Copy, Debug)]
pub struct PaletteColor {
    /// sRGB red/green/blue, `0..=255`.
    pub rgb: [u8; 3],
    /// Short display name (e.g. the source block name, or `"Custom"`).
    pub name: &'static str,
}

/// An ordered palette. Index `0` is always a valid color so a freshly created
/// model has something to paint with.
#[derive(Debug)]
pub struct Palette {
    colors: Vec<PaletteColor>,
}

/// A color by its parts and the characters of its name.
pub open spec fn swatch(r: u8, g: u8, b: u8, name: Seq<char>) -> (Seq<u8>, Seq<char>) {
    (seq![r, g, b], name)
}

/// The neutral ramps and a few hues that follow the block colors.
pub open spec fn ramp() -> Seq<(Seq<u8>, Seq<char>)> {
    seq![
        swatch(0xff, 0xff, 0xff, "White"@),
        swatch(0xc8, 0xc8, 0xc8, "Light Grey"@),
        swatch(0x80, 0x80, 0x80, "Grey"@),
        swatch(0x40, 0x40, 0x40, "Dark Grey"@),
        swatch(0x12, 0x12, 0x12, "Near Black"@),
        swatch(0xc8, 0x8a, 0x5a, "Skin"@),
        swatch(0x8a, 0x2a, 0x2a, "Red"@),
        swatch(0x2a, 0x6a, 0x2a, "Green"@),
        swatch(0x2a, 0x3a, 0x8a, "Blue"@),
        swatch(0xd8, 0xb0, 0x30, "Gold"@),
    ]
}

impl View for PaletteColor {
    type V = (Seq<u8>, Seq<char>);

    open spec fn view(&self) -> (Seq<u8>, Seq<char>) {
        (self.rgb@, self.name@)
    }
}

impl View for Palette {
    type V = Seq<(Seq<u8>, Seq<char>)>;

    closed spec fn view(&self) -> Seq<(Seq<u8>, Seq<char>)> {
        self.colors@.map_values(|c: PaletteColor| c@)
    }
}

/// The colors of the game's blocks under their labels.
pub open spec fn block_swatches(blocks: Seq<BlockMaterial>) -> Seq<(Seq<u8>, Seq<char>)> {
    blocks.map_values(|m: BlockMaterial| (m.color@, m.label@))
}

/// The first of the blocks with this color.
pub open spec fn first_match(blocks: Seq<BlockMaterial>, rgb: Seq<u8>) -> Option<int>
    decreases blocks.len(),
{
    if blocks.len() == 0 {
        None
    } else {
        match first_match(blocks.drop_last(), rgb) {
            Some(i) => Some(i),
            None => if blocks.last().color@ == rgb {
                Some(blocks.len() - 1)
            } else {
                None
            },
        }
    }
}

/// The name of a loaded color: that of the first block of this color, if any.
pub open spec fn loaded_name(blocks: Seq<BlockMaterial>, rgb: Seq<u8>) -> Seq<char> {
    match first_match(blocks, rgb) {
        Some(i) => blocks[i].label@,
        None => "Loaded"@,
    }
}

/// The palette that stored colors are loaded into.
pub open spec fn loaded(blocks: Seq<BlockMaterial>, rgbs: Seq<[u8; 3]>) -> Seq<
    (Seq<u8>, Seq<char>),
> {
    if rgbs.len() == 0 {
        seq![swatch(0xff, 0xff, 0xff, "White"@)]
    } else {
        rgbs.map_values(|rgb: [u8; 3]| (rgb@, loaded_name(blocks, rgb@)))
    }
}

/// The label of a block.
fn block_label(m: &BlockMaterial) -> (name: &'static str)
    ensures
        name@ == m.label@,
{
    m.label
}

/// If `rgb` exactly matches the color of an in-game block, that block's label;
/// otherwise `None`.
pub fn game_label_for(blocks: &[BlockMaterial], rgb: [u8; 3]) -> (name: Option<&'static str>)
    ensures
        match first_match(blocks@, rgb@) {
            Some(i) => 0 <= i < blocks@.len() && blocks@[i].color@ == rgb@ && (name matches Some(n)
                && n@ == blocks@[i].label@),
            None => name is None,
        },
{
    let mut i: usize = 0;
    while i < blocks.len()
        invariant
            i <= blocks@.len(),
            first_match(blocks@.take(i as int), rgb@) is None,
        decreases blocks@.len() - i,
    {
        let m = &blocks[i];
        proof {
            assert(blocks@.take(i + 1).drop_last() =~= blocks@.take(i as int));
            assert(m.color@ == rgb@ <==> (m.color@[0] == rgb@[0] && m.color@[1] == rgb@[1]
                && m.color@[2] == rgb@[2])) by {
                if m.color@[0] == rgb@[0] && m.color@[1] == rgb@[1] && m.color@[2] == rgb@[2] {
                    assert(m.color@ =~= rgb@);
                }
            }
        }
        if m.color[0] == rgb[0] && m.color[1] == rgb[1] && m.color[2] == rgb[2] {
            proof {
                assert(first_match(blocks@.take(i + 1), rgb@) == Some(i as int));
                lemma_first_match_stays(blocks@, rgb@, i + 1);
            }
            return Some(block_label(m));
        }
        i += 1;
    }
    assert(blocks@.take(i as int) =~= blocks@);
    None
}

/// A match among the first blocks is the match among all.
proof fn lemma_first_match_stays(blocks: Seq<BlockMaterial>, rgb: Seq<u8>, n: int)
    requires
        0 <= n <= blocks.len(),
        first_match(blocks.take(n), rgb) is Some,
    ensures
        first_match(blocks, rgb) == first_match(blocks.take(n), rgb),
    decreases blocks.len() - n,
{
    if n == blocks.len() {
        assert(blocks.take(n) =~= blocks);
    } else {
        assert(blocks.take(n + 1).drop_last() =~= blocks.take(n));
        lemma_first_match_stays(blocks, rgb, n + 1);
    }
}

impl Palette {
    /// A palette always keeps at least one color.
    pub open spec fn wf(&self) -> bool {
        self@.len() > 0
    }

    /// The default palette: every in-game buildable block color first (so editor
    /// models match the game's hues), then a few neutral greys for shading.
    pub fn default_game(blocks: &[BlockMaterial]) -> (p: Palette)
        ensures
            p@ == block_swatches(blocks@) + ramp(),
            p.wf(),
    {
        let mut colors: Vec<PaletteColor> = Vec::new();
        let mut i: usize = 0;
        while i < blocks.len()
            invariant
                i <= blocks@.len(),
                colors@.len() == i,
                forall|k: int|
                    0 <= k < i ==> (#[trigger] colors@[k])@ == (
                        blocks@[k].color@,
                        blocks@[k].label@,
                    ),
            decreases blocks@.len() - i,
        {
            colors.push(PaletteColor { rgb: blocks[i].color, name: block_label(&blocks[i]) });
            i += 1;
        }
        let ghost head = colors@;
        colors.push(PaletteColor { rgb: [0xff, 0xff, 0xff], name: "White" });
        colors.push(PaletteColor { rgb: [0xc8, 0xc8, 0xc8], name: "Light Grey" });
        colors.push(PaletteColor { rgb: [0x80, 0x80, 0x80], name: "Grey" });
        colors.push(PaletteColor { rgb: [0x40, 0x40, 0x40], name: "Dark Grey" });
        colors.push(PaletteColor { rgb: [0x12, 0x12, 0x12], name: "Near Black" });
        colors.push(PaletteColor { rgb: [0xc8, 0x8a, 0x5a], name: "Skin" });
        colors.push(PaletteColor { rgb: [0x8a, 0x2a, 0x2a], name: "Red" });
        colors.push(PaletteColor { rgb: [0x2a, 0x6a, 0x2a], name: "Green" });
        colors.push(PaletteColor { rgb: [0x2a, 0x3a, 0x8a], name: "Blue" });
        colors.push(PaletteColor { rgb: [0xd8, 0xb0, 0x30], name: "Gold" });
        let p = Palette { colors };
        proof {
            let n = head.len() as int;
            assert(p@.len() == n + 10);
            let r = ramp();
            assert(p@[n] == r[0] && p@[n + 1] == r[1] && p@[n + 2] == r[2] && p@[n + 3] == r[3]
                && p@[n + 4] == r[4]) by {
                assert(p@[n].0 =~= r[0].0);
                assert(p@[n + 1].0 =~= r[1].0);
                assert(p@[n + 2].0 =~= r[2].0);
                assert(p@[n + 3].0 =~= r[3].0);
                assert(p@[n + 4].0 =~= r[4].0);
            }
            assert(p@[n + 5] == r[5] && p@[n + 6] == r[6] && p@[n + 7] == r[7] && p@[n + 8] == r[8]
                && p@[n + 9] == r[9]) by {
                assert(p@[n + 5].0 =~= r[5].0);
                assert(p@[n + 6].0 =~= r[6].0);
                assert(p@[n + 7].0 =~= r[7].0);
                assert(p@[n + 8].0 =~= r[8].0);
                assert(p@[n + 9].0 =~= r[9].0);
            }
            let want = block_swatches(blocks@) + r;
            assert forall|k: int| 0 <= k < n + 10 implies p@[k] == want[k] by {
                if k < n {
                    assert(p@[k] == head[k]@);
                }
            }
            assert(p@ =~= want);
        }
        p
    }

    /// Rebuild a palette from persisted sRGB triples (on load). Entries that
    /// match a known game-block color keep that block's label; the rest are
    /// labeled `"Loaded"`. Always yields at least one color so the result is a
    /// valid palette even from an empty input.
    pub fn from_rgbs(blocks: &[BlockMaterial], rgbs: &[[u8; 3]]) -> (p: Palette)
        ensures
            p@ == loaded(blocks@, rgbs@),
            p.wf(),
    {
        let mut colors: Vec<PaletteColor> = Vec::new();
        let mut i: usize = 0;
        while i < rgbs.len()
            invariant
                i <= rgbs@.len(),
                colors@.len() == i,
                forall|k: int|
                    0 <= k < i ==> (#[trigger] colors@[k])@ == (
                        rgbs@[k]@,
                        loaded_name(blocks@, rgbs@[k]@),
                    ),
            decreases rgbs@.len() - i,
        {
            let rgb = rgbs[i];
            let name = match game_label_for(blocks, rgb) {
                Some(n) => n,
                None => "Loaded",
            };
            colors.push(PaletteColor { rgb, name });
            i += 1;
        }
        if colors.len() == 0 {
            colors.push(PaletteColor { rgb: [0xff, 0xff, 0xff], name: "White" });
            let p = Palette { colors };
            proof {
                assert(p@[0].0 =~= seq![0xffu8, 0xffu8, 0xffu8]);
                assert(p@ =~= loaded(blocks@, rgbs@));
            }
            return p;
        }
        let p = Palette { colors };
        assert(p@ =~= loaded(blocks@, rgbs@));
        p
    }

    /// The palette as a flat list of sRGB triples, in index order.
    pub fn rgbs(&self) -> (v: Vec<[u8; 3]>)
        ensures
            v@.len() == self@.len(),
            forall|i: int| 0 <= i < v@.len() ==> (#[trigger] v@[i])@ == self@[i].0,
    {
        let mut v: Vec<[u8; 3]> = Vec::new();
        let mut i: usize = 0;
        while i < self.colors.len()
            invariant
                i <= self.colors@.len(),
                v@.len() == i,
                forall|k: int| 0 <= k < i ==> (#[trigger] v@[k])@ == self@[k].0,
            decreases self.colors@.len() - i,
        {
            v.push(self.colors[i].rgb);
            i += 1;
        }
        v
    }

    /// Number of colors in the palette.
    pub fn len(&self) -> (n: usize)
        ensures
            n == self@.len(),
    {
        self.colors.len()
    }

    /// The color at `index`, if in range.
    pub fn get(&self, index: u8) -> (c: Option<PaletteColor>)
        ensures
            match c {
                Some(color) => index < self@.len() && color@ == self@[index as int],
                None => index >= self@.len(),
            },
    {
        if (index as usize) < self.colors.len() {
            Some(self.colors[index as usize])
        } else {
            None
        }
    }

    /// The sRGB of a color index, falling back to magenta for an out-of-range
    /// index so a bad reference is visible rather than silent.
    pub fn rgb(&self, index: u8) -> (rgb: [u8; 3])
        ensures
            rgb@ == (if index < self@.len() {
                self@[index as int].0
            } else {
                seq![0xffu8, 0x00u8, 0xffu8]
            }),
    {
        match self.get(index) {
            Some(c) => c.rgb,
            None => {
                let magenta: [u8; 3] = [0xff, 0x00, 0xff];
                assert(magenta@ =~= seq![0xffu8, 0x00u8, 0xffu8]);
                magenta
            },
        }
    }

    /// The `(index, color)` pairs for the UI swatch grid, in order. Indices past
    /// 255 wrap around.
    pub fn iter(&self) -> (v: Vec<(u8, PaletteColor)>)
        ensures
            v@.len() == self@.len(),
            forall|i: int|
                0 <= i < v@.len() ==> (#[trigger] v@[i]).0 == i % 256 && v@[i].1@ == self@[i],
    {
        let mut v: Vec<(u8, PaletteColor)> = Vec::new();
        let mut i: usize = 0;
        while i < self.colors.len()
            invariant
                i <= self.colors@.len(),
                v@.len() == i,
                forall|k: int|
                    0 <= k < i ==> (#[trigger] v@[k]).0 == k % 256 && v@[k].1@ == self@[k],
            decreases self.colors@.len() - i,
        {
            v.push(((i % 256) as u8, self.colors[i]));
            i += 1;
        }
        v
    }

    /// Append a custom color, returning its new index, or `None` if the palette
    /// is full.
    pub fn push_custom(&mut self, rgb: [u8; 3]) -> (index: Option<u8>)
        ensures
            match index {
                Some(i) => old(self)@.len() < MAX_COLORS && i == old(self)@.len() && final(self)@
                    == old(self)@.push((rgb@, "Custom"@)),
                None => old(self)@.len() >= MAX_COLORS && *final(self) == *old(self),
            },
            index is Some <==> old(self)@.len() < 255,
            old(self).wf() ==> final(self).wf(),
    {
        if self.colors.len() >= MAX_COLORS {
            return None;
        }
        self.colors.push(PaletteColor { rgb, name: "Custom" });
        assert(self@ =~= old(self)@.push((rgb@, "Custom"@)));
        Some((self.colors.len() - 1) as u8)
    }

    /// Overwrite the sRGB of an existing entry (the UI color picker edits in
    /// place). No-op for an out-of-range index.
    pub fn set_rgb(&mut self, index: u8, rgb: [u8; 3])
        ensures
            final(self)@ == (if index < old(self)@.len() {
                old(self)@.update(index as int, (rgb@, old(self)@[index as int].1))
            } else {
                old(self)@
            }),
            old(self).wf() ==> final(self).wf(),
    {
        if (index as usize) < self.colors.len() {
            let name = self.colors[index as usize].name;
            self.colors.set(index as usize, PaletteColor { rgb, name });
            assert(self@ =~= old(self)@.update(
                index as int,
                (rgb@, old(self)@[index as int].1),
            ));
        }
    }
}

proof fn lemma_first_match(blocks: Seq<BlockMaterial>, rgb: Seq<u8>)
    ensures
        match first_match(blocks, rgb) {
            Some(i) => {
                &&& 0 <= i < blocks.len()
                &&& blocks[i].color@ == rgb
                &&& forall|j: int| 0 <= j < i ==> (#[trigger] blocks[j]).color@ != rgb
            },
            None => forall|j: int| 0 <= j < blocks.len() ==> (#[trigger] blocks[j]).color@ != rgb,
        },
    decreases blocks.len(),
{
    if blocks.len() > 0 {
        let head = blocks.drop_last();
        lemma_first_match(head, rgb);
        assert forall|j: int| 0 <= j < head.len() implies head[j] == #[trigger] blocks[j] by {}
    }
}

/// A loaded palette keeps the stored colors, in order. Each is named after the first
/// block of that very color, and `Loaded` if there is no such block. A palette is
/// never left empty: without colors it is white.
pub proof fn loaded_palettes_keep_their_colors(
    blocks: Seq<BlockMaterial>,
    rgbs: Seq<[u8; 3]>,
    i: int,
)
    requires
        0 <= i < rgbs.len(),
    ensures
        loaded(blocks, rgbs).len() == rgbs.len(),
        loaded(blocks, rgbs)[i].0 == rgbs[i]@,
        (exists|j: int| 0 <= j < blocks.len() && (#[trigger] blocks[j]).color@ == rgbs[i]@)
            ==> exists|j: int|
            {
                &&& 0 <= j < blocks.len()
                &&& (#[trigger] blocks[j]).color@ == rgbs[i]@
                &&& loaded(blocks, rgbs)[i].1 == blocks[j].label@
                &&& forall|k: int| 0 <= k < j ==> (#[trigger] blocks[k]).color@ != rgbs[i]@
            },
        (forall|j: int| 0 <= j < blocks.len() ==> (#[trigger] blocks[j]).color@ != rgbs[i]@)
            ==> loaded(blocks, rgbs)[i].1 == "Loaded"@,
        loaded(blocks, Seq::empty()) == seq![(seq![0xffu8, 0xffu8, 0xffu8], "White"@)],
{
    lemma_first_match(blocks, rgbs[i]@);
}

/// The game's palette begins with the blocks' own colors and labels, in order, and
/// ends with ten more colors, white first.
pub proof fn game_palettes_begin_with_the_blocks(blocks: Seq<BlockMaterial>, i: int)
    ensures
        ({
            let p = block_swatches(blocks) + ramp();
            &&& p.len() == blocks.len() + 10
            &&& 0 <= i < blocks.len() ==> p[i] == (blocks[i].color@, blocks[i].label@)
            &&& p[blocks.len() as int] == (seq![0xffu8, 0xffu8, 0xffu8], "White"@)
        }),
{
}

/// The shades and hues behind the blocks' colors.
pub proof fn shades_and_hues()
    ensures
        ({
            let r = ramp();
            &&& r.len() == 10
            &&& r[0] == (seq![0xffu8, 0xffu8, 0xffu8], "White"@)
            &&& r[1] == (seq![0xc8u8, 0xc8u8, 0xc8u8], "Light Grey"@)
            &&& r[2] == (seq![0x80u8, 0x80u8, 0x80u8], "Grey"@)
            &&& r[3] == (seq![0x40u8, 0x40u8, 0x40u8], "Dark Grey"@)
            &&& r[4] == (seq![0x12u8, 0x12u8, 0x12u8], "Near Black"@)
            &&& r[5] == (seq![0xc8u8, 0x8au8, 0x5au8], "Skin"@)
            &&& r[6] == (seq![0x8au8, 0x2au8, 0x2au8], "Red"@)
            &&& r[7] == (seq![0x2au8, 0x6au8, 0x2au8], "Green"@)
            &&& r[8] == (seq![0x2au8, 0x3au8, 0x8au8], "Blue"@)
            &&& r[9] == (seq![0xd8u8, 0xb0u8, 0x30u8], "Gold"@)
        }),
{
}

} // verus!
