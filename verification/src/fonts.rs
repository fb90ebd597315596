//! Font glyph cache: each character that is drawn gets a cell of a texture
//! atlas the first time, and keeps it.

use vstd::prelude::*;

use hashbrown::HashMap;

use crate::texture::{first_unused, lemma_first_unused_props, TextureAtlas, TextureRegion};

verus! {

/// Marker for font indices.
pub struct FontIndex {}

/// Which atlas cell holds each cached character: a `hashbrown::HashMap`
/// from character to cell, hidden from verification; what it holds is known
/// only through the wrappers below.
#[verifier::external_body]
pub struct GlyphIndex {
    map: HashMap<char, usize>,
}

/// The characters a glyph index holds, each with its cell.
pub uninterp spec fn glyph_index_contents(index: GlyphIndex) -> Map<char, usize>;

/// An empty `hashbrown::HashMap` (`HashMap::new`): it holds nothing.
#[verifier::external_body]
fn glyph_index_new() -> (fresh: GlyphIndex)
    ensures
        glyph_index_contents(fresh).is_empty(),
{
    GlyphIndex { map: HashMap::new() }
}

/// `HashMap::get`: the cell of `c` when the map holds `c`, and `None` otherwise.
#[verifier::external_body]
fn glyph_index_get(index: &GlyphIndex, c: char) -> (r: Option<usize>)
    ensures
        match r {
            Some(cell) => glyph_index_contents(*index).contains_key(c) && glyph_index_contents(*index)[c] == cell,
            None => !glyph_index_contents(*index).contains_key(c),
        },
{
    index.map.get(&c).copied()
}

/// `HashMap::insert`: afterwards the map holds `c` with `cell`, and every
/// other entry as before. (An allocation failure, which aborts, is not
/// covered.)
#[verifier::external_body]
fn glyph_index_insert(index: &mut GlyphIndex, c: char, cell: usize)
    ensures
        glyph_index_contents(*final(index)) == glyph_index_contents(*old(index)).insert(c, cell),
{
    index.map.insert(c, cell);
}

/// What the cache needs of a monospace font: the width of its glyph image and
/// the size of one character.
#[derive(Clone, Copy, Debug, PartialEq, Eq)]
pub struct FontMetrics {
    pub image_width: u32,
    pub char_width: u32,
    pub char_height: u32,
}

/// A rectangle of the font image.
#[derive(Clone, Copy, Debug, PartialEq, Eq)]
pub struct GlyphRect {
    pub x: u32,
    pub y: u32,
    pub width: u32,
    pub height: u32,
}

/// Glyphs per row of the font image.
pub open spec fn glyphs_per_row(font: FontMetrics) -> int {
    font.image_width as int / font.char_width as int
}

/// The rectangle of glyph `glyph_index`: glyphs fill the image row by row.
pub open spec fn spec_font_glyph(font: FontMetrics, glyph_index: u32) -> GlyphRect {
    let per_row = glyphs_per_row(font);
    GlyphRect {
        x: ((glyph_index as int % per_row) * font.char_width) as u32,
        y: ((glyph_index as int / per_row) * font.char_height) as u32,
        width: font.char_width,
        height: font.char_height,
    }
}

/// A cell of the cache, and whether it was just taken, so that the glyph
/// still has to be drawn into it.
#[derive(Clone, Copy, Debug, PartialEq, Eq)]
pub struct CachedGlyph {
    pub region: TextureRegion,
    pub fresh: bool,
}

/// Font cache atlas.
pub struct FontCache<const N: usize> {
    atlas: TextureAtlas<N>,
    font: FontMetrics,
    index: GlyphIndex,
}

impl<const N: usize> FontCache<N> {
    /// The characters in the cache, each with its cell.
    pub closed spec fn cached(&self) -> Map<char, usize> {
        glyph_index_contents(self.index)
    }

    /// The atlas the cells come from.
    pub closed spec fn spec_atlas(&self) -> TextureAtlas<N> {
        self.atlas
    }

    /// The font.
    pub closed spec fn spec_font(&self) -> FontMetrics {
        self.font
    }

    /// The cache's invariant: each cached character has a cell of its own,
    /// which the atlas counts as used.
    pub open spec fn wf(&self) -> bool {
        &&& self.spec_atlas().wf()
        &&& self.spec_atlas().spec_capacity() <= u32::MAX
        &&& forall|c: char| #[trigger] self.cached().contains_key(c) ==> {
            &&& self.cached()[c] < N
            &&& self.spec_atlas().used()[self.cached()[c] as int]
        }
        &&& forall|c: char, d: char|
            #![trigger self.cached()[c], self.cached()[d]]
            self.cached().contains_key(c) && self.cached().contains_key(d) && c != d
                ==> self.cached()[c] != self.cached()[d]
    }

    /// What `glyph(c)` returns: the cell `c` already has, or else the first
    /// free cell, fresh.
    pub open spec fn spec_glyph(&self, c: char) -> CachedGlyph {
        if self.cached().contains_key(c) {
            CachedGlyph { region: self.spec_atlas().spec_region_for_index(self.cached()[c]), fresh: false }
        } else {
            CachedGlyph {
                region: self.spec_atlas().spec_region_for_index(first_unused(self.spec_atlas().used()) as usize),
                fresh: true,
            }
        }
    }

    /// `glyph(c)` can be served: `c` is cached, or a cell is free.
    pub open spec fn can_serve(&self, c: char) -> bool {
        self.cached().contains_key(c) || first_unused(self.spec_atlas().used()) < N
    }

    /// An empty cache over `atlas` for `font`.
    pub fn new(atlas: TextureAtlas<N>, font: FontMetrics) -> (r: Self)
        requires
            atlas.wf(),
            atlas.spec_capacity() <= u32::MAX,
        ensures
            r.wf(),
            r.spec_atlas() == atlas,
            r.spec_font() == font,
            r.cached() == Map::<char, usize>::empty(),
    {
        FontCache { atlas, font, index: glyph_index_new() }
    }

    /// Whether `glyph(c)` can be served.
    pub fn has_room_for(&self, c: char) -> (r: bool)
        requires
            self.wf(),
        ensures
            r == self.can_serve(c),
    {
        if glyph_index_get(&self.index, c).is_some() {
            return true;
        }
        self.atlas.has_free_cell()
    }

    /// The cell of `c`: the one it already has, or else the first free cell,
    /// which from then on is `c`'s (the glyph is to be drawn into it).
    pub fn glyph(&mut self, c: char) -> (r: CachedGlyph)
        requires
            old(self).wf(),
            old(self).can_serve(c),
        ensures
            final(self).wf(),
            final(self).spec_font() == old(self).spec_font(),
            r == old(self).spec_glyph(c),
            final(self).spec_glyph(c) == (CachedGlyph { region: r.region, fresh: false }),
            final(self).cached().contains_key(c),
            final(self).cached()[c] == r.region.index,
            forall|d: char| #[trigger] old(self).cached().contains_key(d)
                ==> final(self).cached().contains_key(d) && final(self).cached()[d] == old(self).cached()[d],
            r.region == old(self).spec_atlas().spec_region_for_index(r.region.index),
            if old(self).cached().contains_key(c) {
                &&& !r.fresh
                &&& r.region.index == old(self).cached()[c]
                &&& final(self).cached() == old(self).cached()
                &&& final(self).spec_atlas() == old(self).spec_atlas()
            } else {
                &&& r.fresh
                &&& r.region.index == first_unused(old(self).spec_atlas().used())
                &&& final(self).cached() == old(self).cached().insert(c, r.region.index)
                &&& final(self).spec_atlas().used() == old(self).spec_atlas().used().update(r.region.index as int, true)
            },
    {
        match glyph_index_get(&self.index, c) {
            Some(cell) => {
                proof {
                    self.atlas.lemma_wf_cells();
                    self.atlas.lemma_cell_fits(cell);
                }
                CachedGlyph { region: self.atlas.region_for_index(cell), fresh: false }
            },
            None => {
                proof {
                    self.atlas.lemma_wf_cells();
                    lemma_first_unused_props(self.atlas.used());
                }
                let ghost old_used = self.atlas.used();
                let ghost old_cached = self.cached();
                let region = self.atlas.allocate().unwrap();
                glyph_index_insert(&mut self.index, c, region.index);
                proof {
                    let i = region.index;
                    assert(i == first_unused(old_used));
                    assert(!old_used[i as int]);
                    assert(self.spec_atlas().used() == old_used.update(i as int, true));
                    self.atlas.lemma_wf_cells();
                    assert forall|d: char| #[trigger] self.cached().contains_key(d) implies {
                        &&& self.cached()[d] < N
                        &&& self.spec_atlas().used()[self.cached()[d] as int]
                    } by {
                        if d != c {
                            assert(old_cached.contains_key(d));
                        }
                    }
                    assert forall|d: char, e: char|
                        #![trigger self.cached()[d], self.cached()[e]]
                        self.cached().contains_key(d) && self.cached().contains_key(e) && d != e
                            implies self.cached()[d] != self.cached()[e] by {
                        if d != c && e != c {
                            assert(old_cached.contains_key(d) && old_cached.contains_key(e));
                            assert(old_cached[d] != old_cached[e]);
                        } else if d == c {
                            assert(old_cached.contains_key(e));
                            assert(old_used[old_cached[e] as int]);
                        } else {
                            assert(old_cached.contains_key(d));
                            assert(old_used[old_cached[d] as int]);
                        }
                    }
                }
                CachedGlyph { region, fresh: true }
            },
        }
    }

    /// Where glyph `glyph_index` lies in the font image.
    pub fn font_glyph(font: &FontMetrics, glyph_index: u32) -> (r: GlyphRect)
        requires
            font.char_width > 0,
            glyphs_per_row(*font) > 0,
            (glyph_index as int % glyphs_per_row(*font)) * font.char_width <= u32::MAX,
            (glyph_index as int / glyphs_per_row(*font)) * font.char_height <= u32::MAX,
        ensures
            r == spec_font_glyph(*font, glyph_index),
    {
        let glyphs_per_row = font.image_width / font.char_width;
        let row = glyph_index / glyphs_per_row;
        proof {
            vstd::arithmetic::div_mod::lemma_fundamental_div_mod(glyph_index as int, glyphs_per_row as int);
            vstd::arithmetic::mul::lemma_mul_is_commutative(row as int, glyphs_per_row as int);
        }
        let char_x = (glyph_index - row * glyphs_per_row) * font.char_width;
        let char_y = row * font.char_height;
        GlyphRect { x: char_x, y: char_y, width: font.char_width, height: font.char_height }
    }
}

} // verus!
