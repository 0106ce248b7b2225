//! Fonts: a packed glyph atlas bound to its texture, and lookup by character.
use vstd::prelude::*;

use crate::atlas::{AtlasImage, Glyph};
use crate::{TextureId, GLYPH_COUNT};

verus! {

/// The entry for `c` in a glyph table: absent for codes past the supported
/// range and for glyphs that failed to rasterize.
pub open spec fn lookup_glyph(table: Seq<Option<Glyph>>, c: char) -> Option<Glyph> {
    if (c as int) < GLYPH_COUNT && (c as int) < table.len() {
        table[c as int]
    } else {
        None
    }
}

/// A glyph atlas after upload: the texture holding it, its size in pixels,
/// the nominal size it was rasterized at (in 1/64 pixel), and the glyph table
/// indexed by character code.
pub struct FontAtlas {
    pub texture: TextureId,
    pub texture_dimensions: (u32, u32),
    pub font_size: u32,
    pub glyphs: Vec<Option<Glyph>>,
}

impl FontAtlas {
    /// Binds a packed atlas to the texture its pixels were uploaded to.
    pub fn new(texture: TextureId, image: AtlasImage, font_size: u32) -> (r: FontAtlas)
        ensures
            r.texture == texture,
            r.texture_dimensions == (image.width, image.height),
            r.font_size == font_size,
            r.glyphs@ == image.glyphs@,
    {
        FontAtlas {
            texture,
            texture_dimensions: (image.width, image.height),
            font_size,
            glyphs: image.glyphs,
        }
    }

    pub fn get_glyph(&self, c: char) -> (r: Option<&Glyph>)
        ensures
            match r {
                Some(g) => lookup_glyph(self.glyphs@, c) == Some(*g),
                None => lookup_glyph(self.glyphs@, c) is None,
            },
    {
        let code = c as u32;
        if code >= GLYPH_COUNT as u32 {
            return None;
        }
        let index = code as usize;
        if index >= self.glyphs.len() {
            return None;
        }
        self.glyphs[index].as_ref()
    }
}

/// A font ready for text layout: its atlas.
pub struct Font {
    pub atlas: FontAtlas,
}

impl Font {
    pub fn new(atlas: FontAtlas) -> (r: Font)
        ensures
            r.atlas == atlas,
    {
        Font { atlas }
    }

    pub fn get_glyph(&self, c: char) -> (r: Option<&Glyph>)
        ensures
            match r {
                Some(g) => lookup_glyph(self.atlas.glyphs@, c) == Some(*g),
                None => lookup_glyph(self.atlas.glyphs@, c) is None,
            },
    {
        self.atlas.get_glyph(c)
    }

    pub fn get_texture(&self) -> (r: TextureId)
        ensures
            r == self.atlas.texture,
    {
        self.atlas.texture
    }
}

} // verus!
