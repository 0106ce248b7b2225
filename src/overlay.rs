//! The overlay's font registry and font stack.
use std::collections::HashMap;

use vstd::prelude::*;

use crate::font::Font;
use crate::frame::Frame;
use crate::primitives::PrimitiveType;
use crate::TextureId;

verus! {

broadcast use vstd::std_specs::hash::group_hash_axioms;

/// Why a text primitive could not be given a font.
#[derive(Clone, Copy, Debug, PartialEq, Eq, Structural)]
pub enum FontError {
    /// The text names no font and the font stack is empty.
    NoFontOnStack,
    /// The font id (named by the text, or on top of the stack) is not
    /// registered.
    UnknownFont(usize),
}

/// Fonts registered by caller-chosen id, and the stack whose top is the
/// font used by text that names none.
pub struct Overlay {
    pub fonts: HashMap<usize, Font>,
    font_stack: Vec<usize>,
}

/// The font that text naming `font` is drawn with, given the registry and
/// the font stack.
pub open spec fn resolved_font(
    fonts: Map<usize, Font>,
    stack: Seq<usize>,
    font: Option<usize>,
) -> Result<Font, FontError> {
    match font {
        Some(id) => if fonts.contains_key(id) {
            Ok(fonts[id])
        } else {
            Err(FontError::UnknownFont(id))
        },
        None => if stack.len() == 0 {
            Err(FontError::NoFontOnStack)
        } else if fonts.contains_key(stack.last()) {
            Ok(fonts[stack.last()])
        } else {
            Err(FontError::UnknownFont(stack.last()))
        },
    }
}

/// The texture a primitive of kind `kind` is batched under: the atlas of
/// its resolved font for text, its own optional texture for a rectangle, and
/// none for the flat shapes.
pub open spec fn batch_texture(
    fonts: Map<usize, Font>,
    stack: Seq<usize>,
    kind: PrimitiveType,
    texture: Option<TextureId>,
    font: Option<usize>,
) -> Result<Option<TextureId>, FontError> {
    match kind {
        PrimitiveType::Text => match resolved_font(fonts, stack, font) {
            Ok(f) => Ok(Some(f.atlas.texture)),
            Err(e) => Err(e),
        },
        PrimitiveType::Rectangle => Ok(texture),
        _ => Ok(None),
    }
}

impl Overlay {
    pub closed spec fn stack(&self) -> Seq<usize> {
        self.font_stack@
    }

    pub closed spec fn registry(&self) -> Map<usize, Font> {
        self.fonts@
    }

    /// An overlay with no fonts and an empty font stack.
    pub fn new() -> (r: Overlay)
        ensures
            r.registry() == Map::<usize, Font>::empty(),
            r.stack() == Seq::<usize>::empty(),
    {
        Overlay { fonts: HashMap::new(), font_stack: Vec::new() }
    }

    /// An overlay whose only font is `font`, registered as id 0 and current.
    pub fn with_default_font(font: Font) -> (r: Overlay)
        ensures
            r.registry() == Map::<usize, Font>::empty().insert(0, font),
            r.stack() == seq![0usize],
    {
        let mut fonts = HashMap::new();
        fonts.insert(0, font);
        let mut font_stack = Vec::new();
        font_stack.push(0);
        proof {
            assert(font_stack@ =~= seq![0usize]);
        }
        Overlay { fonts, font_stack }
    }

    /// Registers `font` under `id`, replacing any font registered there.
    pub fn add_font(&mut self, id: usize, font: Font)
        ensures
            final(self).registry() == old(self).registry().insert(id, font),
            final(self).stack() == old(self).stack(),
    {
        self.fonts.insert(id, font);
    }

    pub fn new_frame<V>(&self) -> (r: Frame<V>)
        ensures
            r.runs().len() == 0,
            r.wf(),
    {
        Frame::new()
    }

    /// Makes `font` the current font.
    pub fn push_font(&mut self, font: usize)
        ensures
            final(self).stack() == old(self).stack().push(font),
            final(self).registry() == old(self).registry(),
    {
        self.font_stack.push(font);
    }

    /// Removes the current font id from the stack and returns it, or returns
    /// `None` when the stack is empty.
    pub fn pop_font(&mut self) -> (r: Option<usize>)
        ensures
            old(self).stack().len() == 0 ==> r is None && final(self).stack() == old(self).stack(),
            old(self).stack().len() > 0 ==> r == Some(old(self).stack().last())
                && final(self).stack() == old(self).stack().drop_last(),
            final(self).registry() == old(self).registry(),
    {
        self.font_stack.pop()
    }

    /// The font on top of the stack, if the stack is not empty and that id
    /// is registered.
    pub fn current_font(&self) -> (r: Option<&Font>)
        ensures
            match r {
                Some(f) => self.stack().len() > 0 && self.registry().contains_key(self.stack().last())
                    && *f == self.registry()[self.stack().last()],
                None => self.stack().len() == 0 || !self.registry().contains_key(self.stack().last()),
            },
    {
        let len = self.font_stack.len();
        if len == 0 {
            return None;
        }
        let id = self.font_stack[len - 1];
        self.fonts.get(&id)
    }

    /// The font for text that names `font`, or the current font when it
    /// names none.
    pub fn resolve_font(&self, font: Option<usize>) -> (r: Result<&Font, FontError>)
        ensures
            match r {
                Ok(f) => resolved_font(self.registry(), self.stack(), font) == Ok::<Font, FontError>(*f),
                Err(e) => resolved_font(self.registry(), self.stack(), font) == Err::<Font, FontError>(e),
            },
    {
        match font {
            Some(id) => match self.fonts.get(&id) {
                Some(f) => Ok(f),
                None => Err(FontError::UnknownFont(id)),
            },
            None => {
                let len = self.font_stack.len();
                if len == 0 {
                    return Err(FontError::NoFontOnStack);
                }
                let id = self.font_stack[len - 1];
                match self.fonts.get(&id) {
                    Some(f) => Ok(f),
                    None => Err(FontError::UnknownFont(id)),
                }
            },
        }
    }

    /// The texture under which a primitive is batched. `texture` is a
    /// rectangle's own texture and `font` the font a text names; each is
    /// ignored by the other kinds.
    pub fn texture_for(&self, kind: PrimitiveType, texture: Option<TextureId>, font: Option<usize>) -> (r:
        Result<Option<TextureId>, FontError>)
        ensures
            r == batch_texture(self.registry(), self.stack(), kind, texture, font),
    {
        match kind {
            PrimitiveType::Text => match self.resolve_font(font) {
                Ok(f) => Ok(Some(f.get_texture())),
                Err(e) => Err(e),
            },
            PrimitiveType::Rectangle => Ok(texture),
            _ => Ok(None),
        }
    }
}

} // verus!
