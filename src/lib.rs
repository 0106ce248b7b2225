use vstd::prelude::*;

pub mod atlas;
pub mod font;
pub mod frame;
pub mod overlay;
pub mod primitives;
pub mod text;
pub mod texture;

verus! {

/// Number of character codes, starting at zero, that a font atlas holds.
pub const GLYPH_COUNT: usize = 128;

/// Identity of a GPU texture (its object name). Two texture references are
/// the same texture exactly when their identities are equal.
pub type TextureId = u32;

} // verus!
