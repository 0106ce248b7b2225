use overlaylib::atlas::AtlasImage;
use overlaylib::font::{Font, FontAtlas};
use overlaylib::frame::Frame;
use overlaylib::overlay::{FontError, Overlay};
use overlaylib::primitives::PrimitiveType;
use overlaylib::GLYPH_COUNT;

fn font(texture: u32) -> Font {
    let image = AtlasImage { width: 0, height: 0, pixels: vec![], glyphs: vec![None; GLYPH_COUNT] };
    Font::new(FontAtlas::new(texture, image, 64))
}

#[test]
fn font_stack_top_is_current() {
    let mut o = Overlay::with_default_font(font(10));
    assert_eq!(o.current_font().unwrap().get_texture(), 10);
    o.add_font(3, font(30));
    o.push_font(3);
    assert_eq!(o.current_font().unwrap().get_texture(), 30);
    assert_eq!(o.pop_font(), Some(3));
    assert_eq!(o.current_font().unwrap().get_texture(), 10);
    assert_eq!(o.pop_font(), Some(0));
    assert!(o.current_font().is_none());
    assert_eq!(o.pop_font(), None);
}

#[test]
fn text_without_a_font_needs_one_on_the_stack() {
    let o = Overlay::new();
    assert!(matches!(o.resolve_font(None), Err(FontError::NoFontOnStack)));
    assert!(o.current_font().is_none());
}

#[test]
fn unknown_font_ids_are_reported() {
    let mut o = Overlay::with_default_font(font(10));
    assert!(matches!(o.resolve_font(Some(7)), Err(FontError::UnknownFont(7))));
    o.push_font(8);
    assert!(matches!(o.resolve_font(None), Err(FontError::UnknownFont(8))));
    assert!(o.current_font().is_none());
    assert_eq!(o.resolve_font(Some(0)).ok().unwrap().get_texture(), 10);
}

#[test]
fn explicit_font_wins_over_the_stack() {
    let mut o = Overlay::with_default_font(font(10));
    o.add_font(2, font(20));
    assert_eq!(o.resolve_font(Some(2)).ok().unwrap().get_texture(), 20);
    assert_eq!(o.resolve_font(None).ok().unwrap().get_texture(), 10);
    o.add_font(2, font(25));
    assert_eq!(o.resolve_font(Some(2)).ok().unwrap().get_texture(), 25);
}

#[test]
fn new_frame_is_empty() {
    let o = Overlay::new();
    let f: Frame<u8> = o.new_frame();
    assert!(f.buffers.is_empty());
}

#[test]
fn texture_per_primitive_kind() {
    let mut o = Overlay::with_default_font(font(10));
    o.add_font(4, font(40));
    assert_eq!(o.texture_for(PrimitiveType::Text, None, None), Ok(Some(10)));
    assert_eq!(o.texture_for(PrimitiveType::Text, Some(99), Some(4)), Ok(Some(40)));
    assert_eq!(o.texture_for(PrimitiveType::Text, None, Some(5)), Err(FontError::UnknownFont(5)));
    assert_eq!(o.texture_for(PrimitiveType::Rectangle, Some(7), Some(4)), Ok(Some(7)));
    assert_eq!(o.texture_for(PrimitiveType::Rectangle, None, None), Ok(None));
    assert_eq!(o.texture_for(PrimitiveType::Line, Some(7), Some(4)), Ok(None));
    assert_eq!(o.texture_for(PrimitiveType::Circle, None, None), Ok(None));
    assert_eq!(o.texture_for(PrimitiveType::Triangle, None, None), Ok(None));
    let empty = Overlay::new();
    assert_eq!(empty.texture_for(PrimitiveType::Text, None, None), Err(FontError::NoFontOnStack));
    assert_eq!(empty.texture_for(PrimitiveType::Rectangle, Some(3), None), Ok(Some(3)));
}
