use overlaylib::atlas::{AtlasImage, Glyph};
use overlaylib::font::{Font, FontAtlas};
use overlaylib::text::{calc_text_size, layout_text, text_bounds, GlyphQuad, TextBounds};
use overlaylib::GLYPH_COUNT;

fn glyph(advance_x: i32, w: u32, h: u32, left: i32, top: i32, atlas_x: u32) -> Glyph {
    Glyph {
        advance_x,
        advance_y: 0,
        bitmap_width: w,
        bitmap_height: h,
        bitmap_left: left,
        bitmap_top: top,
        atlas_x,
    }
}

fn font() -> Font {
    let mut glyphs: Vec<Option<Glyph>> = vec![None; GLYPH_COUNT];
    glyphs['a' as usize] = Some(glyph(640, 5, 6, 1, 6, 0));
    glyphs['b' as usize] = Some(glyph(704, 6, 8, 0, 8, 6));
    glyphs[' ' as usize] = Some(glyph(320, 0, 0, 0, 0, 13));
    let image = AtlasImage { width: 14, height: 8, pixels: vec![], glyphs };
    Font::new(FontAtlas::new(1, image, 12 * 64))
}

fn quad(x: i128, y: i128, width: u32, height: u32, atlas_x: u32) -> GlyphQuad {
    GlyphQuad { x, y, width, height, atlas_x }
}

#[test]
fn glyphs_follow_the_pen() {
    let q = layout_text(&font(), "ab");
    assert_eq!(q, vec![quad(64, -384, 5, 6, 0), quad(640, -512, 6, 8, 6)]);
}

#[test]
fn blank_glyph_moves_the_pen_without_a_quad() {
    let q = layout_text(&font(), "a b");
    assert_eq!(q, vec![quad(64, -384, 5, 6, 0), quad(960, -512, 6, 8, 6)]);
}

#[test]
fn missing_glyphs_are_skipped_without_moving_later_glyphs() {
    let f = font();
    let plain = layout_text(&f, "ab");
    assert_eq!(layout_text(&f, "a\u{e9}b"), plain);
    assert_eq!(layout_text(&f, "\u{2603}a\u{80}b\u{7f}"), plain);
    assert_eq!(layout_text(&f, "zzz"), vec![]);
}

#[test]
fn text_size_is_the_box_around_the_quads() {
    let f = font();
    assert_eq!(calc_text_size("ab", &f), (960, 512));
    assert_eq!(calc_text_size("a", &f), (320, 384));
    assert_eq!(calc_text_size("", &f), (0, 0));
    assert_eq!(calc_text_size("   ", &f), (0, 0));
}

#[test]
fn bounds_of_quads() {
    let q = vec![quad(64, -384, 5, 6, 0), quad(640, -512, 6, 8, 6)];
    assert_eq!(
        text_bounds(&q),
        Some(TextBounds { min_x: 64, min_y: -512, max_x: 1024, max_y: 0 })
    );
    assert_eq!(text_bounds(&vec![]), None);
}
