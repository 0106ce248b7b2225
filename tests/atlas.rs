use overlaylib::atlas::{atlas_layout, pack_atlas, AtlasError, Glyph, GlyphBitmap};
use overlaylib::font::{Font, FontAtlas};
use overlaylib::GLYPH_COUNT;

fn bitmap(width: u32, rows: u32, pitch: u32, buffer: Vec<u8>) -> GlyphBitmap {
    GlyphBitmap { width, rows, pitch, left: 1, top: 2, advance_x: 640, advance_y: 0, buffer }
}

fn slots() -> Vec<Option<GlyphBitmap>> {
    let mut v: Vec<Option<GlyphBitmap>> = (0..GLYPH_COUNT).map(|_| None).collect();
    v['A' as usize] = Some(bitmap(3, 2, 4, vec![1, 2, 3, 99, 4, 5, 6, 99]));
    v['B' as usize] = Some(bitmap(2, 3, 2, vec![7, 8, 9, 10, 11, 12]));
    v
}

#[test]
fn layout_width_is_sum_of_padded_widths_and_height_is_max() {
    let (w, h) = atlas_layout(&slots());
    assert_eq!(w, (3 + 1) + (2 + 1));
    assert_eq!(h, 3);
}

#[test]
fn layout_of_no_glyphs_is_empty() {
    let v: Vec<Option<GlyphBitmap>> = (0..GLYPH_COUNT).map(|_| None).collect();
    assert_eq!(atlas_layout(&v), (0, 0));
}

#[test]
fn pack_places_glyphs_side_by_side() {
    let img = pack_atlas(&slots()).ok().unwrap();
    assert_eq!((img.width, img.height), (7, 3));
    let gray: Vec<u8> = vec![
        1, 2, 3, 0, 7, 8, 0, //
        4, 5, 6, 0, 9, 10, 0, //
        0, 0, 0, 0, 11, 12, 0,
    ];
    let rgba: Vec<u8> = gray.iter().flat_map(|&g| [g, g, g, g]).collect();
    assert_eq!(img.pixels, rgba);
    assert_eq!(img.glyphs.len(), GLYPH_COUNT);
    assert_eq!(
        img.glyphs['A' as usize],
        Some(Glyph {
            advance_x: 640,
            advance_y: 0,
            bitmap_width: 3,
            bitmap_height: 2,
            bitmap_left: 1,
            bitmap_top: 2,
            atlas_x: 0
        })
    );
    assert_eq!(img.glyphs['B' as usize].unwrap().atlas_x, 4);
    assert_eq!(img.glyphs['C' as usize], None);
    assert_eq!(img.glyphs[0], None);
}

#[test]
fn atlas_offsets_are_ordered_and_inside_the_strip() {
    let mut v = slots();
    v[' ' as usize] = Some(bitmap(0, 0, 0, vec![]));
    v['z' as usize] = Some(bitmap(5, 1, 5, vec![9; 5]));
    let img = pack_atlas(&v).ok().unwrap();
    assert_eq!(img.width, 1 + 4 + 3 + 6);
    let offsets: Vec<u32> = img.glyphs.iter().flatten().map(|g| g.atlas_x).collect();
    assert_eq!(offsets, vec![0, 1, 5, 8]);
    for x in offsets {
        let u = x as f64 / img.width as f64;
        assert!((0.0..1.0).contains(&u));
    }
}

#[test]
fn too_wide_strip_is_refused() {
    let mut v: Vec<Option<GlyphBitmap>> = (0..GLYPH_COUNT).map(|_| None).collect();
    v[1] = Some(bitmap(u32::MAX, 0, u32::MAX, vec![]));
    v[2] = Some(bitmap(u32::MAX, 0, u32::MAX, vec![]));
    assert!(matches!(pack_atlas(&v), Err(AtlasError::Oversized)));
}

#[test]
fn strip_too_large_for_memory_is_refused() {
    let mut v: Vec<Option<GlyphBitmap>> = (0..GLYPH_COUNT).map(|_| None).collect();
    v[1] = Some(bitmap(0, u32::MAX, 0, vec![]));
    v[2] = Some(bitmap(1 << 31, 0, 1 << 31, vec![]));
    assert!(matches!(pack_atlas(&v), Err(AtlasError::Oversized)));
}

#[test]
fn bitmap_well_formedness() {
    assert!(bitmap(3, 2, 4, vec![0; 7]).is_well_formed());
    assert!(!bitmap(3, 2, 4, vec![0; 6]).is_well_formed());
    assert!(!bitmap(5, 1, 4, vec![0; 8]).is_well_formed());
    assert!(bitmap(0, 0, 0, vec![]).is_well_formed());
}

#[test]
fn glyph_lookup_misses_outside_the_range_and_for_failed_glyphs() {
    let img = pack_atlas(&slots()).ok().unwrap();
    let font = Font::new(FontAtlas::new(42, img, 24 * 64));
    assert_eq!(font.get_texture(), 42);
    assert_eq!(font.atlas.texture_dimensions, (7, 3));
    assert_eq!(font.atlas.font_size, 24 * 64);
    assert_eq!(font.get_glyph('A').unwrap().bitmap_width, 3);
    assert!(font.get_glyph('C').is_none());
    assert!(font.get_glyph('\u{80}').is_none());
    assert!(font.get_glyph('\u{e9}').is_none());
    assert!(font.atlas.get_glyph('\u{1F600}').is_none());
}
