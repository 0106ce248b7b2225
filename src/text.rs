//! Text layout: placing the glyph quads of a string along the pen path, in
//! the atlas's own units (1/64 pixel at the atlas's nominal size).
use vstd::prelude::*;

use crate::atlas::Glyph;
use crate::font::{lookup_glyph, Font};

verus! {

/// One glyph placed on the pen path: its bitmap's top-left corner (`x`,
/// `y`, in 1/64 pixel, y growing downwards, relative to where the pen
/// started), its bitmap size in pixels, and the atlas column it starts at.
#[derive(Clone, Copy, Debug, PartialEq, Eq, Structural)]
pub struct GlyphQuad {
    pub x: i128,
    pub y: i128,
    pub width: u32,
    pub height: u32,
    pub atlas_x: u32,
}

/// Where the pen stands after the characters of `s`: each glyph found in
/// the table advances it; a character without a glyph does not move it.
pub open spec fn pen_after(table: Seq<Option<Glyph>>, s: Seq<char>) -> (int, int)
    decreases s.len(),
{
    if s.len() == 0 {
        (0, 0)
    } else {
        let p = pen_after(table, s.drop_last());
        match lookup_glyph(table, s.last()) {
            Some(g) => (p.0 + g.advance_x, p.1 + g.advance_y),
            None => p,
        }
    }
}

/// The quad of glyph `g` drawn with the pen at `pen`: shifted right by the
/// left bearing and up by the top bearing.
pub open spec fn quad_at(g: Glyph, pen: (int, int)) -> GlyphQuad {
    GlyphQuad {
        x: (pen.0 + 64 * g.bitmap_left) as i128,
        y: (pen.1 - 64 * g.bitmap_top) as i128,
        width: g.bitmap_width,
        height: g.bitmap_height,
        atlas_x: g.atlas_x,
    }
}

/// The quads of `s`, in order: one per character whose glyph is in the
/// table and has pixels. Glyphs without pixels (a space) only move the pen.
pub open spec fn text_quads(table: Seq<Option<Glyph>>, s: Seq<char>) -> Seq<GlyphQuad>
    decreases s.len(),
{
    if s.len() == 0 {
        Seq::empty()
    } else {
        let prev = text_quads(table, s.drop_last());
        match lookup_glyph(table, s.last()) {
            Some(g) => if g.bitmap_width > 0 && g.bitmap_height > 0 {
                prev.push(quad_at(g, pen_after(table, s.drop_last())))
            } else {
                prev
            },
            None => prev,
        }
    }
}

proof fn lemma_pen_bound(table: Seq<Option<Glyph>>, s: Seq<char>)
    ensures
        -(s.len() * 0x8000_0000) <= pen_after(table, s).0 <= s.len() * 0x8000_0000,
        -(s.len() * 0x8000_0000) <= pen_after(table, s).1 <= s.len() * 0x8000_0000,
    decreases s.len(),
{
    if s.len() > 0 {
        lemma_pen_bound(table, s.drop_last());
    }
}

/// A character that the font has no glyph for (a code past the supported
/// range, or one that failed to rasterize) is skipped: the pen path and the
/// quads of the rest of the string are exactly those of the string without
/// it.
pub proof fn lemma_missing_glyph_skipped(
    table: Seq<Option<Glyph>>,
    before: Seq<char>,
    c: char,
    after: Seq<char>,
)
    requires
        lookup_glyph(table, c) is None,
    ensures
        pen_after(table, before.push(c) + after) == pen_after(table, before + after),
        text_quads(table, before.push(c) + after) == text_quads(table, before + after),
    decreases after.len(),
{
    let with = before.push(c) + after;
    let without = before + after;
    if after.len() == 0 {
        assert(with == before.push(c));
        assert(without == before);
        assert(with.drop_last() == before);
    } else {
        lemma_missing_glyph_skipped(table, before, c, after.drop_last());
        assert(with.drop_last() == before.push(c) + after.drop_last());
        assert(without.drop_last() == before + after.drop_last());
        assert(with.last() == without.last());
    }
}

/// A character outside the supported code range has no glyph.
pub proof fn lemma_out_of_range_missing(table: Seq<Option<Glyph>>, c: char)
    requires
        c as int >= crate::GLYPH_COUNT,
    ensures
        lookup_glyph(table, c) is None,
{
}

/// The tight box around a run of quads, in the units of the quads.
#[derive(Clone, Copy, Debug, PartialEq, Eq, Structural)]
pub struct TextBounds {
    pub min_x: i128,
    pub min_y: i128,
    pub max_x: i128,
    pub max_y: i128,
}

/// The box around the quads of `q` (a quad covers `64 * width` by
/// `64 * height` from its corner), or `None` when there are none.
pub open spec fn quads_bounds(q: Seq<GlyphQuad>) -> Option<TextBounds>
    decreases q.len(),
{
    if q.len() == 0 {
        None
    } else {
        let l = q.last();
        let x1 = l.x + 64 * l.width;
        let y1 = l.y + 64 * l.height;
        match quads_bounds(q.drop_last()) {
            None => Some(TextBounds { min_x: l.x, min_y: l.y, max_x: x1 as i128, max_y: y1 as i128 }),
            Some(b) => Some(
                TextBounds {
                    min_x: if l.x < b.min_x { l.x } else { b.min_x },
                    min_y: if l.y < b.min_y { l.y } else { b.min_y },
                    max_x: if x1 > b.max_x { x1 as i128 } else { b.max_x },
                    max_y: if y1 > b.max_y { y1 as i128 } else { b.max_y },
                },
            ),
        }
    }
}

/// Every quad corner lies in `[-2^125, 2^125)`, so boxes can be computed.
pub open spec fn quads_in_range(q: Seq<GlyphQuad>) -> bool {
    forall|i: int|
        0 <= i < q.len() ==> -0x2000_0000_0000_0000_0000_0000_0000_0000 <= #[trigger] q[i].x
            < 0x2000_0000_0000_0000_0000_0000_0000_0000 && -0x2000_0000_0000_0000_0000_0000_0000_0000
            <= q[i].y < 0x2000_0000_0000_0000_0000_0000_0000_0000
}

proof fn lemma_bounds_in_range(q: Seq<GlyphQuad>)
    requires
        quads_in_range(q),
    ensures
        quads_bounds(q) matches Some(b) ==> -0x2000_0000_0000_0000_0000_0000_0000_0000 <= b.min_x
            && -0x2000_0000_0000_0000_0000_0000_0000_0000 <= b.min_y && b.max_x
            < 0x2000_0000_0000_0000_0000_0000_0000_0000 + 0x40_0000_0000 && b.max_y
            < 0x2000_0000_0000_0000_0000_0000_0000_0000 + 0x40_0000_0000,
    decreases q.len(),
{
    if q.len() > 0 {
        assert(quads_in_range(q.drop_last())) by {
            assert forall|i: int| 0 <= i < q.drop_last().len() implies #[trigger] q.drop_last()[i] == q[i] by {}
        }
        lemma_bounds_in_range(q.drop_last());
        assert(q.last() == q[q.len() - 1]);
    }
}

/// The box around the given quads, or `None` when there are none.
pub fn text_bounds(quads: &Vec<GlyphQuad>) -> (r: Option<TextBounds>)
    requires
        quads_in_range(quads@),
    ensures
        r == quads_bounds(quads@),
{
    let mut b: Option<TextBounds> = None;
    let mut i: usize = 0;
    while i < quads.len()
        invariant
            i <= quads@.len(),
            quads_in_range(quads@),
            b == quads_bounds(quads@.take(i as int)),
        decreases quads@.len() - i,
    {
        let ghost t = quads@.take(i as int + 1);
        proof {
            assert(t.drop_last() == quads@.take(i as int));
            assert(quads_in_range(t.drop_last())) by {
                assert forall|j: int| 0 <= j < t.drop_last().len() implies #[trigger] t.drop_last()[j]
                    == quads@[j] by {}
            }
            lemma_bounds_in_range(t.drop_last());
        }
        let q = quads[i];
        let x1 = q.x + 64 * q.width as i128;
        let y1 = q.y + 64 * q.height as i128;
        b = match b {
            None => Some(TextBounds { min_x: q.x, min_y: q.y, max_x: x1, max_y: y1 }),
            Some(p) => Some(
                TextBounds {
                    min_x: if q.x < p.min_x { q.x } else { p.min_x },
                    min_y: if q.y < p.min_y { q.y } else { p.min_y },
                    max_x: if x1 > p.max_x { x1 } else { p.max_x },
                    max_y: if y1 > p.max_y { y1 } else { p.max_y },
                },
            ),
        };
        i = i + 1;
    }
    proof {
        assert(quads@.take(quads@.len() as int) == quads@);
    }
    b
}

proof fn lemma_quads_bound(table: Seq<Option<Glyph>>, s: Seq<char>)
    ensures
        forall|i: int|
            0 <= i < text_quads(table, s).len() ==> -(s.len() * 0x8000_0000 + 0x40_0000_0000) <= (
            #[trigger] text_quads(table, s)[i]).x <= s.len() * 0x8000_0000 + 0x40_0000_0000 && -(
            s.len() * 0x8000_0000 + 0x40_0000_0000) <= text_quads(table, s)[i].y <= s.len()
                * 0x8000_0000 + 0x40_0000_0000,
    decreases s.len(),
{
    if s.len() > 0 {
        lemma_quads_bound(table, s.drop_last());
        lemma_pen_bound(table, s.drop_last());
        let prev = text_quads(table, s.drop_last());
        assert forall|i: int| 0 <= i < prev.len() implies text_quads(table, s)[i] == prev[i] by {}
    }
}

/// Width and height of the box around the quads of `text`, in 1/64 pixel
/// at the atlas's nominal size; zero when no character has pixels.
pub fn calc_text_size(text: &str, font: &Font) -> (r: (i128, i128))
    ensures
        r == match quads_bounds(text_quads(font.atlas.glyphs@, text@)) {
            Some(b) => ((b.max_x - b.min_x) as i128, (b.max_y - b.min_y) as i128),
            None => (0i128, 0i128),
        },
{
    let chars = chars_of(text);
    let n = chars.len();
    let quads = layout_text(font, text);
    proof {
        lemma_quads_bound(font.atlas.glyphs@, text@);
        assert(n * 0x8000_0000 + 0x40_0000_0000 < 0x2000_0000_0000_0000_0000_0000_0000_0000)
            by (nonlinear_arith)
            requires
                n <= 0xffff_ffff_ffff_ffff,
        ;
        lemma_bounds_in_range(quads@);
    }
    match text_bounds(&quads) {
        Some(b) => (b.max_x - b.min_x, b.max_y - b.min_y),
        None => (0, 0),
    }
}

/// The characters of `text`, in order.
fn chars_of(text: &str) -> (r: Vec<char>)
    ensures
        r@ == text@,
{
    let mut out: Vec<char> = Vec::new();
    for c in it: text.chars()
        invariant
            it.seq() == text@,
            out@ == text@.take(it.index() as int),
    {
        proof {
            assert(text@.take(it.index() as int + 1) == out@.push(c));
        }
        out.push(c);
    }
    proof {
        assert(text@.take(text@.len() as int) == text@);
    }
    out
}

/// Lays out `text` with `font`, characters left to right, skipping those
/// the font has no glyph for.
pub fn layout_text(font: &Font, text: &str) -> (r: Vec<GlyphQuad>)
    ensures
        r@ == text_quads(font.atlas.glyphs@, text@),
{
    let ghost table = font.atlas.glyphs@;
    let chars = chars_of(text);
    let n = chars.len();
    let mut quads: Vec<GlyphQuad> = Vec::new();
    let mut pen_x: i128 = 0;
    let mut pen_y: i128 = 0;
    let mut i: usize = 0;
    while i < n
        invariant
            table == font.atlas.glyphs@,
            chars@ == text@,
            n == chars@.len(),
            i <= n,
            (pen_x as int, pen_y as int) == pen_after(table, text@.take(i as int)),
            quads@ == text_quads(table, text@.take(i as int)),
        decreases n - i,
    {
        let c = chars[i];
        proof {
            let t = text@.take(i + 1);
            assert(t.drop_last() == text@.take(i as int));
            assert(t.last() == c);
            lemma_pen_bound(table, text@.take(i as int));
            assert(i * 0x8000_0000 <= 0xffff_ffff_ffff_ffff * 0x8000_0000) by (nonlinear_arith)
                requires
                    i <= 0xffff_ffff_ffff_ffff,
            ;
        }
        match font.get_glyph(c) {
            Some(g) => {
                if g.bitmap_width > 0 && g.bitmap_height > 0 {
                    quads.push(
                        GlyphQuad {
                            x: pen_x + 64 * g.bitmap_left as i128,
                            y: pen_y - 64 * g.bitmap_top as i128,
                            width: g.bitmap_width,
                            height: g.bitmap_height,
                            atlas_x: g.atlas_x,
                        },
                    );
                }
                pen_x = pen_x + g.advance_x as i128;
                pen_y = pen_y + g.advance_y as i128;
            },
            None => {},
        }
        i = i + 1;
    }
    proof {
        assert(text@.take(n as int) == text@);
    }
    quads
}

} // verus!
