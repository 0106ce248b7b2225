//! Font atlas construction: packing rasterized glyphs side by side into one
//! strip, recording where each glyph landed, and producing RGBA pixels.
use vstd::prelude::*;

use crate::GLYPH_COUNT;

verus! {

/// A rasterized glyph as the rasterizer hands it over: an 8-bit coverage
/// bitmap of `rows` rows of `width` pixels, row `y` starting at byte
/// `y * pitch` of `buffer`, plus the pen metrics (advances in 1/64 pixel,
/// bearings in pixels).
#[derive(Clone, Debug)]
pub struct GlyphBitmap {
    pub width: u32,
    pub rows: u32,
    pub pitch: u32,
    pub left: i32,
    pub top: i32,
    pub advance_x: i32,
    pub advance_y: i32,
    pub buffer: Vec<u8>,
}

impl GlyphBitmap {
    /// Every row lies inside `buffer`, and rows do not overlap.
    pub open spec fn wf(&self) -> bool {
        &&& self.width <= self.pitch
        &&& self.rows > 0 ==> (self.rows - 1) * self.pitch + self.width <= self.buffer@.len()
    }

    pub fn is_well_formed(&self) -> (r: bool)
        ensures
            r == self.wf(),
    {
        if self.width > self.pitch {
            return false;
        }
        if self.rows == 0 {
            return true;
        }
        let rows = self.rows as u64;
        let pitch = self.pitch as u64;
        assert((rows - 1) * pitch <= 0xffff_ffff * 0xffff_ffff) by (nonlinear_arith)
            requires
                rows <= 0xffff_ffff,
                pitch <= 0xffff_ffff,
                rows >= 1,
        ;
        let last_row = (rows - 1) * pitch;
        last_row + self.width as u64 <= self.buffer.len() as u64
    }
}

/// What the atlas records of one glyph: its metrics and the pixel column at
/// which its bitmap starts inside the atlas strip.
#[derive(Clone, Copy, Debug, PartialEq, Eq, Structural)]
pub struct Glyph {
    pub advance_x: i32,
    pub advance_y: i32,
    pub bitmap_width: u32,
    pub bitmap_height: u32,
    pub bitmap_left: i32,
    pub bitmap_top: i32,
    pub atlas_x: u32,
}

/// Why a font atlas could not be built.
#[derive(Clone, Copy, Debug, PartialEq, Eq, Structural)]
pub enum AtlasError {
    /// The rasterization engine could not be started.
    EngineInit,
    /// The font bytes could not be read as a font face.
    InvalidFont,
    /// The packed strip is wider than a texture dimension can express, or
    /// its RGBA pixels would not fit in memory.
    Oversized,
}

/// A packed atlas before upload: RGBA pixels, `width` by `height`, and the
/// glyph table indexed by character code.
pub struct AtlasImage {
    pub width: u32,
    pub height: u32,
    pub pixels: Vec<u8>,
    pub glyphs: Vec<Option<Glyph>>,
}

/// Horizontal room a slot takes in the strip: the bitmap plus one pixel of
/// padding, or nothing for a glyph that failed to rasterize.
pub open spec fn slot_width(b: Option<GlyphBitmap>) -> nat {
    match b {
        Some(g) => (g.width + 1) as nat,
        None => 0,
    }
}

pub open spec fn slot_height(b: Option<GlyphBitmap>) -> nat {
    match b {
        Some(g) => g.rows as nat,
        None => 0,
    }
}

/// Width of the strip holding the slots of `s`, in order.
pub open spec fn strip_width(s: Seq<Option<GlyphBitmap>>) -> nat
    decreases s.len(),
{
    if s.len() == 0 {
        0
    } else {
        strip_width(s.drop_last()) + slot_width(s.last())
    }
}

/// Height of the strip: the tallest bitmap of `s`.
pub open spec fn strip_height(s: Seq<Option<GlyphBitmap>>) -> nat
    decreases s.len(),
{
    if s.len() == 0 {
        0
    } else {
        let h = strip_height(s.drop_last());
        let t = slot_height(s.last());
        if h >= t {
            h
        } else {
            t
        }
    }
}

/// Column at which slot `i` of `s` starts.
pub open spec fn slot_offset(s: Seq<Option<GlyphBitmap>>, i: int) -> nat {
    strip_width(s.take(i))
}

/// The table entry for a glyph whose bitmap starts at column `x`.
pub open spec fn glyph_entry(g: GlyphBitmap, x: nat) -> Glyph {
    Glyph {
        advance_x: g.advance_x,
        advance_y: g.advance_y,
        bitmap_width: g.width,
        bitmap_height: g.rows,
        bitmap_left: g.left,
        bitmap_top: g.top,
        atlas_x: x as u32,
    }
}

/// The glyph table of a strip: one entry per slot, absent where the glyph is.
pub open spec fn glyph_table(s: Seq<Option<GlyphBitmap>>) -> Seq<Option<Glyph>> {
    Seq::new(
        s.len(),
        |i: int|
            match s[i] {
                Some(g) => Some(glyph_entry(g, slot_offset(s, i))),
                None => None,
            },
    )
}

proof fn lemma_strip_width_prefix(s: Seq<Option<GlyphBitmap>>, i: int, j: int)
    requires
        0 <= i <= j <= s.len(),
    ensures
        strip_width(s.take(i)) <= strip_width(s.take(j)),
    decreases j - i,
{
    if i < j {
        lemma_strip_width_prefix(s, i, j - 1);
        assert(s.take(j).drop_last() == s.take(j - 1));
    }
}

proof fn lemma_strip_width_bound(s: Seq<Option<GlyphBitmap>>)
    ensures
        strip_width(s) <= s.len() * 0x1_0000_0000,
    decreases s.len(),
{
    if s.len() > 0 {
        lemma_strip_width_bound(s.drop_last());
    }
}

proof fn lemma_strip_height_bound(s: Seq<Option<GlyphBitmap>>, i: int)
    requires
        0 <= i < s.len(),
    ensures
        slot_height(s[i]) <= strip_height(s),
        strip_height(s) <= u32::MAX,
    decreases s.len(),
{
    if i < s.len() - 1 {
        lemma_strip_height_bound(s.drop_last(), i);
        assert(s.drop_last()[i] == s[i]);
    } else if s.len() > 1 {
        lemma_strip_height_bound(s.drop_last(), 0);
    }
}

/// Slots are laid out left to right in code order, and a glyph that is
/// present starts strictly inside the strip, so its horizontal texture
/// coordinate `atlas_x / width` lies in `[0, 1)`.
pub proof fn lemma_slot_offsets_ordered(s: Seq<Option<GlyphBitmap>>, i: int, j: int)
    requires
        0 <= i <= j < s.len(),
    ensures
        slot_offset(s, i) <= slot_offset(s, j),
        s[j] is Some ==> slot_offset(s, j) + slot_width(s[j]) <= strip_width(s),
        s[j] is Some ==> slot_offset(s, j) < strip_width(s),
{
    lemma_strip_width_prefix(s, i, j);
    lemma_strip_width_prefix(s, j + 1, s.len() as int);
    assert(s.take(j + 1).drop_last() == s.take(j));
    assert(s.take(s.len() as int) == s);
}

proof fn lemma_strip_height_attained(s: Seq<Option<GlyphBitmap>>)
    ensures
        strip_height(s) == 0 || exists|i: int|
            0 <= i < s.len() && #[trigger] s[i] is Some && slot_height(s[i]) == strip_height(s),
    decreases s.len(),
{
    if s.len() > 0 {
        lemma_strip_height_attained(s.drop_last());
        if strip_height(s) != strip_height(s.drop_last()) {
            assert(s[s.len() - 1] == s.last());
        } else if strip_height(s) != 0 {
            let i = choose|i: int|
                0 <= i < s.drop_last().len() && #[trigger] s.drop_last()[i] is Some && slot_height(
                    s.drop_last()[i],
                ) == strip_height(s.drop_last());
            assert(s[i] == s.drop_last()[i]);
        }
    }
}

/// Packing laws of a strip that fits a texture: its width is the sum of the
/// padded widths (`strip_width`), its height is the tallest present bitmap,
/// and in the glyph table the atlas columns never decrease with the
/// character code and each lies inside the strip, so that each normalized
/// offset `atlas_x / width` lies in `[0, 1)`.
pub proof fn lemma_atlas_packing(s: Seq<Option<GlyphBitmap>>)
    requires
        atlas_fits(strip_width(s), strip_height(s)),
    ensures
        forall|i: int| 0 <= i < s.len() && s[i] is Some ==> slot_height(#[trigger] s[i]) <= strip_height(s),
        strip_height(s) == 0 || exists|i: int|
            0 <= i < s.len() && #[trigger] s[i] is Some && slot_height(s[i]) == strip_height(s),
        forall|i: int, j: int|
            0 <= i <= j < s.len() && s[i] is Some && s[j] is Some ==> (#[trigger] glyph_table(s)[i])->0.atlas_x
                <= (#[trigger] glyph_table(s)[j])->0.atlas_x,
        forall|i: int|
            0 <= i < s.len() && s[i] is Some ==> (#[trigger] glyph_table(s)[i])->0.atlas_x < strip_width(s),
{
    lemma_strip_height_attained(s);
    assert forall|i: int| 0 <= i < s.len() && s[i] is Some implies slot_height(#[trigger] s[i])
        <= strip_height(s) by {
        lemma_strip_height_bound(s, i);
    }
    assert forall|i: int, j: int|
        0 <= i <= j < s.len() && s[i] is Some && s[j] is Some implies (#[trigger] glyph_table(s)[i])->0.atlas_x
            <= (#[trigger] glyph_table(s)[j])->0.atlas_x by {
        lemma_slot_offsets_ordered(s, i, j);
        lemma_slot_offsets_ordered(s, j, j);
    }
    assert forall|i: int| 0 <= i < s.len() && s[i] is Some implies (#[trigger] glyph_table(
        s,
    )[i])->0.atlas_x < strip_width(s) by {
        lemma_slot_offsets_ordered(s, i, i);
    }
}

/// Width and height of the strip that holds the given slots.
pub fn atlas_layout(bitmaps: &Vec<Option<GlyphBitmap>>) -> (r: (u64, u32))
    requires
        bitmaps@.len() <= GLYPH_COUNT,
    ensures
        r.0 == strip_width(bitmaps@),
        r.1 == strip_height(bitmaps@),
{
    let mut w: u64 = 0;
    let mut h: u32 = 0;
    let mut i: usize = 0;
    while i < bitmaps.len()
        invariant
            i <= bitmaps@.len() <= GLYPH_COUNT,
            w == strip_width(bitmaps@.take(i as int)),
            h == strip_height(bitmaps@.take(i as int)),
        decreases bitmaps@.len() - i,
    {
        proof {
            let t = bitmaps@.take(i as int + 1);
            assert(t.drop_last() == bitmaps@.take(i as int));
            assert(t.last() == bitmaps@[i as int]);
            lemma_strip_width_bound(t);
        }
        match &bitmaps[i] {
            Some(g) => {
                w = w + g.width as u64 + 1;
                if g.rows > h {
                    h = g.rows;
                }
            },
            None => {},
        }
        i = i + 1;
    }
    assert(bitmaps@.take(i as int) == bitmaps@);
    (w, h)
}

/// The coverage byte at column `x`, row `y` of the strip holding the slots
/// of `s`: the bitmap pixel of the slot whose columns hold `x`, and zero in
/// padding columns, below a shorter bitmap, and past the strip.
pub open spec fn strip_pixel(s: Seq<Option<GlyphBitmap>>, x: int, y: int) -> u8
    decreases s.len(),
{
    if s.len() == 0 {
        0
    } else {
        let o = strip_width(s.drop_last()) as int;
        if s.last() is Some && o <= x < o + s.last()->0.width {
            let g = s.last()->0;
            if 0 <= y < g.rows {
                g.buffer@[y * g.pitch + (x - o)]
            } else {
                0
            }
        } else {
            strip_pixel(s.drop_last(), x, y)
        }
    }
}

/// Byte `x` of row `y` in a row-major image whose rows are `width` long.
pub open spec fn pixel(v: Seq<u8>, width: nat, x: int, y: int) -> u8 {
    v[y * width + x]
}

/// The atlas as RGBA bytes: each coverage byte of the strip repeated in all
/// four channels, rows of `strip_width(s)` pixels, top row first.
pub open spec fn atlas_rgba(s: Seq<Option<GlyphBitmap>>) -> Seq<u8> {
    let w = strip_width(s);
    Seq::new(
        4 * w * strip_height(s),
        |j: int| strip_pixel(s, (j / 4) % (w as int), (j / 4) / (w as int)),
    )
}

/// Each coverage byte repeated in the four channels of one RGBA pixel.
pub open spec fn gray_to_rgba(g: Seq<u8>) -> Seq<u8> {
    Seq::new(4 * g.len(), |j: int| g[j / 4])
}

proof fn lemma_strip_pixel_past_end(s: Seq<Option<GlyphBitmap>>, x: int, y: int)
    requires
        x >= strip_width(s),
    ensures
        strip_pixel(s, x, y) == 0,
    decreases s.len(),
{
    if s.len() > 0 {
        lemma_strip_pixel_past_end(s.drop_last(), x, y);
    }
}

proof fn lemma_row_major_bound(w: int, h: int, x: int, y: int)
    requires
        0 <= x < w,
        0 <= y < h,
    ensures
        0 <= y * w + x < w * h,
{
    assert(0 <= y * w + x < w * h) by (nonlinear_arith)
        requires
            0 <= x < w,
            0 <= y < h,
    ;
}

proof fn lemma_row_major(w: int, x1: int, y1: int, x2: int, y2: int)
    requires
        0 <= x1 < w,
        0 <= x2 < w,
        0 <= y1,
        0 <= y2,
        y1 != y2 || x1 != x2,
    ensures
        y1 * w + x1 != y2 * w + x2,
{
    if y1 < y2 {
        assert(y1 * w + w <= y2 * w) by (nonlinear_arith)
            requires
                y1 < y2,
                w >= 0,
        ;
    } else if y1 > y2 {
        assert(y2 * w + w <= y1 * w) by (nonlinear_arith)
            requires
                y2 < y1,
                w >= 0,
        ;
    }
}

/// Whether a strip of `w` by `h` pixels can be held as an RGBA texture.
pub open spec fn atlas_fits(w: nat, h: nat) -> bool {
    w <= u32::MAX && 4 * w * h <= usize::MAX
}

/// Copies `len` bytes of `src` from `from` on over `dst` from `at` on.
fn copy_row(dst: &mut Vec<u8>, at: usize, src: &Vec<u8>, from: usize, len: usize)
    requires
        at + len <= old(dst)@.len(),
        from + len <= src@.len(),
    ensures
        final(dst)@.len() == old(dst)@.len(),
        forall|j: int|
            0 <= j < old(dst)@.len() ==> #[trigger] final(dst)@[j] == if at <= j < at + len {
                src@[from + j - at]
            } else {
                old(dst)@[j]
            },
{
    let n = dst.len();
    let m = src.len();
    let mut k: usize = 0;
    while k < len
        invariant
            k <= len,
            n == dst@.len(),
            m == src@.len(),
            at + len <= n,
            from + len <= m,
            dst@.len() == old(dst)@.len(),
            forall|j: int|
                0 <= j < old(dst)@.len() ==> #[trigger] dst@[j] == if at <= j < at + k {
                    src@[from + j - at]
                } else {
                    old(dst)@[j]
                },
        decreases len - k,
    {
        dst.set(at + k, src[from + k]);
        k = k + 1;
    }
}

/// Writes the bitmap of `g` into the coverage image `gray` (rows of `width`
/// bytes, `height` rows) with its left edge at column `x`.
fn blit_glyph(gray: &mut Vec<u8>, width: usize, height: usize, x: usize, g: &GlyphBitmap)
    requires
        g.wf(),
        x + g.width <= width,
        g.rows <= height,
        old(gray)@.len() == width * height,
    ensures
        final(gray)@.len() == width * height,
        forall|px: int, py: int|
            0 <= px < width && 0 <= py < height ==> #[trigger] pixel(final(gray)@, width as nat, px, py)
                == if x <= px < x + g.width && py < g.rows {
                g.buffer@[py * g.pitch + (px - x)]
            } else {
                pixel(old(gray)@, width as nat, px, py)
            },
{
    let n = gray.len();
    let blen = g.buffer.len();
    let mut r: usize = 0;
    let mut row_start: usize = 0;
    let mut src_start: u64 = 0;
    while r < g.rows as usize
        invariant
            g.wf(),
            x + g.width <= width,
            g.rows <= height,
            r <= g.rows,
            row_start == r * width,
            n == width * height,
            blen == g.buffer@.len(),
            src_start == r * g.pitch,
            src_start <= g.rows * g.pitch,
            gray@.len() == width * height,
            forall|px: int, py: int|
                0 <= px < width && 0 <= py < height ==> #[trigger] pixel(gray@, width as nat, px, py)
                    == if x <= px < x + g.width && py < r {
                    g.buffer@[py * g.pitch + (px - x)]
                } else {
                    pixel(old(gray)@, width as nat, px, py)
                },
        decreases g.rows - r,
    {
        proof {
            assert(r * width + width <= width * height) by (nonlinear_arith)
                requires
                    r < height,
            ;
            assert(r * g.pitch + g.width <= (g.rows - 1) * g.pitch + g.width) by (nonlinear_arith)
                requires
                    r <= g.rows - 1,
            ;
        }
        let ghost before = gray@;
        assert(src_start + g.width <= blen);
        copy_row(gray, row_start + x, &g.buffer, src_start as usize, g.width as usize);
        proof {
            assert forall|px: int, py: int|
                0 <= px < width && 0 <= py < height implies #[trigger] pixel(gray@, width as nat, px, py)
                    == if x <= px < x + g.width && py < r + 1 {
                    g.buffer@[py * g.pitch + (px - x)]
                } else {
                    pixel(old(gray)@, width as nat, px, py)
                } by {
                let j = py * width + px;
                lemma_row_major_bound(width as int, height as int, px, py);
                assert(pixel(before, width as nat, px, py) == before[j]);
                if py == r && x <= px < x + g.width {
                    assert(row_start + x <= j < row_start + x + g.width);
                    assert(gray@[j] == g.buffer@[src_start + j - (row_start + x)]);
                    assert(src_start + j - (row_start + x) == py * g.pitch + (px - x));
                } else {
                    if py != r {
                        assert(!(row_start + x <= j < row_start + x + g.width)) by {
                            if row_start + x <= j < row_start + x + g.width {
                                let c = j - row_start;
                                lemma_row_major(width as int, px, py, c, r as int);
                            }
                        }
                    }
                    assert(gray@[j] == before[j]);
                    assert(pixel(gray@, width as nat, px, py) == pixel(before, width as nat, px, py));
                }
            }
        }
        proof {
            assert((r + 1) * width == r * width + width) by (nonlinear_arith);
        }
        r = r + 1;
        row_start = row_start + width;
        proof {
            assert(r * g.pitch <= g.rows * g.pitch) by (nonlinear_arith)
                requires
                    r <= g.rows,
            ;
            assert(r * g.pitch == (r - 1) * g.pitch + g.pitch) by (nonlinear_arith);
            assert(g.rows * g.pitch <= 0xffff_ffff * 0xffff_ffff) by (nonlinear_arith)
                requires
                    g.rows <= 0xffff_ffff,
                    g.pitch <= 0xffff_ffff,
            ;
        }
        src_start = src_start + g.pitch as u64;
    }
}

/// Repeats each coverage byte in the four channels of an RGBA pixel.
fn expand_to_rgba(gray: &Vec<u8>) -> (r: Vec<u8>)
    requires
        4 * gray@.len() <= usize::MAX,
    ensures
        r@ == gray_to_rgba(gray@),
{
    let mut out: Vec<u8> = Vec::new();
    let mut i: usize = 0;
    while i < gray.len()
        invariant
            i <= gray@.len(),
            4 * gray@.len() <= usize::MAX,
            out@.len() == 4 * i,
            forall|j: int| 0 <= j < 4 * i ==> #[trigger] out@[j] == gray@[j / 4],
        decreases gray@.len() - i,
    {
        let v = gray[i];
        out.push(v);
        out.push(v);
        out.push(v);
        out.push(v);
        i = i + 1;
    }
    assert(out@ =~= gray_to_rgba(gray@));
    out
}

/// Packs the glyph bitmaps of character codes `0..GLYPH_COUNT` into one
/// strip: slot `i` starts where slot `i - 1` ends, each present bitmap
/// followed by one column of padding, the strip as tall as the tallest
/// bitmap. A missing bitmap takes no room and leaves its table entry absent.
pub fn pack_atlas(bitmaps: &Vec<Option<GlyphBitmap>>) -> (r: Result<AtlasImage, AtlasError>)
    requires
        bitmaps@.len() == GLYPH_COUNT,
        forall|i: int| 0 <= i < bitmaps@.len() && #[trigger] bitmaps@[i] is Some ==> bitmaps@[i]->0.wf(),
    ensures
        r is Ok <==> atlas_fits(strip_width(bitmaps@), strip_height(bitmaps@)),
        r is Err ==> r->Err_0 == AtlasError::Oversized,
        r is Ok ==> {
            let img = r->Ok_0;
            &&& img.width == strip_width(bitmaps@)
            &&& img.height == strip_height(bitmaps@)
            &&& img.glyphs@ == glyph_table(bitmaps@)
            &&& img.pixels@ == atlas_rgba(bitmaps@)
        },
{
    let (w64, h32) = atlas_layout(bitmaps);
    if w64 > u32::MAX as u64 {
        return Err(AtlasError::Oversized);
    }
    assert(4 * (w64 as u128) * (h32 as u128) <= 4 * 0xffff_ffff * 0xffff_ffff) by (nonlinear_arith)
        requires
            w64 <= 0xffff_ffff,
            h32 <= 0xffff_ffff,
    ;
    if 4 * (w64 as u128) * (h32 as u128) > usize::MAX as u128 {
        return Err(AtlasError::Oversized);
    }
    let ghost s = bitmaps@;
    let width = w64 as usize;
    let height = h32 as usize;
    proof {
        assert(width * height <= 4 * width * height) by (nonlinear_arith);
    }
    let size = width * height;
    let mut gray: Vec<u8> = Vec::new();
    let mut k: usize = 0;
    while k < size
        invariant
            k <= size,
            gray@.len() == k,
            forall|j: int| 0 <= j < k ==> #[trigger] gray@[j] == 0,
        decreases size - k,
    {
        gray.push(0);
        k = k + 1;
    }
    proof {
        assert forall|px: int, py: int|
            0 <= px < width && 0 <= py < height implies #[trigger] pixel(gray@, width as nat, px, py)
                == strip_pixel(s.take(0), px, py) by {
            lemma_row_major_bound(width as int, height as int, px, py);
        }
    }
    let mut glyphs: Vec<Option<Glyph>> = Vec::new();
    let mut x: u64 = 0;
    let mut i: usize = 0;
    while i < bitmaps.len()
        invariant
            s == bitmaps@,
            s.len() == GLYPH_COUNT,
            forall|i: int| 0 <= i < s.len() && #[trigger] s[i] is Some ==> s[i]->0.wf(),
            width == strip_width(s),
            height == strip_height(s),
            width * height == size,
            4 * width * height <= usize::MAX,
            width <= u32::MAX,
            i <= s.len(),
            x == strip_width(s.take(i as int)),
            gray@.len() == size,
            glyphs@.len() == i,
            forall|k: int| 0 <= k < i ==> #[trigger] glyphs@[k] == glyph_table(s)[k],
            forall|px: int, py: int|
                0 <= px < width && 0 <= py < height ==> #[trigger] pixel(gray@, width as nat, px, py)
                    == strip_pixel(s.take(i as int), px, py),
        decreases s.len() - i,
    {
        let ghost t = s.take(i as int + 1);
        proof {
            assert(t.drop_last() == s.take(i as int));
            assert(t.last() == s[i as int]);
            lemma_strip_width_prefix(s, i as int + 1, s.len() as int);
            assert(s.take(s.len() as int) == s);
        }
        match &bitmaps[i] {
            Some(g) => {
                proof {
                    lemma_strip_height_bound(s, i as int);
                }
                let ghost before = gray@;
                blit_glyph(&mut gray, width, height, x as usize, g);
                proof {
                    assert forall|px: int, py: int|
                        0 <= px < width && 0 <= py < height implies #[trigger] pixel(gray@, width as nat, px, py)
                            == strip_pixel(t, px, py) by {
                        if x <= px {
                            lemma_strip_pixel_past_end(s.take(i as int), px, py);
                        }
                        assert(pixel(before, width as nat, px, py) == strip_pixel(s.take(i as int), px, py));
                    }
                }
                glyphs.push(
                    Some(
                        Glyph {
                            advance_x: g.advance_x,
                            advance_y: g.advance_y,
                            bitmap_width: g.width,
                            bitmap_height: g.rows,
                            bitmap_left: g.left,
                            bitmap_top: g.top,
                            atlas_x: x as u32,
                        },
                    ),
                );
                x = x + g.width as u64 + 1;
            },
            None => {
                glyphs.push(None);
            },
        }
        i = i + 1;
    }
    assert(s.take(s.len() as int) == s);
    assert(glyphs@ =~= glyph_table(s));
    assert(4 * (width * height) == 4 * width * height) by (nonlinear_arith);
    let pixels = expand_to_rgba(&gray);
    proof {
        assert forall|j: int| 0 <= j < pixels@.len() implies #[trigger] pixels@[j] == atlas_rgba(s)[j] by {
            let q = j / 4;
            let px = q % (width as int);
            let py = q / (width as int);
            vstd::arithmetic::div_mod::lemma_fundamental_div_mod(q, width as int);
            assert(q == py * width + px) by (nonlinear_arith)
                requires
                    q == width * (q / (width as int)) + q % (width as int),
                    py == q / (width as int),
                    px == q % (width as int),
            ;
            assert(0 <= q < width * height) by (nonlinear_arith)
                requires
                    0 <= j < 4 * (width * height),
                    q == j / 4,
            ;
            assert(py < height) by (nonlinear_arith)
                requires
                    0 <= q < width * height,
                    py == q / (width as int),
                    width > 0,
            ;
            assert(pixel(gray@, width as nat, px, py) == gray@[q]);
        }
        assert(pixels@ =~= atlas_rgba(s));
    }
    Ok(AtlasImage { width: width as u32, height: height as u32, pixels, glyphs })
}

} // verus!
