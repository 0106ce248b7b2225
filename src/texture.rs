//! Decoding texture images into RGBA rows, optionally flipped upside down.
use vstd::prelude::*;

verus! {

#[verifier::external_type_specification]
#[verifier::external_body]
pub struct ExTextureCreationError(glium::texture::TextureCreationError);

/// Why a texture could not be loaded.
#[derive(Debug)]
pub enum TextureError {
    /// The bytes are not an image in a format that can be decoded.
    InvalidImage,
    /// The graphics backend refused to create the texture.
    TextureCreationError(glium::texture::TextureCreationError),
}

/// A decoded image: `height` rows of `width` RGBA pixels, top row first.
pub struct TextureImage {
    pub width: u32,
    pub height: u32,
    pub pixels: Vec<u8>,
}

/// What decoding `data` as an image file, in the built-in format its
/// signature names, gives: its width, height and RGBA bytes (at least four
/// per pixel, row by row), or nothing when the bytes are not a decodable image.
pub uninterp spec fn decoded_rgba(data: Seq<u8>) -> Option<(u32, u32, Seq<u8>)>;

/// Relies on `image::guess_format`, which recognises a format by the
/// built-in file signatures alone, and on `image::load_from_memory_with_format`,
/// which decodes with that built-in format's decoder (no registered hook is
/// consulted, so the result depends on the bytes alone); then on
/// `DynamicImage::to_rgba8` to convert to 8-bit RGBA. An `ImageBuffer` holds at
/// least `4 * width * height` bytes.
#[verifier::external_body]
fn decode_rgba(data: &[u8]) -> (r: Option<(u32, u32, Vec<u8>)>)
    ensures
        match r {
            Some((w, h, p)) => decoded_rgba(data@) == Some((w, h, p@)) && p@.len() >= 4 * w * h,
            None => decoded_rgba(data@) is None,
        },
{
    let format = match image::guess_format(data) {
        Ok(format) => format,
        Err(_) => return None,
    };
    match image::load_from_memory_with_format(data, format) {
        Ok(img) => {
            let rgba = img.to_rgba8();
            let (w, h) = rgba.dimensions();
            Some((w, h, rgba.into_raw()))
        },
        Err(_) => None,
    }
}

/// `pixels`, `rows` rows of `row_len` bytes, with the rows in reverse order.
pub open spec fn flipped_rows(pixels: Seq<u8>, row_len: int, rows: int) -> Seq<u8> {
    Seq::new((row_len * rows) as nat, |j: int| pixels[(rows - 1 - j / row_len) * row_len + j % row_len])
}

/// Copies `pixels`, `rows` rows of `row_len` bytes, bottom row first.
fn flip_rows(pixels: &Vec<u8>, row_len: usize, rows: usize) -> (r: Vec<u8>)
    requires
        pixels@.len() == row_len * rows,
    ensures
        r@ == flipped_rows(pixels@, row_len as int, rows as int),
{
    let n = pixels.len();
    let mut out: Vec<u8> = Vec::new();
    let mut y: usize = 0;
    while y < rows
        invariant
            n == pixels@.len(),
            pixels@.len() == row_len * rows,
            y <= rows,
            out@.len() == y * row_len,
            forall|j: int|
                0 <= j < out@.len() ==> #[trigger] out@[j] == pixels@[(rows - 1 - j / (row_len as int))
                    * row_len + j % (row_len as int)],
        decreases rows - y,
    {
        let src_row = rows - 1 - y;
        proof {
            assert(src_row * row_len + row_len <= row_len * rows) by (nonlinear_arith)
                requires
                    src_row < rows,
            ;
        }
        let start = src_row * row_len;
        let mut c: usize = 0;
        while c < row_len
            invariant
                n == pixels@.len(),
                pixels@.len() == row_len * rows,
                y < rows,
                src_row == rows - 1 - y,
                start == src_row * row_len,
                start + row_len <= pixels@.len(),
                c <= row_len,
                out@.len() == y * row_len + c,
                forall|j: int|
                    0 <= j < out@.len() ==> #[trigger] out@[j] == pixels@[(rows - 1 - j / (
                    row_len as int)) * row_len + j % (row_len as int)],
            decreases row_len - c,
        {
            proof {
                let j = y * row_len + c;
                vstd::arithmetic::div_mod::lemma_fundamental_div_mod_converse(
                    j,
                    row_len as int,
                    y as int,
                    c as int,
                );
            }
            out.push(pixels[start + c]);
            c = c + 1;
        }
        proof {
            assert((y + 1) * row_len == y * row_len + row_len) by (nonlinear_arith);
        }
        y = y + 1;
    }
    proof {
        assert(rows * row_len == row_len * rows) by (nonlinear_arith);
        assert(out@ =~= flipped_rows(pixels@, row_len as int, rows as int));
    }
    out
}

impl TextureImage {
    /// Holds exactly `height` rows of `width` RGBA pixels.
    pub open spec fn wf(&self) -> bool {
        self.pixels@.len() == 4 * self.width * self.height
    }

    /// An image from decoded RGBA bytes: the first `4 * width * height`
    /// bytes, or `None` when there are fewer.
    pub fn from_rgba(width: u32, height: u32, pixels: Vec<u8>) -> (r: Option<TextureImage>)
        ensures
            r is Some <==> pixels@.len() >= 4 * width * height,
            r matches Some(img) ==> img.wf() && img.width == width && img.height == height
                && img.pixels@ == pixels@.take(4 * width * height),
    {
        let n = pixels.len();
        assert(4 * (width as u128) * (height as u128) <= 4 * 0xffff_ffff * 0xffff_ffff) by (nonlinear_arith)
            requires
                width <= 0xffff_ffff,
                height <= 0xffff_ffff,
        ;
        let needed = 4 * (width as u128) * (height as u128);
        if needed > n as u128 {
            return None;
        }
        let mut pixels = pixels;
        pixels.truncate(needed as usize);
        Some(TextureImage { width, height, pixels })
    }

    /// The same image upside down: the bottom row first.
    pub fn flipped(&self) -> (r: TextureImage)
        requires
            self.wf(),
        ensures
            r.wf(),
            r.width == self.width,
            r.height == self.height,
            r.pixels@ == flipped_rows(self.pixels@, 4 * self.width, self.height as int),
    {
        if self.height == 0 {
            assert(4 * self.width * self.height == 0) by (nonlinear_arith)
                requires
                    self.height == 0,
            ;
            let pixels: Vec<u8> = Vec::new();
            assert(pixels@ =~= flipped_rows(self.pixels@, 4 * self.width, 0));
            return TextureImage { width: self.width, height: 0, pixels };
        }
        let n = self.pixels.len();
        assert(4 * (self.width as int) <= 4 * self.width * self.height) by (nonlinear_arith)
            requires
                self.height >= 1,
        ;
        let row_len = (4 * (self.width as u64)) as usize;
        assert(row_len * (self.height as usize) == 4 * self.width * self.height) by (nonlinear_arith)
            requires
                row_len == 4 * self.width,
        ;
        let pixels = flip_rows(&self.pixels, row_len, self.height as usize);
        TextureImage { width: self.width, height: self.height, pixels }
    }

    /// Decodes an image file held in memory.
    pub fn load_from_memory(data: &[u8]) -> (r: Result<TextureImage, TextureError>)
        ensures
            match decoded_rgba(data@) {
                None => r matches Err(TextureError::InvalidImage),
                Some((w, h, p)) => r matches Ok(img) && img.wf() && img.width == w && img.height == h
                    && img.pixels@ == p.take(4 * w * h),
            },
    {
        match decode_rgba(data) {
            None => Err(TextureError::InvalidImage),
            Some((w, h, p)) => match TextureImage::from_rgba(w, h, p) {
                Some(img) => Ok(img),
                None => Err(TextureError::InvalidImage),
            },
        }
    }

    /// Decodes an image file held in memory and turns it upside down, for
    /// targets whose rows run bottom to top.
    pub fn load_from_memory_reversed(data: &[u8]) -> (r: Result<TextureImage, TextureError>)
        ensures
            match decoded_rgba(data@) {
                None => r matches Err(TextureError::InvalidImage),
                Some((w, h, p)) => r matches Ok(img) && img.wf() && img.width == w && img.height == h
                    && img.pixels@ == flipped_rows(p.take(4 * w * h), 4 * w, h as int),
            },
    {
        match TextureImage::load_from_memory(data) {
            Err(e) => Err(e),
            Ok(img) => Ok(img.flipped()),
        }
    }
}

} // verus!
