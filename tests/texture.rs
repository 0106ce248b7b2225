use std::io::Cursor;

use overlaylib::texture::{TextureError, TextureImage};

fn png(width: u32, height: u32, pixels: Vec<u8>) -> Vec<u8> {
    let img = image::RgbaImage::from_raw(width, height, pixels).unwrap();
    let mut bytes: Vec<u8> = Vec::new();
    img.write_to(&mut Cursor::new(&mut bytes), image::ImageFormat::Png).unwrap();
    bytes
}

fn pixels() -> Vec<u8> {
    (0..24u8).collect()
}

#[test]
fn decodes_rgba_rows_top_first() {
    let img = TextureImage::load_from_memory(&png(2, 3, pixels())).ok().unwrap();
    assert_eq!((img.width, img.height), (2, 3));
    assert_eq!(img.pixels, pixels());
}

#[test]
fn reversed_load_flips_the_rows() {
    let img = TextureImage::load_from_memory_reversed(&png(2, 3, pixels())).ok().unwrap();
    assert_eq!((img.width, img.height), (2, 3));
    let mut expected: Vec<u8> = Vec::new();
    for row in (0..3).rev() {
        expected.extend(pixels()[row * 8..row * 8 + 8].iter());
    }
    assert_eq!(img.pixels, expected);
}

#[test]
fn garbage_is_an_invalid_image() {
    assert!(matches!(
        TextureImage::load_from_memory(b"not an image"),
        Err(TextureError::InvalidImage)
    ));
    assert!(matches!(
        TextureImage::load_from_memory_reversed(&[]),
        Err(TextureError::InvalidImage)
    ));
}

#[test]
fn rgba_bytes_are_cut_to_the_image_size() {
    let img = TextureImage::from_rgba(1, 2, (0..10u8).collect()).unwrap();
    assert_eq!(img.pixels, (0..8u8).collect::<Vec<u8>>());
    assert!(TextureImage::from_rgba(2, 2, vec![0; 15]).is_none());
    assert_eq!(TextureImage::from_rgba(0, 5, vec![]).unwrap().pixels, Vec::<u8>::new());
}

#[test]
fn flipping_reverses_row_order() {
    let img = TextureImage::from_rgba(1, 3, (0..12u8).collect()).unwrap();
    let f = img.flipped();
    assert_eq!((f.width, f.height), (1, 3));
    assert_eq!(f.pixels, vec![8, 9, 10, 11, 4, 5, 6, 7, 0, 1, 2, 3]);
    assert_eq!(f.flipped().pixels, img.pixels);
    let empty = TextureImage::from_rgba(4, 0, vec![]).unwrap().flipped();
    assert!(empty.pixels.is_empty());
}
