use std::io::Cursor;

use vidascii::braille::{braille_dots, to_braille};
use vidascii::brightness::{compute_brightness, GrayScaleMode};
use vidascii::dithering::FloydSteinbergDithering;
use vidascii::img2braille::{braille_text, fits_in_memory, image_to_braille};
use vidascii::raster::{grid_dimensions, PixelBuffer, PixelLayout, Ratio};
use vidascii::sampler::{sample_brightness, UNSET};
use vidascii::text::{braille_cells, cell_dots, cell_to_braille, grid_to_text};
use vidascii::CoreError;

const ONE: Ratio = Ratio { num: 1, den: 1 };

fn buffer(width: u32, height: u32, pixel: impl Fn(u32, u32) -> [u8; 4]) -> PixelBuffer {
    let mut rgba = Vec::new();
    for y in 0..height {
        for x in 0..width {
            rgba.extend_from_slice(&pixel(x, y));
        }
    }
    PixelBuffer { width, height, layout: PixelLayout::Rgba8, rgba }
}

fn png_bytes(width: u32, height: u32, pixel: [u8; 4]) -> Vec<u8> {
    let img = image::DynamicImage::ImageRgba8(image::RgbaImage::from_pixel(
        width,
        height,
        image::Rgba(pixel),
    ));
    let mut bytes = Vec::new();
    img.write_to(&mut Cursor::new(&mut bytes), image::ImageOutputFormat::Png).unwrap();
    bytes
}

#[test]
fn empty_dot_list_is_blank_glyph() {
    assert_eq!(to_braille(&[]), Ok('\u{2800}'));
}

#[test]
fn all_dots_give_full_glyph() {
    assert_eq!(to_braille(&[0, 1, 2, 3, 4, 5, 6, 7]), Ok('\u{28FF}'));
    assert_eq!(to_braille(&[0, 3]), Ok('\u{2809}'));
}

#[test]
fn offset_above_seven_is_refused() {
    assert_eq!(to_braille(&[8]), Err(CoreError::FailedToConvertToBraille));
    assert_eq!(to_braille(&[0, 9]), Err(CoreError::FailedToConvertToBraille));
    assert_eq!(to_braille(&[1, 200]), Err(CoreError::FailedToConvertToBraille));
}

#[test]
fn repeated_offsets_over_255_are_refused() {
    assert_eq!(to_braille(&[7, 7]), Err(CoreError::FailedToConvertToBraille));
    assert_eq!(to_braille(&[0, 0]), Ok('\u{2802}'));
}

#[test]
fn every_dot_set_round_trips() {
    for mask in 0u32..256 {
        let dots: Vec<u8> = (0u8..8).filter(|k| mask >> k & 1 == 1).collect();
        let glyph = to_braille(&dots).unwrap();
        assert_eq!(glyph as u32, 0x2800 + mask);
        assert_eq!(braille_dots(glyph), Some(dots));
    }
    assert_eq!(braille_dots('a'), None);
    assert_eq!(braille_dots('\u{2900}'), None);
}

#[test]
fn grid_dimensions_use_ceiling_division() {
    assert_eq!(grid_dimensions(10, 10, ONE), (3, 5));
    assert_eq!(grid_dimensions(4, 8, ONE), (2, 2));
    assert_eq!(grid_dimensions(10, 10, Ratio { num: 3, den: 2 }), (2, 4));
    assert_eq!(grid_dimensions(3, 5, Ratio { num: 1, den: 2 }), (3, 3));
    assert_eq!(grid_dimensions(0, 0, ONE), (0, 0));
}

#[test]
fn brightness_modes() {
    assert_eq!(compute_brightness([10, 20, 31], GrayScaleMode::Average), 20);
    assert_eq!(compute_brightness([255, 0, 0], GrayScaleMode::Luminance), 54);
    assert_eq!(compute_brightness([0, 255, 0], GrayScaleMode::Luminance), 182);
    assert_eq!(compute_brightness([255, 255, 255], GrayScaleMode::Luminance), 255);
    assert_eq!(compute_brightness([255, 255, 255], GrayScaleMode::Average), 255);
}

#[test]
fn dithering_diffuses_error_to_the_right() {
    let mut img = buffer(2, 1, |_, _| [100, 100, 100, 255]);
    assert_eq!(FloydSteinbergDithering::apply_to(&mut img), Ok(()));
    assert_eq!(img.rgba, vec![0, 0, 0, 255, 255, 255, 255, 255]);
}

#[test]
fn dithering_diffuses_error_below() {
    let mut img = buffer(2, 2, |_, _| [200, 200, 200, 255]);
    FloydSteinbergDithering::apply_to(&mut img).unwrap();
    // (0,0): 200 -> 255, error -55; right gets 200 - 24 = 176, below 200 - 17 = 183,
    // below-right 200 - 3 = 196.
    // (1,0): 176 -> 255, error -79; below-left 183 - 14 = 168, below 196 - 24 = 171.
    // (0,1): 168 -> 255, error -87; right 171 - 38 = 132 -> 255.
    assert_eq!(img.rgba, vec![255, 255, 255, 255, 255, 255, 255, 255, 255, 255, 255, 255, 255, 255, 255, 255]);
    let mut dark = buffer(2, 2, |x, y| if x == 0 && y == 0 { [60, 60, 60, 255] } else { [120, 120, 120, 255] });
    FloydSteinbergDithering::apply_to(&mut dark).unwrap();
    // (0,0): 0, error 60; right 120 + 26 = 146, below 120 + 18 = 138, below-right 120 + 3 = 123.
    // (1,0): 146 -> 255, error -109; below-left 138 - 20 = 118, below 123 - 34 = 89.
    // (0,1): 118 -> 0, error 118; right 89 + 51 = 140 -> 255.
    assert_eq!(dark.rgba, vec![0, 0, 0, 255, 255, 255, 255, 255, 0, 0, 0, 255, 255, 255, 255, 255]);
}

#[test]
fn dithering_keeps_alpha() {
    let mut img = buffer(2, 1, |x, _| [200, 10, 90, if x == 0 { 7 } else { 200 }]);
    FloydSteinbergDithering::apply_to(&mut img).unwrap();
    assert_eq!(img.rgba[3], 7);
    assert_eq!(img.rgba[7], 200);
}

#[test]
fn dithering_is_deterministic() {
    let source = buffer(5, 3, |x, y| [(x * 50) as u8, (y * 80) as u8, ((x + y) * 30) as u8, 255]);
    let mut first = buffer(5, 3, |x, y| [(x * 50) as u8, (y * 80) as u8, ((x + y) * 30) as u8, 255]);
    let mut second = buffer(5, 3, |x, y| [(x * 50) as u8, (y * 80) as u8, ((x + y) * 30) as u8, 255]);
    FloydSteinbergDithering::apply_to(&mut first).unwrap();
    FloydSteinbergDithering::apply_to(&mut second).unwrap();
    assert_eq!(first.rgba, second.rgba);
    assert_ne!(first.rgba, source.rgba);
    assert!(first.rgba.chunks(4).all(|p| p[..3].iter().all(|&c| c == 0 || c == 255)));
}

#[test]
fn dithering_refuses_other_layouts() {
    let mut img = buffer(1, 1, |_, _| [1, 2, 3, 255]);
    img.layout = PixelLayout::Other;
    assert_eq!(FloydSteinbergDithering::apply_to(&mut img), Err(CoreError::DitheringFailed));
    assert_eq!(img.rgba, vec![1, 2, 3, 255]);
    let img = buffer(2, 4, |_, _| [255, 255, 255, 255]);
    let other = PixelBuffer { layout: PixelLayout::Other, ..img };
    assert_eq!(braille_text(other, ONE, true), Err(CoreError::DitheringFailed));
}

#[test]
fn white_block_gives_full_glyph() {
    let img = buffer(2, 4, |_, _| [255, 255, 255, 255]);
    assert_eq!(braille_text(img, ONE, false).unwrap(), "\u{28FF}");
}

#[test]
fn two_cell_checkerboard_gives_blank_then_full() {
    let img = buffer(4, 4, |x, _| if x < 2 { [0, 0, 0, 255] } else { [255, 255, 255, 255] });
    assert_eq!(braille_text(img, ONE, false).unwrap(), "\u{2800}\u{28FF}");
}

#[test]
fn four_by_eight_checkerboard_gives_two_lines() {
    let img = buffer(4, 8, |x, y| if (x / 2 + y / 4) % 2 == 0 { [0, 0, 0, 255] } else { [255, 255, 255, 255] });
    assert_eq!(braille_text(img, ONE, false).unwrap(), "\u{2800}\u{28FF}\n\u{28FF}\u{2800}");
}

#[test]
fn transparent_image_is_blank() {
    let img = buffer(4, 8, |_, _| [255, 255, 255, 127]);
    let grid = sample_brightness(&img, ONE, GrayScaleMode::Average);
    assert!(grid.slots.iter().all(|&s| s == UNSET));
    assert_eq!(braille_text(img, ONE, false).unwrap(), "\u{2800}\u{2800}\n\u{2800}\u{2800}");
    let img = buffer(4, 8, |x, _| [255, 255, (x * 60) as u8, 0]);
    assert_eq!(braille_text(img, ONE, true).unwrap(), "\u{2800}\u{2800}\n\u{2800}\u{2800}");
}

#[test]
fn dot_positions_follow_the_offset_table() {
    // Only the pixel at (1, 3), the right column's lowest dot, is white: offset 7.
    let img = buffer(2, 4, |x, y| if x == 1 && y == 3 { [255, 255, 255, 255] } else { [0, 0, 0, 255] });
    assert_eq!(braille_text(img, ONE, false).unwrap(), "\u{2880}");
    // (0, 3) is the left column's lowest dot: offset 6.
    let img = buffer(2, 4, |x, y| if x == 0 && y == 3 { [255, 255, 255, 255] } else { [0, 0, 0, 255] });
    assert_eq!(braille_text(img, ONE, false).unwrap(), "\u{2840}");
    // (1, 0): offset 3.
    let img = buffer(2, 4, |x, y| if x == 1 && y == 0 { [255, 255, 255, 255] } else { [0, 0, 0, 255] });
    assert_eq!(braille_text(img, ONE, false).unwrap(), "\u{2808}");
}

#[test]
fn downsampling_averages_pairwise() {
    // At ratio 3, three pixels of a row fall on one slot: 255, 255, 0 gives
    // (255 + 0) / 2 = 127, below the threshold, though the mean is 170.
    let img = buffer(3, 1, |x, _| if x < 2 { [255, 255, 255, 255] } else { [0, 0, 0, 255] });
    assert_eq!(braille_text(img, Ratio { num: 3, den: 1 }, false).unwrap(), "\u{2800}");
    let img = buffer(3, 1, |x, _| if x == 0 { [0, 0, 0, 255] } else { [255, 255, 255, 255] });
    assert_eq!(braille_text(img, Ratio { num: 3, den: 1 }, false).unwrap(), "\u{2801}");
}

#[test]
fn downsampling_by_two_fills_one_cell() {
    let img = buffer(4, 8, |_, _| [255, 255, 255, 255]);
    assert_eq!(braille_text(img, Ratio { num: 2, den: 1 }, false).unwrap(), "\u{28FF}");
}

#[test]
fn upsampling_broadcasts_one_pixel() {
    let img = buffer(1, 1, |_, _| [255, 255, 255, 255]);
    let grid = sample_brightness(&img, Ratio { num: 1, den: 2 }, GrayScaleMode::Average);
    assert_eq!((grid.rows, grid.cols), (1, 1));
    assert_eq!(grid.slots, vec![255, 255, UNSET, UNSET, 255, 255, UNSET, UNSET]);
    assert_eq!(grid_to_text(&grid).unwrap(), "\u{281B}");
}

#[test]
fn cell_dots_in_slot_order() {
    let slots = vec![200, 10, UNSET, 128, 127, 255, 0, 130];
    assert_eq!(cell_dots(&slots, 0), vec![0, 6, 4, 7]);
    assert_eq!(cell_to_braille(&slots, 0), Ok('\u{28D1}'));
}

#[test]
fn cells_become_lines() {
    let img = buffer(4, 4, |x, _| if x < 2 { [0, 0, 0, 255] } else { [255, 255, 255, 255] });
    let grid = sample_brightness(&img, ONE, GrayScaleMode::Average);
    assert_eq!(braille_cells(&grid).unwrap(), vec![vec!['\u{2800}', '\u{28FF}']]);
}

#[test]
fn encoded_image_is_decoded_and_converted() {
    let bytes = png_bytes(2, 4, [255, 255, 255, 255]);
    assert_eq!(image_to_braille(&bytes, ONE, false).unwrap(), "\u{28FF}");
    assert_eq!(image_to_braille(&bytes, ONE, true).unwrap(), "\u{28FF}");
    let dark = png_bytes(4, 4, [0, 0, 0, 255]);
    assert_eq!(image_to_braille(&dark, ONE, true).unwrap(), "\u{2800}\u{2800}");
}

#[test]
fn undecodable_bytes_fail() {
    assert_eq!(image_to_braille(b"not an image", ONE, false), Err(CoreError::FrameDecodeError));
    assert_eq!(image_to_braille(&[], ONE, true), Err(CoreError::FrameDecodeError));
}

#[test]
fn oversized_grid_is_refused() {
    assert!(fits_in_memory(100, 100, ONE));
    assert!(!fits_in_memory(u32::MAX, u32::MAX, Ratio { num: 1, den: u32::MAX }));
    let img = buffer(1, 1, |_, _| [255, 255, 255, 255]);
    let img = PixelBuffer { width: 1, height: 1, ..img };
    assert_eq!(braille_text(img, Ratio { num: 1, den: 2 }, false).unwrap(), "\u{281B}");
}
