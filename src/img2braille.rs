//! Image to braille text: decode, optionally dither, sample, encode.
use vstd::prelude::*;

use crate::braille::BRAILLE_BASE;
use crate::brightness::GrayScaleMode;
use crate::dithering::{channel, dithered, lemma_dithered_binary, FloydSteinbergDithering};
use crate::error::CoreError;
use crate::raster::{grid_cols, grid_dimensions, grid_rows, PixelBuffer, PixelLayout, Ratio};
use crate::sampler::{lemma_transparent_unset, sample_brightness, sampled, visible, UNSET};
use crate::text::{grid_glyphs, grid_text, grid_to_text, lemma_blank_cell, slot_active};

verus! {

/// The error of `image::load_from_memory`, declared so that the decoding
/// wrapper can hand it back; it is mapped to `FrameDecodeError`.
#[verifier::external_type_specification]
#[verifier::external_body]
pub struct ExImageError(image::ImageError);

/// What `image::load_from_memory` makes of some bytes: `None` when it fails,
/// else the width, the height, the stored layout and the pixels widened to RGBA.
pub uninterp spec fn decoded_image(bytes: Seq<u8>) -> Option<(u32, u32, PixelLayout, Seq<u8>)>;

/// Relies on `image::load_from_memory`, which guesses the format from the
/// bytes and decodes them, and on `DynamicImage::to_rgba8`, which converts
/// every layout to a `width × height` RGBA buffer. Both depend on the bytes alone.
#[verifier::external_body]
fn decode_image(bytes: &[u8]) -> (r: Result<PixelBuffer, image::ImageError>)
    ensures
        r is Ok <==> decoded_image(bytes@) is Some,
        r is Ok ==> r->Ok_0.wf() && decoded_image(bytes@) == Some(
            (r->Ok_0.width, r->Ok_0.height, r->Ok_0.layout, r->Ok_0.rgba@),
        ),
{
    let img = image::load_from_memory(bytes)?;
    let layout = match img.color() {
        image::ColorType::Rgb8 => PixelLayout::Rgb8,
        image::ColorType::Rgba8 => PixelLayout::Rgba8,
        _ => PixelLayout::Other,
    };
    let (width, height) = (img.width(), img.height());
    Ok(PixelBuffer { width, height, layout, rgba: img.to_rgba8().into_raw() })
}

/// The brightness mode of each path: luminance after dithering, plain
/// average without it.
pub open spec fn mode_for(dithering: bool) -> GrayScaleMode {
    if dithering {
        GrayScaleMode::Luminance
    } else {
        GrayScaleMode::Average
    }
}

/// A `w × h` image's cell grid fits in memory at `ratio`.
pub open spec fn grid_fits(w: nat, h: nat, ratio: Ratio) -> bool {
    &&& grid_rows(h, ratio) <= usize::MAX
    &&& grid_cols(w, ratio) <= usize::MAX
    &&& grid_rows(h, ratio) * grid_cols(w, ratio) * 8 <= usize::MAX
}

/// The braille text of a `w × h` RGBA buffer: dithered first when asked,
/// sampled at `ratio`, one glyph per cell.
pub open spec fn converted_text(
    data: Seq<u8>,
    w: nat,
    h: nat,
    ratio: Ratio,
    dithering: bool,
) -> Seq<char> {
    grid_text(
        sampled(prepared(data, w, h, dithering), w, h, ratio, mode_for(dithering)),
        grid_rows(h, ratio),
        grid_cols(w, ratio),
    )
}

/// The pixels that get sampled: dithered when asked.
pub open spec fn prepared(data: Seq<u8>, w: nat, h: nat, dithering: bool) -> Seq<u8> {
    if dithering {
        dithered(data, w, h)
    } else {
        data
    }
}

/// What converting a decoded image gives: `DitheringFailed` when dithering is
/// asked of a layout other than 8-bit RGB or RGBA,
/// `FailedToConvertToBraille` when the cell grid would not fit in memory,
/// else the braille text.
pub open spec fn conversion_of(
    img: (u32, u32, PixelLayout, Seq<u8>),
    ratio: Ratio,
    dithering: bool,
) -> Result<Seq<char>, CoreError> {
    let (w, h, layout, data) = img;
    if dithering && layout == PixelLayout::Other {
        Err(CoreError::DitheringFailed)
    } else if !grid_fits(w as nat, h as nat, ratio) {
        Err(CoreError::FailedToConvertToBraille)
    } else {
        Ok(converted_text(data, w as nat, h as nat, ratio, dithering))
    }
}

/// A fully transparent image (alpha below 128 everywhere) comes out as blank
/// braille cells, with or without dithering: every glyph of its text is U+2800.
pub proof fn lemma_transparent_image_blank(
    data: Seq<u8>,
    w: nat,
    h: nat,
    ratio: Ratio,
    dithering: bool,
)
    requires
        data.len() == w * h * 4,
        forall|x: nat, y: nat| x < w && y < h ==> !#[trigger] visible(data, w, x, y),
    ensures
        forall|r: int, c: int|
            0 <= r < grid_rows(h, ratio) && 0 <= c < grid_cols(w, ratio) ==> #[trigger] grid_glyphs(
                sampled(prepared(data, w, h, dithering), w, h, ratio, mode_for(dithering)),
                grid_rows(h, ratio),
                grid_cols(w, ratio),
            )[r][c] == (BRAILLE_BASE as u32) as char,
{
    let pixels = prepared(data, w, h, dithering);
    if dithering {
        lemma_dithered_binary(data, w, h);
        assert forall|x: nat, y: nat| x < w && y < h implies !#[trigger] visible(pixels, w, x, y) by {
            assert(!visible(data, w, x, y));
            assert(y * w + x < w * h) by (nonlinear_arith)
                requires
                    x < w,
                    y < h,
            ;
            assert(channel(pixels, (y * w + x) as int, 3) == channel(data, (y * w + x) as int, 3));
        }
    }
    lemma_blank_grid(pixels, w, h, ratio, mode_for(dithering));
}

proof fn lemma_blank_grid(data: Seq<u8>, w: nat, h: nat, ratio: Ratio, mode: GrayScaleMode)
    requires
        forall|x: nat, y: nat| x < w && y < h ==> !#[trigger] visible(data, w, x, y),
    ensures
        forall|r: int, c: int|
            0 <= r < grid_rows(h, ratio) && 0 <= c < grid_cols(w, ratio) ==> #[trigger] grid_glyphs(
                sampled(data, w, h, ratio, mode),
                grid_rows(h, ratio),
                grid_cols(w, ratio),
            )[r][c] == (BRAILLE_BASE as u32) as char,
{
    let rows = grid_rows(h, ratio);
    let cols = grid_cols(w, ratio);
    let slots = sampled(data, w, h, ratio, mode);
    lemma_transparent_unset(data, w, h, ratio, mode);
    assert forall|r: int, c: int| 0 <= r < rows && 0 <= c < cols implies #[trigger] grid_glyphs(
        slots,
        rows,
        cols,
    )[r][c] == (BRAILLE_BASE as u32) as char by {
        assert(r * cols + c < rows * cols) by (nonlinear_arith)
            requires
                0 <= r < rows,
                0 <= c < cols,
        ;
        assert((r * cols + c) * 8 + 8 <= rows * cols * 8) by (nonlinear_arith)
            requires
                r * cols + c < rows * cols,
        ;
        assert forall|j: int| 0 <= j < 8 implies !slot_active(#[trigger] slots[(r * cols + c) * 8 + j]) by {
            assert(slots[(r * cols + c) * 8 + j] == UNSET);
        }
        lemma_blank_cell(slots, (r * cols + c) * 8);
    }
}

/// Whether a `width × height` image's cell grid fits in memory at `ratio`.
pub fn fits_in_memory(width: u32, height: u32, ratio: Ratio) -> (r: bool)
    requires
        ratio.wf(),
    ensures
        r == grid_fits(width as nat, height as nat, ratio),
{
    let (rows, cols) = grid_dimensions(width, height, ratio);
    if rows > usize::MAX as u64 || cols > usize::MAX as u64 {
        return false;
    }
    match (rows as usize).checked_mul(cols as usize) {
        Some(cells) => cells.checked_mul(8).is_some(),
        None => {
            proof {
                assert(rows * cols * 8 > usize::MAX) by (nonlinear_arith)
                    requires
                        rows * cols > usize::MAX,
                ;
            }
            false
        },
    }
}

/// Converts a decoded image to braille text (see [`conversion_of`]).
pub fn braille_text(img: PixelBuffer, ratio: Ratio, dithering: bool) -> (r: Result<String, CoreError>)
    requires
        img.wf(),
        ratio.wf(),
    ensures
        r matches Ok(text) ==> conversion_of(
            (img.width, img.height, img.layout, img.rgba@),
            ratio,
            dithering,
        ) == Ok::<Seq<char>, CoreError>(text@),
        r matches Err(e) ==> conversion_of(
            (img.width, img.height, img.layout, img.rgba@),
            ratio,
            dithering,
        ) == Err::<Seq<char>, CoreError>(e),
{
    let mut img = img;
    if dithering {
        FloydSteinbergDithering::apply_to(&mut img)?;
    }
    if !fits_in_memory(img.width, img.height, ratio) {
        return Err(CoreError::FailedToConvertToBraille);
    }
    let mode = if dithering {
        GrayScaleMode::Luminance
    } else {
        GrayScaleMode::Average
    };
    let grid = sample_brightness(&img, ratio, mode);
    grid_to_text(&grid)
}

/// Converts encoded image bytes (any format the `image` crate recognises) to
/// braille text: `FrameDecodeError` when they do not decode, else as
/// [`conversion_of`] says of the decoded image.
pub fn image_to_braille(image_bytes: &[u8], ratio: Ratio, dithering: bool) -> (r: Result<
    String,
    CoreError,
>)
    requires
        ratio.wf(),
    ensures
        decoded_image(image_bytes@) is None ==> r == Err::<String, CoreError>(
            CoreError::FrameDecodeError,
        ),
        decoded_image(image_bytes@) matches Some(img) ==> {
            &&& r matches Ok(text) ==> conversion_of(img, ratio, dithering) == Ok::<
                Seq<char>,
                CoreError,
            >(text@)
            &&& r matches Err(e) ==> conversion_of(img, ratio, dithering) == Err::<
                Seq<char>,
                CoreError,
            >(e)
        },
{
    let img = match decode_image(image_bytes) {
        Ok(img) => img,
        Err(_) => return Err(CoreError::FrameDecodeError),
    };
    braille_text(img, ratio, dithering)
}

} // verus!
