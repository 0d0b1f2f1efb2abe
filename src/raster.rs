//! Decoded pixel buffers, scale ratios and the size of the cell grid.
use vstd::prelude::*;

verus! {

/// How the decoded image stored its pixels before they were widened to RGBA.
/// Only 8-bit RGB and RGBA images can be dithered.
#[derive(Debug, Clone, Copy, PartialEq, Eq, Structural)]
pub enum PixelLayout {
    Rgb8,
    Rgba8,
    Other,
}

/// A decoded image: `width × height` pixels, row-major, four 8-bit channels
/// (R, G, B, A) each.
pub struct PixelBuffer {
    pub width: u32,
    pub height: u32,
    pub layout: PixelLayout,
    pub rgba: Vec<u8>,
}

impl PixelBuffer {
    /// The buffer holds exactly four bytes per pixel.
    pub open spec fn wf(&self) -> bool {
        self.rgba@.len() == self.width * self.height * 4
    }
}

/// Where channel `c` of pixel `(x, y)` sits in a row-major RGBA buffer of width `w`.
pub open spec fn px_index(w: nat, x: nat, y: nat, c: nat) -> nat {
    (y * w + x) * 4 + c
}

pub proof fn lemma_px_index_bounds(w: nat, h: nat, x: nat, y: nat, c: nat)
    requires
        x < w,
        y < h,
        c < 4,
    ensures
        px_index(w, x, y, c) < w * h * 4,
        px_index(w, x, y, 0) + c == px_index(w, x, y, c),
{
    assert(y * w + x < w * h) by (nonlinear_arith)
        requires
            x < w,
            y < h,
    ;
    assert((y * w + x) * 4 + c < w * h * 4) by (nonlinear_arith)
        requires
            y * w + x < w * h,
            c < 4,
    ;
}

/// A positive scale factor `num / den` between source pixels and braille dots:
/// above 1 it downsamples, below 1 it upsamples.
#[derive(Debug, Clone, Copy, PartialEq, Eq, Structural)]
pub struct Ratio {
    pub num: u32,
    pub den: u32,
}

impl Ratio {
    pub open spec fn wf(&self) -> bool {
        self.num > 0 && self.den > 0
    }
}

/// `⌈a / b⌉`.
pub open spec fn ceil_div(a: nat, b: nat) -> nat {
    if a % b == 0 {
        a / b
    } else {
        a / b + 1
    }
}

/// Number of cell columns: `⌈width / (2·ratio)⌉`.
pub open spec fn grid_cols(width: nat, ratio: Ratio) -> nat {
    ceil_div(width * (ratio.den as nat), 2 * (ratio.num as nat))
}

/// Number of cell rows: `⌈height / (4·ratio)⌉`.
pub open spec fn grid_rows(height: nat, ratio: Ratio) -> nat {
    ceil_div(height * (ratio.den as nat), 4 * (ratio.num as nat))
}

/// `⌈a / b⌉` on machine integers.
pub fn ceil_div_u64(a: u64, b: u64) -> (r: u64)
    requires
        b > 0,
    ensures
        r == ceil_div(a as nat, b as nat),
{
    let q = a / b;
    if a % b == 0 {
        q
    } else {
        proof {
            assert(b > 1);
            assert(q < u64::MAX) by (nonlinear_arith)
                requires
                    q == a / b,
                    b > 1,
            ;
        }
        q + 1
    }
}

/// The cell grid's `(rows, cols)` for an image of `width × height` pixels.
pub fn grid_dimensions(width: u32, height: u32, ratio: Ratio) -> (r: (u64, u64))
    requires
        ratio.wf(),
    ensures
        r.0 == grid_rows(height as nat, ratio),
        r.1 == grid_cols(width as nat, ratio),
{
    proof {
        assert((width as nat) * (ratio.den as nat) <= u64::MAX) by (nonlinear_arith)
            requires
                width <= u32::MAX,
                ratio.den <= u32::MAX,
        ;
        assert((height as nat) * (ratio.den as nat) <= u64::MAX) by (nonlinear_arith)
            requires
                height <= u32::MAX,
                ratio.den <= u32::MAX,
        ;
    }
    let cols = ceil_div_u64(width as u64 * ratio.den as u64, 2 * ratio.num as u64);
    let rows = ceil_div_u64(height as u64 * ratio.den as u64, 4 * ratio.num as u64);
    (rows, cols)
}

} // verus!
