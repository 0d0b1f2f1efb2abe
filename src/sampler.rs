//! Brightness sampling of a pixel buffer into a grid of braille cells.
use vstd::arithmetic::div_mod::{lemma_fundamental_div_mod, lemma_mod_pos_bound};
use vstd::prelude::*;

use crate::brightness::{brightness_of, compute_brightness, GrayScaleMode};
use crate::raster::{
    grid_cols, grid_dimensions, grid_rows, lemma_px_index_bounds, px_index, PixelBuffer, Ratio,
};

verus! {

/// The value of a dot slot that no opaque enough pixel has reached.
pub const UNSET: u16 = 256;

/// `rows × cols` braille cells with eight brightness slots each. The slots of
/// the cell in row `cy` and column `cx` start at `(cy·cols + cx)·8`; within a
/// cell, the slot of dot column `ix` (0 or 1) and dot row `iy` (0 to 3) is
/// `ix·4 + iy`. A slot holds a brightness in `0..=255` or [`UNSET`].
pub struct CellGrid {
    pub rows: usize,
    pub cols: usize,
    pub slots: Vec<u16>,
}

impl CellGrid {
    pub open spec fn wf(&self) -> bool {
        self.slots@.len() == self.rows * self.cols * 8
    }
}

pub open spec fn slot_index(cols: nat, cx: nat, cy: nat, ix: nat, iy: nat) -> nat {
    (cy * cols + cx) * 8 + ix * 4 + iy
}

proof fn lemma_slot_bounds(rows: nat, cols: nat, cx: nat, cy: nat, ix: nat, iy: nat)
    requires
        cx < cols,
        cy < rows,
        ix < 2,
        iy < 4,
    ensures
        slot_index(cols, cx, cy, ix, iy) < rows * cols * 8,
        (cy * cols + cx) * 8 + 8 <= rows * cols * 8,
{
    assert(cy * cols + cx < rows * cols) by (nonlinear_arith)
        requires
            cx < cols,
            cy < rows,
    ;
    assert((cy * cols + cx) * 8 + 8 <= rows * cols * 8) by (nonlinear_arith)
        requires
            cy * cols + cx < rows * cols,
    ;
}

/// Folds `step` over the pixels of a `w`-wide image in raster order (row by
/// row, left to right), up to but not including pixel `(x, y)`.
pub open spec fn raster_fold<T>(
    w: nat,
    y: nat,
    x: nat,
    init: T,
    step: spec_fn(T, nat, nat) -> T,
) -> T
    decreases y, x,
{
    if x > 0 {
        step(raster_fold(w, y, (x - 1) as nat, init, step), (x - 1) as nat, y)
    } else if y > 0 {
        raster_fold(w, (y - 1) as nat, w, init, step)
    } else {
        init
    }
}

/// `round(den / num)`: how many dot slots one source pixel spans when upsampling.
pub open spec fn up_factor(r: Ratio) -> nat {
    ((2 * r.den + r.num) / (2 * r.num)) as nat
}

/// `round(num / den)`: how many source pixels one dot spans when downsampling.
pub open spec fn down_factor(r: Ratio) -> nat {
    ((2 * r.num + r.den) / (2 * r.den)) as nat
}

/// A pixel counts only when its alpha is at least 128.
pub open spec fn visible(data: Seq<u8>, w: nat, x: nat, y: nat) -> bool {
    data[px_index(w, x, y, 3) as int] >= 128
}

pub open spec fn px_brightness(data: Seq<u8>, w: nat, x: nat, y: nat, mode: GrayScaleMode) -> u16 {
    brightness_of(
        data[px_index(w, x, y, 0) as int],
        data[px_index(w, x, y, 1) as int],
        data[px_index(w, x, y, 2) as int],
        mode,
    )
}

/// A new contribution to a slot: it is taken as is by an unset slot, and
/// averaged pairwise with what a set slot holds.
pub open spec fn merge_slot(old: u16, b: u16) -> u16 {
    if old == UNSET {
        b
    } else {
        ((old + b) / 2) as u16
    }
}

pub open spec fn empty_grid(rows: nat, cols: nat) -> Seq<u16> {
    Seq::new(rows * cols * 8, |j: int| UNSET)
}

/// Downsampling by `k`: pixel `(x, y)` lands in cell `(x / 2k, y / 4k)`, on dot
/// `((x / k) mod 2, (y / k) mod 4)`; a cell outside the grid takes nothing.
pub open spec fn down_step(
    data: Seq<u8>,
    w: nat,
    rows: nat,
    cols: nat,
    k: nat,
    mode: GrayScaleMode,
    g: Seq<u16>,
    x: nat,
    y: nat,
) -> Seq<u16> {
    let cx = x / (2 * k);
    let cy = y / (4 * k);
    let j = slot_index(cols, cx, cy, (x / k) % 2, (y / k) % 4) as int;
    if visible(data, w, x, y) && cx < cols && cy < rows {
        g.update(j, merge_slot(g[j], px_brightness(data, w, x, y, mode)))
    } else {
        g
    }
}

pub open spec fn down_stepper(
    data: Seq<u8>,
    w: nat,
    rows: nat,
    cols: nat,
    k: nat,
    mode: GrayScaleMode,
) -> spec_fn(Seq<u16>, nat, nat) -> Seq<u16> {
    |g: Seq<u16>, x: nat, y: nat| down_step(data, w, rows, cols, k, mode, g, x, y)
}

/// The cell row that line `line` of the lines spanned by source row `y` falls in.
pub open spec fn up_cy(s: nat, y: nat, line: nat) -> nat {
    (s * y) / 4 + line / 4
}

/// The dot row that line `line` of the lines spanned by source row `y` falls on.
pub open spec fn up_iy(s: nat, y: nat, line: nat) -> nat {
    if s >= 4 {
        line % 4
    } else {
        2 * (y % 2) + line
    }
}

/// Both dots of dot row `iy` in cell `(cx, cy)` take `b`, when that place exists.
pub open spec fn up_write(
    g: Seq<u16>,
    rows: nat,
    cols: nat,
    cx: nat,
    cy: nat,
    iy: nat,
    b: u16,
) -> Seq<u16> {
    if cx < cols && cy < rows && iy < 4 {
        g.update(slot_index(cols, cx, cy, 0, iy) as int, b).update(
            slot_index(cols, cx, cy, 1, iy) as int,
            b,
        )
    } else {
        g
    }
}

/// The first `n` of the `s` lines that source row `y` spans, in column `cx`.
pub open spec fn up_lines(
    g: Seq<u16>,
    rows: nat,
    cols: nat,
    s: nat,
    y: nat,
    cx: nat,
    b: u16,
    n: nat,
) -> Seq<u16>
    decreases n,
{
    if n == 0 {
        g
    } else {
        let line = (n - 1) as nat;
        up_write(
            up_lines(g, rows, cols, s, y, cx, b, line),
            rows,
            cols,
            cx,
            up_cy(s, y, line),
            up_iy(s, y, line),
            b,
        )
    }
}

/// The first `m` of the `s / 2` cell columns that source column `x` spans,
/// starting at `x · (s / 2)`.
pub open spec fn up_columns(
    g: Seq<u16>,
    rows: nat,
    cols: nat,
    s: nat,
    x: nat,
    y: nat,
    b: u16,
    m: nat,
) -> Seq<u16>
    decreases m,
{
    if m == 0 {
        g
    } else {
        up_lines(
            up_columns(g, rows, cols, s, x, y, b, (m - 1) as nat),
            rows,
            cols,
            s,
            y,
            x * (s / 2) + (m - 1) as nat,
            b,
            s,
        )
    }
}

/// Upsampling by `s`: a visible pixel's brightness is written, not averaged,
/// to every dot slot it spans.
pub open spec fn up_step(
    data: Seq<u8>,
    w: nat,
    rows: nat,
    cols: nat,
    s: nat,
    mode: GrayScaleMode,
    g: Seq<u16>,
    x: nat,
    y: nat,
) -> Seq<u16> {
    if visible(data, w, x, y) {
        up_columns(g, rows, cols, s, x, y, px_brightness(data, w, x, y, mode), s / 2)
    } else {
        g
    }
}

pub open spec fn up_stepper(
    data: Seq<u8>,
    w: nat,
    rows: nat,
    cols: nat,
    s: nat,
    mode: GrayScaleMode,
) -> spec_fn(Seq<u16>, nat, nat) -> Seq<u16> {
    |g: Seq<u16>, x: nat, y: nat| up_step(data, w, rows, cols, s, mode, g, x, y)
}

/// The slots of the cell grid sampled from a `w × h` RGBA buffer at `ratio`.
pub open spec fn sampled(data: Seq<u8>, w: nat, h: nat, ratio: Ratio, mode: GrayScaleMode) -> Seq<
    u16,
> {
    let rows = grid_rows(h, ratio);
    let cols = grid_cols(w, ratio);
    if up_factor(ratio) > 1 {
        raster_fold(
            w,
            h,
            0,
            empty_grid(rows, cols),
            up_stepper(data, w, rows, cols, up_factor(ratio), mode),
        )
    } else {
        raster_fold(
            w,
            h,
            0,
            empty_grid(rows, cols),
            down_stepper(data, w, rows, cols, down_factor(ratio), mode),
        )
    }
}

/// A fold whose every step leaves `init` alone gives back `init`.
proof fn lemma_fold_fixed<T>(w: nat, h: nat, y: nat, x: nat, init: T, step: spec_fn(T, nat, nat) -> T)
    requires
        forall|px: nat, py: nat| px < w && py < h ==> #[trigger] step(init, px, py) == init,
        (y < h && x <= w) || (y <= h && x == 0),
    ensures
        raster_fold(w, y, x, init, step) == init,
    decreases y, x,
{
    if x > 0 {
        lemma_fold_fixed(w, h, y, (x - 1) as nat, init, step);
    } else if y > 0 {
        lemma_fold_fixed(w, h, (y - 1) as nat, w, init, step);
    }
}

/// An image whose every pixel has alpha below 128 leaves every dot slot unset.
pub proof fn lemma_transparent_unset(data: Seq<u8>, w: nat, h: nat, ratio: Ratio, mode: GrayScaleMode)
    requires
        forall|x: nat, y: nat| x < w && y < h ==> !#[trigger] visible(data, w, x, y),
    ensures
        sampled(data, w, h, ratio, mode) == empty_grid(grid_rows(h, ratio), grid_cols(w, ratio)),
{
    let rows = grid_rows(h, ratio);
    let cols = grid_cols(w, ratio);
    let init = empty_grid(rows, cols);
    if up_factor(ratio) > 1 {
        let step = up_stepper(data, w, rows, cols, up_factor(ratio), mode);
        assert forall|px: nat, py: nat| px < w && py < h implies #[trigger] step(init, px, py)
            == init by {
            assert(!visible(data, w, px, py));
        }
        lemma_fold_fixed(w, h, h, 0, init, step);
    } else {
        let step = down_stepper(data, w, rows, cols, down_factor(ratio), mode);
        assert forall|px: nat, py: nat| px < w && py < h implies #[trigger] step(init, px, py)
            == init by {
            assert(!visible(data, w, px, py));
        }
        lemma_fold_fixed(w, h, h, 0, init, step);
    }
}

/// The rounded factors of a ratio stay within its numerator and denominator,
/// and one of them is at least 1.
proof fn lemma_factor_bounds(num: int, den: int)
    requires
        num >= 1,
        den >= 1,
    ensures
        (2 * den + num) / (2 * num) <= den,
        (2 * num + den) / (2 * den) <= num,
        (2 * den + num) / (2 * num) <= 1 ==> (2 * num + den) / (2 * den) >= 1,
{
    let s = (2 * den + num) / (2 * num);
    let k = (2 * num + den) / (2 * den);
    lemma_fundamental_div_mod(2 * den + num, 2 * num);
    lemma_mod_pos_bound(2 * den + num, 2 * num);
    lemma_fundamental_div_mod(2 * num + den, 2 * den);
    lemma_mod_pos_bound(2 * num + den, 2 * den);
    assert(s <= den) by (nonlinear_arith)
        requires
            2 * num * s <= 2 * den + num,
            num >= 1,
            den >= 1,
    ;
    assert(k <= num) by (nonlinear_arith)
        requires
            2 * den * k <= 2 * num + den,
            num >= 1,
            den >= 1,
    ;
    if s <= 1 {
        assert(2 * den < 3 * num) by (nonlinear_arith)
            requires
                2 * den + num < 2 * num * s + 2 * num,
                s <= 1,
                num >= 1,
        ;
        assert(k >= 1) by (nonlinear_arith)
            requires
                2 * den * k + 2 * den > 2 * num + den,
                2 * den < 3 * num,
                den >= 1,
        ;
    }
}

/// The brightness of pixel `(x, y)`, or `None` when its alpha is below 128.
fn pixel_brightness(img: &PixelBuffer, x: u32, y: u32, mode: GrayScaleMode) -> (r: Option<u16>)
    requires
        img.wf(),
        x < img.width,
        y < img.height,
    ensures
        r is Some <==> visible(img.rgba@, img.width as nat, x as nat, y as nat),
        r is Some ==> r->Some_0 == px_brightness(
            img.rgba@,
            img.width as nat,
            x as nat,
            y as nat,
            mode,
        ),
        r is Some ==> r->Some_0 <= 255,
{
    let len = img.rgba.len();
    proof {
        lemma_px_index_bounds(img.width as nat, img.height as nat, x as nat, y as nat, 3);
        assert((y as int) * (img.width as int) <= px_index(img.width as nat, x as nat, y as nat, 0));
    }
    let base = ((y as usize) * (img.width as usize) + x as usize) * 4;
    if img.rgba[base + 3] < 128 {
        return None;
    }
    Some(compute_brightness([img.rgba[base], img.rgba[base + 1], img.rgba[base + 2]], mode))
}

fn downsample(img: &PixelBuffer, rows: usize, cols: usize, k: u64, mode: GrayScaleMode) -> (slots:
    Vec<u16>)
    requires
        img.wf(),
        1 <= k <= u32::MAX,
        rows * cols * 8 <= usize::MAX,
    ensures
        slots@.len() == rows * cols * 8,
        slots@ == raster_fold(
            img.width as nat,
            img.height as nat,
            0,
            empty_grid(rows as nat, cols as nat),
            down_stepper(img.rgba@, img.width as nat, rows as nat, cols as nat, k as nat, mode),
        ),
{
    let ghost w = img.width as nat;
    let ghost step = down_stepper(img.rgba@, w, rows as nat, cols as nat, k as nat, mode);
    let ghost init = empty_grid(rows as nat, cols as nat);
    let mut slots: Vec<u16> = vec![UNSET; rows * cols * 8];
    assert(slots@ =~= init);
    let mut y: u32 = 0;
    while y < img.height
        invariant
            img.wf(),
            1 <= k <= u32::MAX,
            rows * cols * 8 <= usize::MAX,
            y <= img.height,
            slots@.len() == rows * cols * 8,
            w == img.width as nat,
            step == down_stepper(img.rgba@, w, rows as nat, cols as nat, k as nat, mode),
            slots@ == raster_fold(w, y as nat, 0, init, step),
        decreases img.height - y,
    {
        let mut x: u32 = 0;
        while x < img.width
            invariant
                img.wf(),
                1 <= k <= u32::MAX,
                rows * cols * 8 <= usize::MAX,
                y < img.height,
                x <= img.width,
                slots@.len() == rows * cols * 8,
                w == img.width as nat,
            step == down_stepper(img.rgba@, w, rows as nat, cols as nat, k as nat, mode),
                slots@ == raster_fold(w, y as nat, x as nat, init, step),
            decreases img.width - x,
        {
            let ghost before = slots@;
            assert(step(before, x as nat, y as nat) == down_step(
                img.rgba@,
                w,
                rows as nat,
                cols as nat,
                k as nat,
                mode,
                before,
                x as nat,
                y as nat,
            ));
            if let Some(b) = pixel_brightness(img, x, y, mode) {
                let cx = x as u64 / (2 * k);
                let cy = y as u64 / (4 * k);
                if cx < cols as u64 && cy < rows as u64 {
                    let ix = (x as u64 / k) % 2;
                    let iy = (y as u64 / k) % 4;
                    proof {
                        lemma_slot_bounds(
                            rows as nat,
                            cols as nat,
                            cx as nat,
                            cy as nat,
                            ix as nat,
                            iy as nat,
                        );
                    }
                    let j = ((cy as usize) * cols + cx as usize) * 8 + (ix as usize) * 4
                        + iy as usize;
                    let old = slots[j];
                    let merged = if old == UNSET {
                        b
                    } else {
                        ((old as u32 + b as u32) / 2) as u16
                    };
                    slots.set(j, merged);
                }
            }
            assert(slots@ == step(before, x as nat, y as nat));
            x = x + 1;
        }
        assert(raster_fold(w, (y + 1) as nat, 0, init, step) == raster_fold(w, y as nat, w, init, step));
        y = y + 1;
    }
    slots
}

fn upsample(img: &PixelBuffer, rows: usize, cols: usize, s: u64, mode: GrayScaleMode) -> (slots:
    Vec<u16>)
    requires
        img.wf(),
        2 <= s <= u32::MAX,
        rows * cols * 8 <= usize::MAX,
    ensures
        slots@.len() == rows * cols * 8,
        slots@ == raster_fold(
            img.width as nat,
            img.height as nat,
            0,
            empty_grid(rows as nat, cols as nat),
            up_stepper(img.rgba@, img.width as nat, rows as nat, cols as nat, s as nat, mode),
        ),
{
    let ghost w = img.width as nat;
    let ghost step = up_stepper(img.rgba@, w, rows as nat, cols as nat, s as nat, mode);
    let ghost init = empty_grid(rows as nat, cols as nat);
    let mut slots: Vec<u16> = vec![UNSET; rows * cols * 8];
    assert(slots@ =~= init);
    let half: u64 = s / 2;
    let mut y: u32 = 0;
    while y < img.height
        invariant
            img.wf(),
            2 <= s <= u32::MAX,
            half == s / 2,
            rows * cols * 8 <= usize::MAX,
            y <= img.height,
            slots@.len() == rows * cols * 8,
            w == img.width as nat,
            step == up_stepper(img.rgba@, w, rows as nat, cols as nat, s as nat, mode),
            slots@ == raster_fold(w, y as nat, 0, init, step),
        decreases img.height - y,
    {
        let mut x: u32 = 0;
        while x < img.width
            invariant
                img.wf(),
                2 <= s <= u32::MAX,
                half == s / 2,
                rows * cols * 8 <= usize::MAX,
                y < img.height,
                x <= img.width,
                slots@.len() == rows * cols * 8,
                w == img.width as nat,
            step == up_stepper(img.rgba@, w, rows as nat, cols as nat, s as nat, mode),
                slots@ == raster_fold(w, y as nat, x as nat, init, step),
            decreases img.width - x,
        {
            let ghost before = slots@;
            assert(step(before, x as nat, y as nat) == up_step(
                img.rgba@,
                w,
                rows as nat,
                cols as nat,
                s as nat,
                mode,
                before,
                x as nat,
                y as nat,
            ));
            if let Some(b) = pixel_brightness(img, x, y, mode) {
                proof {
                    assert((x as nat) * (half as nat) + half as nat <= u64::MAX) by (nonlinear_arith)
                        requires
                            x < u32::MAX,
                            half <= u32::MAX / 2,
                    ;
                }
                let start: u64 = x as u64 * half;
                let mut m: u64 = 0;
                while m < half
                    invariant
                        2 <= s <= u32::MAX,
                        half == s / 2,
                        start == x * half,
                        start + half <= u64::MAX,
                        rows * cols * 8 <= usize::MAX,
                        m <= half,
                        slots@.len() == rows * cols * 8,
                        slots@ == up_columns(
                            before,
                            rows as nat,
                            cols as nat,
                            s as nat,
                            x as nat,
                            y as nat,
                            b,
                            m as nat,
                        ),
                    decreases half - m,
                {
                    let cx: u64 = start + m;
                    let ghost column_start = slots@;
                    let mut line: u64 = 0;
                    while line < s
                        invariant
                            2 <= s <= u32::MAX,
                            rows * cols * 8 <= usize::MAX,
                            line <= s,
                            slots@.len() == rows * cols * 8,
                            slots@ == up_lines(
                                column_start,
                                rows as nat,
                                cols as nat,
                                s as nat,
                                y as nat,
                                cx as nat,
                                b,
                                line as nat,
                            ),
                        decreases s - line,
                    {
                        proof {
                            assert((s as nat) * (y as nat) <= u64::MAX) by (nonlinear_arith)
                                requires
                                    s <= u32::MAX,
                                    y <= u32::MAX,
                            ;
                        }
                        let cy: u128 = (s as u128 * y as u128) / 4 + (line / 4) as u128;
                        let iy: u64 = if s >= 4 {
                            line % 4
                        } else {
                            2 * (y as u64 % 2) + line
                        };
                        if cx < cols as u64 && cy < rows as u128 && iy < 4 {
                            proof {
                                lemma_slot_bounds(
                                    rows as nat,
                                    cols as nat,
                                    cx as nat,
                                    cy as nat,
                                    1,
                                    iy as nat,
                                );
                            }
                            let base = ((cy as usize) * cols + cx as usize) * 8;
                            slots.set(base + iy as usize, b);
                            slots.set(base + 4 + iy as usize, b);
                        }
                        line = line + 1;
                    }
                    m = m + 1;
                }
            }
            assert(slots@ == step(before, x as nat, y as nat));
            x = x + 1;
        }
        assert(raster_fold(w, (y + 1) as nat, 0, init, step) == raster_fold(w, y as nat, w, init, step));
        y = y + 1;
    }
    slots
}

/// Reduces a pixel buffer to a grid of braille cells whose dot slots hold
/// brightness: `⌈height / 4r⌉` rows and `⌈width / 2r⌉` columns for the ratio
/// `r`. Below a ratio of 2/3 each pixel is written to every slot it spans,
/// otherwise pixels are averaged into the slot they fall on (see [`sampled`]).
pub fn sample_brightness(img: &PixelBuffer, ratio: Ratio, mode: GrayScaleMode) -> (grid: CellGrid)
    requires
        img.wf(),
        ratio.wf(),
        grid_rows(img.height as nat, ratio) <= usize::MAX,
        grid_cols(img.width as nat, ratio) <= usize::MAX,
        grid_rows(img.height as nat, ratio) * grid_cols(img.width as nat, ratio) * 8
            <= usize::MAX,
    ensures
        grid.wf(),
        grid.rows == grid_rows(img.height as nat, ratio),
        grid.cols == grid_cols(img.width as nat, ratio),
        grid.slots@ == sampled(img.rgba@, img.width as nat, img.height as nat, ratio, mode),
{
    let (rows, cols) = grid_dimensions(img.width, img.height, ratio);
    proof {
        lemma_factor_bounds(ratio.num as int, ratio.den as int);
    }
    let rows = rows as usize;
    let cols = cols as usize;
    let num = ratio.num as u64;
    let den = ratio.den as u64;
    let s = (2 * den + num) / (2 * num);
    if s > 1 {
        let slots = upsample(img, rows, cols, s, mode);
        CellGrid { rows, cols, slots }
    } else {
        let k = (2 * num + den) / (2 * den);
        let slots = downsample(img, rows, cols, k, mode);
        CellGrid { rows, cols, slots }
    }
}

} // verus!
