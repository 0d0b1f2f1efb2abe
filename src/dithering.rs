//! Floyd–Steinberg error diffusion over an RGBA buffer.
use vstd::prelude::*;

use crate::error::CoreError;
use crate::raster::{lemma_px_index_bounds, px_index, PixelBuffer, PixelLayout};
use crate::sampler::raster_fold;

verus! {

/// Black or white: white when the plain average of R, G and B is at least 128.
pub open spec fn quantize(r: u8, g: u8, b: u8) -> u8 {
    if (r + g + b) / 3 >= 128 {
        255
    } else {
        0
    }
}

/// A channel after receiving `error · coef / 16`, clamped to `0..=255` and
/// rounded toward zero.
pub open spec fn diffuse_channel(c: u8, error: int, coef: int) -> u8 {
    let v = 16 * c + error * coef;
    if v < 0 {
        0
    } else if v / 16 > 255 {
        255
    } else {
        (v / 16) as u8
    }
}

/// The RGB channels of the pixel whose bytes start at `i` receive their share
/// of the quantization errors `(er, eg, eb)`.
pub open spec fn spread(d: Seq<u8>, i: int, er: int, eg: int, eb: int, coef: int) -> Seq<u8> {
    d.update(i, diffuse_channel(d[i], er, coef)).update(
        i + 1,
        diffuse_channel(d[i + 1], eg, coef),
    ).update(i + 2, diffuse_channel(d[i + 2], eb, coef))
}

/// One Floyd–Steinberg step at pixel `(x, y)` of a `w × h` RGBA buffer: the
/// pixel's RGB becomes black or white, and the error goes to the right
/// neighbour (7/16), the lower left (3/16), the one below (5/16) and the lower
/// right (1/16), where those exist. Alpha is left alone.
pub open spec fn dither_px(d: Seq<u8>, w: nat, h: nat, x: nat, y: nat) -> Seq<u8> {
    let i = px_index(w, x, y, 0) as int;
    let q = quantize(d[i], d[i + 1], d[i + 2]);
    let er = d[i] - q;
    let eg = d[i + 1] - q;
    let eb = d[i + 2] - q;
    let d1 = d.update(i, q).update(i + 1, q).update(i + 2, q);
    let d2 = if x + 1 < w {
        spread(d1, px_index(w, x + 1, y, 0) as int, er, eg, eb, 7)
    } else {
        d1
    };
    let d3 = if x > 0 && y + 1 < h {
        spread(d2, px_index(w, (x - 1) as nat, y + 1, 0) as int, er, eg, eb, 3)
    } else {
        d2
    };
    let d4 = if y + 1 < h {
        spread(d3, px_index(w, x, y + 1, 0) as int, er, eg, eb, 5)
    } else {
        d3
    };
    if x + 1 < w && y + 1 < h {
        spread(d4, px_index(w, x + 1, y + 1, 0) as int, er, eg, eb, 1)
    } else {
        d4
    }
}

pub open spec fn dither_stepper(w: nat, h: nat) -> spec_fn(Seq<u8>, nat, nat) -> Seq<u8> {
    |d: Seq<u8>, x: nat, y: nat| dither_px(d, w, h, x, y)
}

/// The buffer after error diffusion over every pixel in raster order.
pub open spec fn dithered(d: Seq<u8>, w: nat, h: nat) -> Seq<u8> {
    raster_fold(w, h, 0, d, dither_stepper(w, h))
}

/// Channel `c` of the pixel at raster position `k`.
pub open spec fn channel(d: Seq<u8>, k: int, c: int) -> u8 {
    d[k * 4 + c]
}

proof fn lemma_spread_frame(d: Seq<u8>, i: int, er: int, eg: int, eb: int, coef: int)
    requires
        0 <= i,
        i + 3 <= d.len(),
    ensures
        spread(d, i, er, eg, eb, coef).len() == d.len(),
        forall|j: int|
            0 <= j < d.len() && (j < i || j > i + 2) ==> #[trigger] spread(d, i, er, eg, eb, coef)[j]
                == d[j],
{
}

/// One step at raster position `p = y·w + x` sets that pixel's RGB to 0 or
/// 255 and touches only RGB channels of later pixels.
proof fn lemma_dither_px_frame(d: Seq<u8>, w: nat, h: nat, x: nat, y: nat)
    requires
        d.len() == w * h * 4,
        x < w,
        y < h,
    ensures
        dither_px(d, w, h, x, y).len() == d.len(),
        forall|k: int, c: int|
            0 <= k < w * h && 0 <= c < 4 && (c == 3 || k < y * w + x) ==> #[trigger] channel(
                dither_px(d, w, h, x, y),
                k,
                c,
            ) == channel(d, k, c),
        forall|c: int|
            0 <= c < 3 ==> {
                let v = #[trigger] channel(dither_px(d, w, h, x, y), (y * w + x) as int, c);
                v == 0 || v == 255
            },
{
    let p = (y * w + x) as int;
    assert((y + 1) * w == y * w + w) by (nonlinear_arith);
    assert(p < w * h) by (nonlinear_arith)
        requires
            p == y * w + x,
            x < w,
            y < h,
    ;
    if y + 1 < h {
        assert(p + w + 1 <= w * h) by (nonlinear_arith)
            requires
                p == y * w + x,
                x < w,
                y + 1 < h,
        ;
    }
    if x + 1 < w {
        assert(p + 1 < w * h) by (nonlinear_arith)
            requires
                p == y * w + x,
                x + 1 < w,
                y < h,
        ;
    }
    if x + 1 < w && y + 1 < h {
        assert(p + w + 1 < w * h) by (nonlinear_arith)
            requires
                p == y * w + x,
                x + 1 < w,
                y + 1 < h,
        ;
    }
    let i = px_index(w, x, y, 0) as int;
    assert(i == p * 4);
    let q = quantize(d[i], d[i + 1], d[i + 2]);
    let er = d[i] - q;
    let eg = d[i + 1] - q;
    let eb = d[i + 2] - q;
    let d1 = d.update(i, q).update(i + 1, q).update(i + 2, q);
    let t2 = px_index(w, x + 1, y, 0) as int;
    let d2 = if x + 1 < w {
        spread(d1, t2, er, eg, eb, 7)
    } else {
        d1
    };
    let t3 = px_index(w, (x - 1) as nat, y + 1, 0) as int;
    let d3 = if x > 0 && y + 1 < h {
        spread(d2, t3, er, eg, eb, 3)
    } else {
        d2
    };
    let t4 = px_index(w, x, y + 1, 0) as int;
    let d4 = if y + 1 < h {
        spread(d3, t4, er, eg, eb, 5)
    } else {
        d3
    };
    let t5 = px_index(w, x + 1, y + 1, 0) as int;
    let d5 = if x + 1 < w && y + 1 < h {
        spread(d4, t5, er, eg, eb, 1)
    } else {
        d4
    };
    assert(dither_px(d, w, h, x, y) == d5);
    assert(t2 == (p + 1) * 4);
    assert(x > 0 ==> t3 == (p + w - 1) * 4);
    assert(t4 == (p + w) * 4);
    assert(t5 == (p + w + 1) * 4);
    if x + 1 < w {
        lemma_spread_frame(d1, t2, er, eg, eb, 7);
    }
    if x > 0 && y + 1 < h {
        lemma_spread_frame(d2, t3, er, eg, eb, 3);
    }
    if y + 1 < h {
        lemma_spread_frame(d3, t4, er, eg, eb, 5);
    }
    if x + 1 < w && y + 1 < h {
        lemma_spread_frame(d4, t5, er, eg, eb, 1);
    }
    assert forall|k: int, c: int|
        0 <= k < w * h && 0 <= c < 4 && (c == 3 || k < p) implies #[trigger] channel(d5, k, c)
        == channel(d, k, c) by {
        let j = k * 4 + c;
        assert(0 <= j < d.len());
        assert(d1[j] == d[j]);
        assert(d2[j] == d1[j]);
        assert(d3[j] == d2[j]);
        assert(d4[j] == d3[j]);
        assert(d5[j] == d4[j]);
    }
    assert forall|c: int| 0 <= c < 3 implies {
        let v = #[trigger] channel(d5, p, c);
        v == 0 || v == 255
    } by {
        let j = p * 4 + c;
        assert(d1[j] == q);
        assert(d2[j] == d1[j]);
        assert(d3[j] == d2[j]);
        assert(d4[j] == d3[j]);
        assert(d5[j] == d4[j]);
    }
}

/// Over the first `y·w + x` pixels in raster order, dithering has left only
/// 0 or 255 in the RGB channels, and no alpha channel has changed.
proof fn lemma_dither_prefix(d: Seq<u8>, w: nat, h: nat, y: nat, x: nat)
    requires
        d.len() == w * h * 4,
        (y < h && x <= w) || (y <= h && x == 0),
    ensures
        raster_fold(w, y, x, d, dither_stepper(w, h)).len() == d.len(),
        forall|k: int|
            0 <= k < w * h ==> #[trigger] channel(raster_fold(w, y, x, d, dither_stepper(w, h)), k, 3)
                == channel(d, k, 3),
        forall|k: int, c: int|
            0 <= k < y * w + x && 0 <= c < 3 ==> {
                let v = #[trigger] channel(raster_fold(w, y, x, d, dither_stepper(w, h)), k, c);
                v == 0 || v == 255
            },
    decreases y, x,
{
    let step = dither_stepper(w, h);
    if x > 0 {
        lemma_dither_prefix(d, w, h, y, (x - 1) as nat);
        let prev = raster_fold(w, y, (x - 1) as nat, d, step);
        lemma_dither_px_frame(prev, w, h, (x - 1) as nat, y);
        assert(raster_fold(w, y, x, d, step) == dither_px(prev, w, h, (x - 1) as nat, y));
        assert(y * w + x - 1 <= w * h) by (nonlinear_arith)
            requires
                x <= w,
                y < h,
        ;
    } else if y > 0 {
        lemma_dither_prefix(d, w, h, (y - 1) as nat, w);
        assert((y - 1) * w + w == y * w) by (nonlinear_arith)
            requires
                y > 0,
        ;
    }
}

/// Dithering leaves every RGB channel at 0 or 255 and every alpha channel as
/// it was.
pub proof fn lemma_dithered_binary(d: Seq<u8>, w: nat, h: nat)
    requires
        d.len() == w * h * 4,
    ensures
        dithered(d, w, h).len() == d.len(),
        forall|k: int| 0 <= k < w * h ==> #[trigger] channel(dithered(d, w, h), k, 3) == channel(d, k, 3),
        forall|k: int, c: int|
            0 <= k < w * h && 0 <= c < 3 ==> {
                let v = #[trigger] channel(dithered(d, w, h), k, c);
                v == 0 || v == 255
            },
{
    lemma_dither_prefix(d, w, h, h, 0);
    assert(h * w == w * h) by (nonlinear_arith);
}

/// Dithering is deterministic: the same buffer always dithers to the same
/// bytes, whatever ran before.
pub proof fn lemma_dithering_deterministic(a: Seq<u8>, b: Seq<u8>, w: nat, h: nat)
    requires
        a == b,
    ensures
        dithered(a, w, h) == dithered(b, w, h),
{
}

fn diffuse(c: u8, error: i32, coef: i32) -> (r: u8)
    requires
        -255 <= error <= 255,
        0 <= coef <= 16,
    ensures
        r == diffuse_channel(c, error as int, coef as int),
{
    proof {
        assert(-4080 <= error * coef <= 4080) by (nonlinear_arith)
            requires
                -255 <= error <= 255,
                0 <= coef <= 16,
        ;
    }
    let v: i32 = 16 * (c as i32) + error * coef;
    if v < 0 {
        0
    } else if v / 16 > 255 {
        255
    } else {
        (v / 16) as u8
    }
}

fn spread_error(data: &mut Vec<u8>, i: usize, er: i32, eg: i32, eb: i32, coef: i32)
    requires
        i + 3 <= old(data)@.len(),
        -255 <= er <= 255,
        -255 <= eg <= 255,
        -255 <= eb <= 255,
        0 <= coef <= 16,
    ensures
        final(data)@ == spread(old(data)@, i as int, er as int, eg as int, eb as int, coef as int),
{
    let _len = data.len();
    let r = diffuse(data[i], er, coef);
    data.set(i, r);
    let g = diffuse(data[i + 1], eg, coef);
    data.set(i + 1, g);
    let b = diffuse(data[i + 2], eb, coef);
    data.set(i + 2, b);
}

/// The byte offset of pixel `(x, y)` in a row-major RGBA buffer of width `w`.
fn pixel_offset(w: u32, h: u32, x: u32, y: u32, len: usize) -> (i: usize)
    requires
        x < w,
        y < h,
        len == w * h * 4,
    ensures
        i == px_index(w as nat, x as nat, y as nat, 0),
        i + 4 <= len,
{
    proof {
        lemma_px_index_bounds(w as nat, h as nat, x as nat, y as nat, 3);
        assert((y as int) * (w as int) <= px_index(w as nat, x as nat, y as nat, 0));
    }
    ((y as usize) * (w as usize) + x as usize) * 4
}

/// One error-diffusion step at pixel `(x, y)` (see [`dither_px`]).
#[verifier::spinoff_prover]
#[verifier::rlimit(40)]
fn dither_pixel(data: &mut Vec<u8>, w: u32, h: u32, x: u32, y: u32)
    requires
        old(data)@.len() == w * h * 4,
        x < w,
        y < h,
    ensures
        final(data)@.len() == old(data)@.len(),
        final(data)@ == dither_px(old(data)@, w as nat, h as nat, x as nat, y as nat),
{
    let ghost d0 = data@;
    let ghost (gw, gh, gx, gy) = (w as nat, h as nat, x as nat, y as nat);
    let len = data.len();
    let i = pixel_offset(w, h, x, y, len);
    let (r, g, b) = (data[i], data[i + 1], data[i + 2]);
    let q: u8 = if (r as u32 + g as u32 + b as u32) / 3 >= 128 {
        255
    } else {
        0
    };
    let er = r as i32 - q as i32;
    let eg = g as i32 - q as i32;
    let eb = b as i32 - q as i32;
    data.set(i, q);
    data.set(i + 1, q);
    data.set(i + 2, q);
    let ghost d1 = data@;
    assert(d1 == d0.update(i as int, q).update(i + 1, q).update(i + 2, q));
    if x + 1 < w {
        let j = pixel_offset(w, h, x + 1, y, len);
        spread_error(data, j, er, eg, eb, 7);
    }
    let ghost d2 = data@;
    assert(d2 == if gx + 1 < gw {
        spread(d1, px_index(gw, gx + 1, gy, 0) as int, er as int, eg as int, eb as int, 7)
    } else {
        d1
    });
    if x > 0 && y + 1 < h {
        let j = pixel_offset(w, h, x - 1, y + 1, len);
        spread_error(data, j, er, eg, eb, 3);
    }
    let ghost d3 = data@;
    assert(d3 == if gx > 0 && gy + 1 < gh {
        spread(d2, px_index(gw, (gx - 1) as nat, gy + 1, 0) as int, er as int, eg as int, eb as int, 3)
    } else {
        d2
    });
    if y + 1 < h {
        let j = pixel_offset(w, h, x, y + 1, len);
        spread_error(data, j, er, eg, eb, 5);
    }
    let ghost d4 = data@;
    assert(d4 == if gy + 1 < gh {
        spread(d3, px_index(gw, gx, gy + 1, 0) as int, er as int, eg as int, eb as int, 5)
    } else {
        d3
    });
    if x + 1 < w && y + 1 < h {
        let j = pixel_offset(w, h, x + 1, y + 1, len);
        spread_error(data, j, er, eg, eb, 1);
    }
    assert(data@ == if gx + 1 < gw && gy + 1 < gh {
        spread(d4, px_index(gw, gx + 1, gy + 1, 0) as int, er as int, eg as int, eb as int, 1)
    } else {
        d4
    });
}

/// Floyd–Steinberg error diffusion over the RGB channels of a well-formed
/// buffer, in raster order.
fn diffuse_errors(img: &mut PixelBuffer)
    requires
        old(img).wf(),
    ensures
        final(img).wf(),
        final(img).width == old(img).width,
        final(img).height == old(img).height,
        final(img).layout == old(img).layout,
        final(img).rgba@ == dithered(old(img).rgba@, old(img).width as nat, old(img).height as nat),
{
    let w = img.width;
    let h = img.height;
    let len = img.rgba.len();
    let ghost gw = w as nat;
    let ghost gh = h as nat;
    let ghost init = img.rgba@;
    let ghost step = dither_stepper(gw, gh);
    let mut y: u32 = 0;
    while y < h
        invariant
            img.wf(),
            img.width == w,
            img.height == h,
            img.layout == old(img).layout,
            init == old(img).rgba@,
            len == img.rgba@.len(),
            gw == w as nat,
            gh == h as nat,
            step == dither_stepper(gw, gh),
            y <= h,
            img.rgba@ == raster_fold(gw, y as nat, 0, init, step),
        decreases h - y,
    {
        let mut x: u32 = 0;
        while x < w
            invariant
                img.wf(),
                img.width == w,
                img.height == h,
                img.layout == old(img).layout,
                init == old(img).rgba@,
                len == img.rgba@.len(),
                gw == w as nat,
                gh == h as nat,
                step == dither_stepper(gw, gh),
                y < h,
                x <= w,
                img.rgba@ == raster_fold(gw, y as nat, x as nat, init, step),
            decreases w - x,
        {
            let ghost before = img.rgba@;
            dither_pixel(&mut img.rgba, w, h, x, y);
            assert(img.rgba@ == step(before, x as nat, y as nat));
            x = x + 1;
        }
        assert(raster_fold(gw, (y + 1) as nat, 0, init, step) == raster_fold(
            gw,
            y as nat,
            gw,
            init,
            step,
        ));
        y = y + 1;
    }
}

/// Floyd–Steinberg dithering of an image in place.
pub struct FloydSteinbergDithering;

impl FloydSteinbergDithering {
    /// Dithers an 8-bit RGB or RGBA image in place (see [`dithered`]); any
    /// other pixel layout fails with `DitheringFailed` and is left as it was.
    pub fn apply_to(img: &mut PixelBuffer) -> (r: Result<(), CoreError>)
        requires
            old(img).wf(),
        ensures
            final(img).wf(),
            final(img).width == old(img).width,
            final(img).height == old(img).height,
            final(img).layout == old(img).layout,
            r is Err <==> old(img).layout == PixelLayout::Other,
            r is Err ==> r == Err::<(), CoreError>(CoreError::DitheringFailed) && final(img).rgba@
                == old(img).rgba@,
            r is Ok ==> final(img).rgba@ == dithered(
                old(img).rgba@,
                old(img).width as nat,
                old(img).height as nat,
            ),
            r is Ok ==> forall|k: int, c: int|
                0 <= k < old(img).width * old(img).height && 0 <= c < 3 ==> {
                    let v = #[trigger] channel(final(img).rgba@, k, c);
                    v == 0 || v == 255
                },
            forall|k: int|
                0 <= k < old(img).width * old(img).height ==> #[trigger] channel(
                    final(img).rgba@,
                    k,
                    3,
                ) == channel(old(img).rgba@, k, 3),
    {
        proof {
            lemma_dithered_binary(img.rgba@, img.width as nat, img.height as nat);
        }
        match img.layout {
            PixelLayout::Rgb8 | PixelLayout::Rgba8 => {
                diffuse_errors(img);
                Ok(())
            },
            PixelLayout::Other => Err(CoreError::DitheringFailed),
        }
    }
}

} // verus!
