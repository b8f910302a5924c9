//! Tonal adjustments: brightness, contrast and saturation as exact
//! per-pixel integer arithmetic over the milli-unit configuration, and
//! the sharpening plan (an unsharp mask or a Gaussian blur) that the
//! composition root carries out, since its kernel takes a fractional
//! sigma the verified code cannot hold.
//!
//! Per channel, in order: add the brightness offset; recenter around
//! 128 and scale by the contrast slope `259*(c+255) / (255*(259-c))`;
//! where saturation is beyond its dead zone, mix each channel away from
//! the luma by `1 + saturation`. All of it is one exact rational per
//! channel, clamped into the byte range and truncated at the end.

use vstd::prelude::*;
use crate::color::Rgb;
use crate::config::Adjustments;
use crate::quant::{alpha_at, get_pixel_rgb, rgb_at, set_pixel_rgb};
use crate::raster::RasterImage;

verus! {

/// Clamp to a symmetric range.
pub open spec fn spec_clamp(v: int, lo: int, hi: int) -> int {
    if v < lo {
        lo
    } else if v > hi {
        hi
    } else {
        v
    }
}

/// Numerator of the contrast slope for contrast `c_m` (thousandths,
/// already clamped): `259 * (c + 255)` scaled to milli units.
pub open spec fn contrast_num(c_m: int) -> int {
    259 * (c_m + 255000)
}

/// Denominator of the contrast slope: `255 * (259 - c)` in milli units.
pub open spec fn contrast_den(c_m: int) -> int {
    255 * (259000 - c_m)
}

/// One channel after brightness and contrast, as a numerator over the
/// denominator `1000 * contrast_den` (or `1000` when the contrast is
/// inside its dead zone of a hundredth).
pub open spec fn bc_num(v: int, b_m: int, c_m: int) -> int {
    let r1 = 1000 * v + spec_clamp(b_m, -255000, 255000);
    let cc = spec_clamp(c_m, -255000, 255000);
    if -10 < cc < 10 {
        r1
    } else {
        (r1 - 128000) * contrast_num(cc) + 128000 * contrast_den(cc)
    }
}

/// The denominator matching `bc_num`.
pub open spec fn bc_den(c_m: int) -> int {
    let cc = spec_clamp(c_m, -255000, 255000);
    if -10 < cc < 10 {
        1000
    } else {
        1000 * contrast_den(cc)
    }
}

/// The saturation mix factor minus one, in thousandths: the configured
/// value scaled by four and clamped to one.
pub open spec fn sat_milli(s_m: int) -> int {
    spec_clamp(4 * s_m, -1000, 1000)
}

/// The final byte of one channel: the exact rational, clamped into the
/// byte range and truncated. `num` and `den` are the channel's rational;
/// `lnum` is the luma numerator over `1000 * den`; `s4` the saturation
/// factor.
pub open spec fn spec_channel_out(num: int, lnum: int, den: int, s4: int) -> int {
    let fnum = if s4 < -1 || s4 > 1 {
        1000 * lnum + (1000 * num - lnum) * (1000 + s4)
    } else {
        1000000 * num
    };
    let fden = 1000000 * den;
    if fnum <= 0 {
        0
    } else if fnum >= 255 * fden {
        255
    } else {
        fnum / fden
    }
}

/// One pixel after brightness, contrast and saturation.
pub open spec fn spec_adjusted_pixel(c: Rgb, adj: Adjustments) -> Rgb {
    let rn = bc_num(c.r as int, adj.brightness as int, adj.contrast as int);
    let gn = bc_num(c.g as int, adj.brightness as int, adj.contrast as int);
    let bn = bc_num(c.b as int, adj.brightness as int, adj.contrast as int);
    let den = bc_den(adj.contrast as int);
    let lnum = 299 * rn + 587 * gn + 114 * bn;
    let s4 = sat_milli(adj.saturation as int);
    Rgb {
        r: spec_channel_out(rn, lnum, den, s4) as u8,
        g: spec_channel_out(gn, lnum, den, s4) as u8,
        b: spec_channel_out(bn, lnum, den, s4) as u8,
    }
}

/// A neutral adjustment maps every color to itself.
pub proof fn lemma_adjust_neutral(c: Rgb, adj: Adjustments)
    requires
        adj.spec_is_neutral(),
    ensures
        spec_adjusted_pixel(c, adj) == c,
{
    let rn = bc_num(c.r as int, 0, 0);
    assert(rn == 1000 * c.r as int);
    let lnum = 299 * rn + 587 * bc_num(c.g as int, 0, 0) + 114 * bc_num(c.b as int, 0, 0);
    assert(spec_channel_out(rn, lnum, 1000, 0) == c.r as int) by {
        if 0 < 1000000 * rn < 255 * 1000000000 {
            assert((1000000 * (1000 * c.r as int)) / (1000000int * 1000) == c.r as int) by (
            nonlinear_arith);
        }
    }
    assert(spec_channel_out(bc_num(c.g as int, 0, 0), lnum, 1000, 0) == c.g as int) by {
        if 0 < 1000000 * (1000 * c.g as int) < 255 * 1000000000 {
            assert((1000000 * (1000 * c.g as int)) / (1000000int * 1000) == c.g as int) by (
            nonlinear_arith);
        }
    }
    assert(spec_channel_out(bc_num(c.b as int, 0, 0), lnum, 1000, 0) == c.b as int) by {
        if 0 < 1000000 * (1000 * c.b as int) < 255 * 1000000000 {
            assert((1000000 * (1000 * c.b as int)) / (1000000int * 1000) == c.b as int) by (
            nonlinear_arith);
        }
    }
}

/// Compute one channel's final byte.
fn channel_out(num: i64, lnum: i64, den: i64, s4: i64) -> (v: u8)
    requires
        -0x8000_0000_0000 <= num <= 0x8000_0000_0000,
        -0x2000_0000_0000_0000 <= lnum <= 0x2000_0000_0000_0000,
        1 <= den <= 0x40_0000_0000,
        -1000 <= s4 <= 1000,
    ensures
        v as int == spec_channel_out(num as int, lnum as int, den as int, s4 as int),
{
    let fnum: i128 = if s4 < -1 || s4 > 1 {
        proof {
            assert((1000 * (num as int) - lnum as int) * (1000 + s4 as int)
                <= 0x10_0000_0000_0000_0000_0000 && (1000 * (num as int) - lnum as int) * (1000
                + s4 as int) >= -0x10_0000_0000_0000_0000_0000) by (nonlinear_arith)
                requires
                    -0x8000_0000_0000 <= num as int <= 0x8000_0000_0000,
                    -0x2000_0000_0000_0000 <= lnum as int <= 0x2000_0000_0000_0000,
                    -1000 <= s4 as int <= 1000,
            ;
        }
        1000 * (lnum as i128) + (1000 * (num as i128) - (lnum as i128)) * (1000 + (s4 as i128))
    } else {
        1000000 * (num as i128)
    };
    let fden: i128 = 1000000 * (den as i128);
    if fnum <= 0 {
        0
    } else if fnum >= 255 * fden {
        255
    } else {
        proof {
            vstd::arithmetic::div_mod::lemma_div_pos_is_pos(fnum as int, fden as int);
            vstd::arithmetic::div_mod::lemma_div_is_ordered(fnum as int, 255 * (fden as int), fden as int);
            assert((255 * (fden as int)) / (fden as int) == 255) by (nonlinear_arith)
                requires
                    fden as int >= 1,
            ;
        }
        (fnum / fden) as u8
    }
}

/// One pixel after brightness, contrast and saturation, executable.
fn adjust_pixel(c: Rgb, adj: &Adjustments) -> (r: Rgb)
    ensures
        r == spec_adjusted_pixel(c, *adj),
{
    let b_m: i64 = clamp_i64(adj.brightness as i64, 255000);
    let c_m: i64 = clamp_i64(adj.contrast as i64, 255000);
    let rn1: i64 = 1000 * (c.r as i64) + b_m;
    let gn1: i64 = 1000 * (c.g as i64) + b_m;
    let bn1: i64 = 1000 * (c.b as i64) + b_m;
    let (rn, gn, bn, den): (i64, i64, i64, i64) = if -10 < c_m && c_m < 10 {
        (rn1, gn1, bn1, 1000)
    } else {
        let cn: i64 = 259 * (c_m + 255000);
        let cd: i64 = 255 * (259000 - c_m);
        proof {
            lemma_bc_bounds(rn1 as int, cn as int, cd as int);
            lemma_bc_bounds(gn1 as int, cn as int, cd as int);
            lemma_bc_bounds(bn1 as int, cn as int, cd as int);
        }
        ((rn1 - 128000) * cn + 128000 * cd, (gn1 - 128000) * cn + 128000 * cd, (bn1 - 128000) * cn
            + 128000 * cd, 1000 * cd)
    };
    proof {
        assert(299 * (rn as int) + 587 * (gn as int) + 114 * (bn as int)
            <= 0x2000_0000_0000_0000 && 299 * (rn as int) + 587 * (gn as int) + 114 * (bn as int)
            >= -0x2000_0000_0000_0000) by (nonlinear_arith)
            requires
                -0x8000_0000_0000 <= rn as int <= 0x8000_0000_0000,
                -0x8000_0000_0000 <= gn as int <= 0x8000_0000_0000,
                -0x8000_0000_0000 <= bn as int <= 0x8000_0000_0000,
        ;
    }
    let lnum: i64 = 299 * rn + 587 * gn + 114 * bn;
    let s4: i64 = clamp_i64(4 * (adj.saturation as i64), 1000);
    Rgb {
        r: channel_out(rn, lnum, den, s4),
        g: channel_out(gn, lnum, den, s4),
        b: channel_out(bn, lnum, den, s4),
    }
}

/// Clamp to `-bound ..= bound`.
fn clamp_i64(v: i64, bound: i64) -> (r: i64)
    requires
        bound >= 0,
    ensures
        r as int == spec_clamp(v as int, -(bound as int), bound as int),
{
    if v < -bound {
        -bound
    } else if v > bound {
        bound
    } else {
        v
    }
}

/// The brightness-and-contrast numerator stays inside 64 bits.
proof fn lemma_bc_bounds(r1: int, cn: int, cd: int)
    requires
        -255000 <= r1 <= 510000,
        0 <= cn <= 259 * 510000,
        0 <= cd <= 255 * 514000,
    ensures
        -0x8000_0000_0000 <= (r1 - 128000) * cn + 128000 * cd <= 0x8000_0000_0000,
{
    assert(-0x8000_0000_0000 <= (r1 - 128000) * cn + 128000 * cd <= 0x8000_0000_0000) by (
    nonlinear_arith)
        requires
            -255000 <= r1 <= 510000,
            0 <= cn <= 259 * 510000,
            0 <= cd <= 255 * 514000,
    ;
}

/// Apply brightness, contrast and saturation to every pixel of the
/// raster, in place; alpha is untouched. A neutral adjustment leaves
/// every byte unchanged.
pub fn apply_adjustments_fast(img: &mut RasterImage, adj: &Adjustments)
    requires
        old(img).wf(),
    ensures
        final(img).wf(),
        final(img).width == old(img).width,
        final(img).height == old(img).height,
        final(img).pixels@.len() == old(img).pixels@.len(),
        forall|p: int|
            0 <= p < old(img).pixels@.len() / 4 ==> rgb_at(final(img).pixels@, p)
                == spec_adjusted_pixel(#[trigger] rgb_at(old(img).pixels@, p), *adj),
        forall|p: int|
            0 <= p < old(img).pixels@.len() / 4 ==> #[trigger] alpha_at(final(img).pixels@, p)
                == alpha_at(old(img).pixels@, p),
        adj.spec_is_neutral() ==> final(img).pixels@ == old(img).pixels@,
{
    let ghost orig = img.pixels@;
    let count: usize = img.pixels.len() / 4;
    let mut p: usize = 0;
    while p < count
        invariant
            img.wf(),
            img.width == old(img).width,
            img.height == old(img).height,
            img.pixels@.len() == orig.len(),
            orig == old(img).pixels@,
            count == orig.len() / 4,
            p <= count,
            forall|q: int| p <= q < count ==> rgb_at(img.pixels@, q) == rgb_at(orig, q),
            forall|q: int|
                0 <= q < p ==> rgb_at(img.pixels@, q) == spec_adjusted_pixel(
                    #[trigger] rgb_at(orig, q),
                    *adj,
                ),
            forall|q: int|
                0 <= q < count ==> #[trigger] alpha_at(img.pixels@, q) == alpha_at(orig, q),
            forall|i: int| 4 * count <= i < orig.len() ==> img.pixels@[i] == orig[i],
        decreases count - p,
    {
        let c = get_pixel_rgb(&img.pixels, p);
        let nc = adjust_pixel(c, adj);
        set_pixel_rgb(&mut img.pixels, p, nc);
        p = p + 1;
    }
    proof {
        if adj.spec_is_neutral() {
            assert forall|i: int| 0 <= i < orig.len() implies img.pixels@[i] == orig[i] by {
                let q = i / 4;
                let k = i % 4;
                vstd::arithmetic::div_mod::lemma_fundamental_div_mod(i, 4);
                if q < count as int {
                    lemma_adjust_neutral(rgb_at(orig, q), *adj);
                    assert(rgb_at(img.pixels@, q) == rgb_at(orig, q));
                    assert(alpha_at(img.pixels@, q) == alpha_at(orig, q));
                    if k == 0 {
                        assert(img.pixels@[4 * q] == orig[4 * q]);
                    } else if k == 1 {
                        assert(img.pixels@[4 * q + 1] == orig[4 * q + 1]);
                    } else if k == 2 {
                        assert(img.pixels@[4 * q + 2] == orig[4 * q + 2]);
                    } else {
                        assert(img.pixels@[4 * q + 3] == orig[4 * q + 3]);
                    }
                }
            }
            assert(img.pixels@ =~= orig);
        }
    }
}

/// How the sharpening stage is carried out: an unsharp mask for a
/// positive sharpness, a Gaussian blur for a negative one, with the
/// kernel sigma `0.8 + 1.6 * |sharpness| / 5` held in thousandths.
#[derive(Clone, Copy, Debug, PartialEq, Eq, Structural)]
pub struct SharpenPlan {
    /// Unsharp mask when true, Gaussian blur when false.
    pub sharpen: bool,
    /// Kernel sigma in thousandths.
    pub sigma_milli: u32,
    /// Threshold of the unsharp mask.
    pub threshold: i32,
}

/// The amount of sharpening in thousandths: `|sharpness| / 5` of the
/// value clamped to five units, at most one.
pub open spec fn spec_sharpen_amount(s_m: int) -> int {
    let cl = spec_clamp(s_m, -5000, 5000);
    let a = if cl < 0 {
        -cl
    } else {
        cl
    };
    a / 5
}

/// The sharpening the adjustments ask for: none inside the dead zone of
/// a hundredth, otherwise the plan with the sigma formula above.
pub open spec fn spec_sharpen_plan(adj: Adjustments) -> Option<SharpenPlan> {
    let s_m = adj.sharpness as int;
    if -10 < s_m < 10 {
        None
    } else {
        Some(
            SharpenPlan {
                sharpen: spec_clamp(s_m, -5000, 5000) > 0,
                sigma_milli: (800 + spec_sharpen_amount(s_m) * 8 / 5) as u32,
                threshold: 1,
            },
        )
    }
}

/// The sharpening stage the composition root must run after the color
/// adjustments, if any. Zero sharpness, and anything inside the dead
/// zone of a hundredth, asks for none.
pub fn sharpen_plan(adj: &Adjustments) -> (r: Option<SharpenPlan>)
    ensures
        r == spec_sharpen_plan(*adj),
        adj.sharpness == 0 ==> r is None,
{
    let s_m: i64 = adj.sharpness as i64;
    if -10 < s_m && s_m < 10 {
        None
    } else {
        let cl = clamp_i64(s_m, 5000);
        let a: i64 = if cl < 0 {
            -cl
        } else {
            cl
        };
        let amount: i64 = a / 5;
        assert(amount <= 1000);
        Some(
            SharpenPlan {
                sharpen: cl > 0,
                sigma_milli: (800 + amount * 8 / 5) as u32,
                threshold: 1,
            },
        )
    }
}

/// Apply brightness, contrast and saturation to the pixels inside the
/// content rectangle only, leaving the padding untouched; alpha is
/// untouched everywhere. A neutral adjustment changes nothing.
#[verifier::loop_isolation(false)]
pub fn apply_adjustments_rect(img: &mut RasterImage, adj: &Adjustments, x0: u32, y0: u32, rw: u32, rh: u32)
    requires
        old(img).wf(),
    ensures
        final(img).wf(),
        final(img).width == old(img).width,
        final(img).height == old(img).height,
        forall|p: int|
            0 <= p < old(img).pixels@.len() / 4 && crate::raster::in_rect(
                p,
                old(img).width as int,
                x0 as int,
                y0 as int,
                rw as int,
                rh as int,
            ) ==> #[trigger] rgb_at(final(img).pixels@, p) == spec_adjusted_pixel(
                rgb_at(old(img).pixels@, p),
                *adj,
            ),
        forall|p: int|
            0 <= p < old(img).pixels@.len() / 4 && !crate::raster::in_rect(
                p,
                old(img).width as int,
                x0 as int,
                y0 as int,
                rw as int,
                rh as int,
            ) ==> #[trigger] rgb_at(final(img).pixels@, p) == rgb_at(old(img).pixels@, p),
        forall|p: int|
            0 <= p < old(img).pixels@.len() / 4 ==> #[trigger] alpha_at(final(img).pixels@, p)
                == alpha_at(old(img).pixels@, p),
        adj.spec_is_neutral() ==> final(img).pixels@ == old(img).pixels@,
{
    let ghost orig = img.pixels@;
    let w: usize = img.width as usize;
    let h: usize = img.height as usize;
    let total: usize = img.pixels.len();
    let count: usize = total / 4;
    proof {
        assert(count == (img.width as int) * (img.height as int)) by (nonlinear_arith)
            requires
                total == (img.width as int) * (img.height as int) * 4,
                count == total / 4,
        ;
    }
    let mut p: usize = 0;
    while p < count
        invariant
            img.wf(),
            img.width == old(img).width,
            img.height == old(img).height,
            img.pixels@.len() == orig.len(),
            p <= count,
            forall|q: int|
                0 <= q < p && crate::raster::in_rect(
                    q,
                    w as int,
                    x0 as int,
                    y0 as int,
                    rw as int,
                    rh as int,
                ) ==> #[trigger] rgb_at(img.pixels@, q) == spec_adjusted_pixel(
                    rgb_at(orig, q),
                    *adj,
                ),
            forall|q: int|
                0 <= q < count && !(q < p && crate::raster::in_rect(
                    q,
                    w as int,
                    x0 as int,
                    y0 as int,
                    rw as int,
                    rh as int,
                )) ==> #[trigger] rgb_at(img.pixels@, q) == rgb_at(orig, q),
            forall|q: int|
                0 <= q < count ==> #[trigger] alpha_at(img.pixels@, q) == alpha_at(orig, q),
        decreases count - p,
    {
        proof {
            assert(w >= 1 && h >= 1) by (nonlinear_arith)
                requires
                    p < count,
                    count == w * h,
                    0 <= p,
            ;
        }
        let x: usize = p % w;
        let y: usize = p / w;
        let inside: bool = x as u64 >= x0 as u64 && (x as u64) - (x0 as u64) < rw as u64
            && y as u64 >= y0 as u64 && (y as u64) - (y0 as u64) < rh as u64;
        let ghost prev = img.pixels@;
        if inside {
            let c = get_pixel_rgb(&img.pixels, p);
            let nc = adjust_pixel(c, adj);
            set_pixel_rgb(&mut img.pixels, p, nc);
        }
        proof {
            assert(inside == crate::raster::in_rect(
                p as int,
                w as int,
                x0 as int,
                y0 as int,
                rw as int,
                rh as int,
            ));
            assert forall|q: int|
                0 <= q < p + 1 && crate::raster::in_rect(
                    q,
                    w as int,
                    x0 as int,
                    y0 as int,
                    rw as int,
                    rh as int,
                ) implies #[trigger] rgb_at(img.pixels@, q) == spec_adjusted_pixel(
                rgb_at(orig, q),
                *adj,
            ) by {
                if q != p {
                    assert(rgb_at(prev, q) == spec_adjusted_pixel(rgb_at(orig, q), *adj));
                }
            }
            assert forall|q: int|
                0 <= q < count && !(q < p + 1 && crate::raster::in_rect(
                    q,
                    w as int,
                    x0 as int,
                    y0 as int,
                    rw as int,
                    rh as int,
                )) implies #[trigger] rgb_at(img.pixels@, q) == rgb_at(orig, q) by {
                if q == p {
                    assert(!inside);
                } else {
                    assert(rgb_at(img.pixels@, q) == rgb_at(prev, q));
                    assert(rgb_at(prev, q) == rgb_at(orig, q));
                }
            }
        }
        p = p + 1;
    }
    proof {
        if adj.spec_is_neutral() {
            assert forall|i: int| 0 <= i < orig.len() implies img.pixels@[i] == orig[i] by {
                let q = i / 4;
                let k = i % 4;
                vstd::arithmetic::div_mod::lemma_fundamental_div_mod(i, 4);
                if q < count as int {
                    lemma_adjust_neutral(rgb_at(orig, q), *adj);
                    assert(rgb_at(img.pixels@, q) == rgb_at(orig, q));
                    assert(alpha_at(img.pixels@, q) == alpha_at(orig, q));
                    if k == 0 {
                        assert(img.pixels@[4 * q] == orig[4 * q]);
                    } else if k == 1 {
                        assert(img.pixels@[4 * q + 1] == orig[4 * q + 1]);
                    } else if k == 2 {
                        assert(img.pixels@[4 * q + 2] == orig[4 * q + 2]);
                    } else {
                        assert(img.pixels@[4 * q + 3] == orig[4 * q + 3]);
                    }
                }
            }
            assert(img.pixels@ =~= orig);
        }
    }
}

} // verus!
