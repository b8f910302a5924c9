//! The timestamp overlay: layout of a formatted date string on the
//! canvas, automatic contrast, a solid background box or a full-width
//! banner strip, an optional outline, and per-pixel alpha-compositing
//! of glyph coverage.
//!
//! Glyph rasterization itself takes fractional font scales the verified
//! code cannot hold, so the composition root rasterizes the text (one
//! coverage grid per glyph, plus line metrics) and injects it here; all
//! placement, sampling and blending arithmetic is verified.

use vstd::prelude::*;
use std::fmt::Write;
use crate::color::{spec_luma_milli, luma_milli, Rgb};
use crate::config::{Overscan, Timestamp, TimestampColor, TimestampPosition, TimestampStrokeColor};
use crate::raster::{spec_white_pixels, RasterImage};

verus! {

/// Difference floored at zero, as `u32::saturating_sub` computes.
pub open spec fn sat_sub(a: int, b: int) -> int {
    if a >= b {
        a - b
    } else {
        0
    }
}

/// Clamp into the `u32` range.
pub open spec fn clamp_u32(v: int) -> int {
    if v > u32::MAX {
        u32::MAX as int
    } else if v < 0 {
        0
    } else {
        v
    }
}

/// The rasterized coverage of one glyph: its bounding box relative to
/// the text origin, and one coverage byte per cell.
pub struct GlyphRaster {
    pub left: i32,
    pub top: i32,
    pub width: u32,
    pub height: u32,
    pub coverage: Vec<u8>,
}

impl GlyphRaster {
    /// One coverage byte per bounding-box cell.
    pub open spec fn wf(&self) -> bool {
        self.coverage@.len() == self.width as int * self.height as int
    }
}

/// A rasterized text line: its glyphs and the line metrics, each both
/// truncated and rounded up as the two sampling paths use them.
pub struct TextLayout {
    pub glyphs: Vec<GlyphRaster>,
    pub width_trunc: u32,
    pub width_ceil: u32,
    pub height_trunc: u32,
    pub height_ceil: u32,
    pub ascent_ceil: i32,
}

impl TextLayout {
    pub open spec fn wf(&self) -> bool {
        forall|i: int| 0 <= i < self.glyphs@.len() ==> (#[trigger] self.glyphs@[i]).wf()
    }
}

/// A calendar date and time of day, as plain values.
#[derive(Clone, Copy, Debug, PartialEq, Eq, Structural)]
pub struct DateTimeParts {
    pub year: i32,
    pub month: u32,
    pub day: u32,
    pub hour: u32,
    pub minute: u32,
    pub second: u32,
}

/// What chrono renders for a date, a time of day and a format string;
/// a pure function of those values.
pub uninterp spec fn formatted_timestamp(
    year: int,
    month: int,
    day: int,
    hour: int,
    minute: int,
    second: int,
    fmt: Seq<char>,
) -> Seq<char>;

/// Relies on chrono's `NaiveDate::from_ymd_opt`, `and_hms_opt` and
/// `format`: renders the date under the format string, `None` for an
/// invalid date, time, or format.
#[verifier::external_body]
fn format_date_parts(parts: &DateTimeParts, fmt: &str) -> (r: Option<String>)
    ensures
        r matches Some(t) ==> t@ == formatted_timestamp(
            parts.year as int,
            parts.month as int,
            parts.day as int,
            parts.hour as int,
            parts.minute as int,
            parts.second as int,
            fmt@,
        ),
{
    let date = chrono::NaiveDate::from_ymd_opt(parts.year, parts.month, parts.day)?;
    let dt = date.and_hms_opt(parts.hour, parts.minute, parts.second)?;
    let mut out = String::new();
    match write!(out, "{}", dt.format(fmt)) {
        Ok(()) => Some(out),
        Err(_) => None,
    }
}

/// The text the timestamp stage renders: the date under the configured
/// format (default `%Y-%m-%d`); nothing when the stage is disabled, no
/// date is available, or the date or format is invalid.
pub fn timestamp_text(cfg: &Timestamp, date: Option<&DateTimeParts>) -> (r: Option<String>)
    ensures
        !cfg.enabled ==> r is None,
        date is None ==> r is None,
        r matches Some(t) ==> cfg.enabled && (date matches Some(d) && t@ == formatted_timestamp(
            d.year as int,
            d.month as int,
            d.day as int,
            d.hour as int,
            d.minute as int,
            d.second as int,
            match cfg.format {
                Some(f) => f@,
                None => "%Y-%m-%d"@,
            },
        )),
{
    if !cfg.enabled {
        return None;
    }
    let d = match date {
        Some(d) => d,
        None => { return None },
    };
    match &cfg.format {
        Some(f) => format_date_parts(d, f.as_str()),
        None => format_date_parts(d, "%Y-%m-%d"),
    }
}

/// The layout inputs of `calculate_text_position`: where the text is
/// anchored, its measured size, the area it lives in, and the paddings.
pub struct LayoutArea {
    pub position: TimestampPosition,
    pub text_width: u32,
    pub text_height: u32,
    pub area_width: u32,
    pub area_height: u32,
    pub area_y_offset: u32,
    pub overscan: Option<Overscan>,
    pub padding_horizontal: u32,
    pub padding_vertical: u32,
}

/// Horizontal anchor of the text: left, centered, or right inside the
/// overscan-reduced effective width, offset by the padding.
pub open spec fn spec_text_x(p: LayoutArea) -> int {
    let pl = crate::compose::spec_inset(
        match p.overscan {
            Some(o) => o.left as int,
            None => 0,
        },
    );
    let pr = crate::compose::spec_inset(
        match p.overscan {
            Some(o) => o.right as int,
            None => 0,
        },
    );
    let eff_w = sat_sub(p.area_width as int, pl + pr);
    match p.position {
        TimestampPosition::TopLeft | TimestampPosition::BottomLeft => pl
            + p.padding_horizontal as int,
        TimestampPosition::TopCenter | TimestampPosition::BottomCenter => pl + sat_sub(
            eff_w,
            p.text_width as int,
        ) / 2,
        TimestampPosition::TopRight | TimestampPosition::BottomRight => pl + sat_sub(
            eff_w,
            p.text_width as int + p.padding_horizontal as int,
        ),
    }
}

/// Vertical anchor of the text: top or bottom inside the
/// overscan-reduced effective height, offset by the area offset and the
/// padding.
pub open spec fn spec_text_y(p: LayoutArea) -> int {
    let pt = crate::compose::spec_inset(
        match p.overscan {
            Some(o) => o.top as int,
            None => 0,
        },
    );
    let pb = crate::compose::spec_inset(
        match p.overscan {
            Some(o) => o.bottom as int,
            None => 0,
        },
    );
    let eff_h = sat_sub(p.area_height as int, pt + pb);
    match p.position {
        TimestampPosition::TopLeft | TimestampPosition::TopCenter | TimestampPosition::TopRight
            => p.area_y_offset as int + pt + p.padding_vertical as int,
        TimestampPosition::BottomLeft | TimestampPosition::BottomCenter
            | TimestampPosition::BottomRight => p.area_y_offset as int + pt + sat_sub(
            eff_h,
            p.text_height as int + p.padding_vertical as int,
        ),
    }
}

/// Anchor point of the text inside its area, clamped into the `u32`
/// range (which no real canvas comes near).
pub fn calculate_text_position(p: &LayoutArea) -> (r: (u32, u32))
    ensures
        r.0 as int == clamp_u32(spec_text_x(*p)),
        r.1 as int == clamp_u32(spec_text_y(*p)),
{
    let (pl, pr, pt, pb): (u64, u64, u64, u64) = match p.overscan {
        Some(o) => (
            (if o.left < 0 {
                0
            } else {
                o.left as u64
            }),
            (if o.right < 0 {
                0
            } else {
                o.right as u64
            }),
            (if o.top < 0 {
                0
            } else {
                o.top as u64
            }),
            (if o.bottom < 0 {
                0
            } else {
                o.bottom as u64
            }),
        ),
        None => (0, 0, 0, 0),
    };
    let eff_w: u64 = if p.area_width as u64 >= pl + pr {
        p.area_width as u64 - pl - pr
    } else {
        0
    };
    let eff_h: u64 = if p.area_height as u64 >= pt + pb {
        p.area_height as u64 - pt - pb
    } else {
        0
    };
    let x: u64 = match p.position {
        TimestampPosition::TopLeft | TimestampPosition::BottomLeft => pl
            + p.padding_horizontal as u64,
        TimestampPosition::TopCenter | TimestampPosition::BottomCenter => pl + (if eff_w
            >= p.text_width as u64 {
            eff_w - p.text_width as u64
        } else {
            0
        }) / 2,
        TimestampPosition::TopRight | TimestampPosition::BottomRight => pl + (if eff_w
            >= p.text_width as u64 + p.padding_horizontal as u64 {
            eff_w - p.text_width as u64 - p.padding_horizontal as u64
        } else {
            0
        }),
    };
    let y: u64 = match p.position {
        TimestampPosition::TopLeft | TimestampPosition::TopCenter | TimestampPosition::TopRight
            => p.area_y_offset as u64 + pt + p.padding_vertical as u64,
        TimestampPosition::BottomLeft | TimestampPosition::BottomCenter
            | TimestampPosition::BottomRight => p.area_y_offset as u64 + pt + (if eff_h
            >= p.text_height as u64 + p.padding_vertical as u64 {
            eff_h - p.text_height as u64 - p.padding_vertical as u64
        } else {
            0
        }),
    };
    let xr: u32 = if x > u32::MAX as u64 {
        u32::MAX
    } else {
        x as u32
    };
    let yr: u32 = if y > u32::MAX as u64 {
        u32::MAX
    } else {
        y as u32
    };
    (xr, yr)
}

/// The stroke width the configuration allows: the configured width (one
/// by default), at most 30 percent of the font size rounded (between
/// one and sixteen), and at most sixteen.
pub open spec fn spec_stroke_width(cfg: Timestamp) -> int {
    let w = match cfg.stroke_width {
        Some(sw) => sw as int,
        None => 1,
    };
    let w2 = match cfg.font_size {
        Some(sz) => {
            let rel = (3 * sz as int + 5) / 10;
            let rel_cl = if rel < 1 {
                1
            } else if rel > 16 {
                16
            } else {
                rel
            };
            if w <= rel_cl {
                w
            } else {
                rel_cl
            }
        },
        None => w,
    };
    if w2 <= 16 {
        w2
    } else {
        16
    }
}

/// The stroke color: explicit white or black, or the automatic contrast
/// of the fill color (black outline around bright text, white around
/// dark).
pub open spec fn spec_stroke_color(cfg: Timestamp, fill: Rgb) -> Rgb {
    match cfg.stroke_color {
        Some(TimestampStrokeColor::White) => Rgb { r: 255, g: 255, b: 255 },
        Some(TimestampStrokeColor::Black) => Rgb { r: 0, g: 0, b: 0 },
        _ => {
            if spec_luma_milli(fill) / 1000 > 128 {
                Rgb { r: 0, g: 0, b: 0 }
            } else {
                Rgb { r: 255, g: 255, b: 255 }
            }
        },
    }
}

/// Resolve the stroke settings: enabled flag, clamped width, and color.
pub fn resolve_stroke(cfg: &Timestamp, fill: Rgb) -> (r: (bool, u32, Rgb))
    ensures
        r.0 == cfg.stroke_enabled,
        r.1 as int == spec_stroke_width(*cfg),
        r.2 == spec_stroke_color(*cfg, fill),
{
    let mut width: u32 = match cfg.stroke_width {
        Some(sw) => sw,
        None => 1,
    };
    if let Some(sz) = cfg.font_size {
        let rel: u64 = (3 * (sz as u64) + 5) / 10;
        let rel_cl: u32 = if rel < 1 {
            1
        } else if rel > 16 {
            16
        } else {
            rel as u32
        };
        if width > rel_cl {
            width = rel_cl;
        }
    }
    if width > 16 {
        width = 16;
    }
    let stroke_color = match cfg.stroke_color {
        Some(TimestampStrokeColor::White) => Rgb { r: 255, g: 255, b: 255 },
        Some(TimestampStrokeColor::Black) => Rgb { r: 0, g: 0, b: 0 },
        _ => {
            let lum = luma_milli(fill) / 1000;
            if lum > 128 {
                Rgb { r: 0, g: 0, b: 0 }
            } else {
                Rgb { r: 255, g: 255, b: 255 }
            }
        },
    };
    (cfg.stroke_enabled, width, stroke_color)
}

/// A color blended over a pixel under a coverage byte.
pub open spec fn spec_blend_rgb(dst: Rgb, src: Rgb, a: int) -> Rgb {
    Rgb {
        r: crate::raster::spec_blend_channel(dst.r as int, src.r as int, a) as u8,
        g: crate::raster::spec_blend_channel(dst.g as int, src.g as int, a) as u8,
        b: crate::raster::spec_blend_channel(dst.b as int, src.b as int, a) as u8,
    }
}

/// The glyph cell covering pixel `q` of a `w`-wide canvas, given the
/// glyph's absolute position `(gx0, gy0)`: the cell's column offset.
pub open spec fn glyph_gx(q: int, w: int, gx0: int) -> int {
    q % w - gx0
}

/// The covering cell's row offset.
pub open spec fn glyph_gy(q: int, w: int, gy0: int) -> int {
    q / w - gy0
}

/// Pixel `q` lies under the glyph placed at `(gx0, gy0)`.
pub open spec fn under_glyph(q: int, w: int, gx0: int, gy0: int, gw: int, gh: int) -> bool {
    0 <= glyph_gx(q, w, gx0) < gw && 0 <= glyph_gy(q, w, gy0) < gh
}

/// The coverage byte of the cell over pixel `q`.
pub open spec fn cov_at(cov: Seq<u8>, q: int, w: int, gx0: int, gy0: int, gw: int) -> int {
    cov[glyph_gy(q, w, gy0) * gw + glyph_gx(q, w, gx0)] as int
}

/// The canvas buffer after one glyph is alpha-composited at base
/// position `(bx, by)`: under every covered cell with positive coverage
/// the color channels are blended by the coverage, alpha and everything
/// else unchanged.
pub open spec fn spec_stamp_glyph(
    c: Seq<u8>,
    w: int,
    glyph: GlyphRaster,
    color: Rgb,
    bx: int,
    by: int,
) -> Seq<u8> {
    Seq::new(
        c.len(),
        |i: int|
            {
                let p = i / 4;
                let ch = i % 4;
                if ch < 3 && under_glyph(p, w, bx, by, glyph.width as int, glyph.height as int)
                    && cov_at(glyph.coverage@, p, w, bx, by, glyph.width as int) > 0 {
                    let nc = spec_blend_rgb(
                        crate::quant::rgb_at(c, p),
                        color,
                        cov_at(glyph.coverage@, p, w, bx, by, glyph.width as int),
                    );
                    if ch == 0 {
                        nc.r
                    } else if ch == 1 {
                        nc.g
                    } else {
                        nc.b
                    }
                } else {
                    c[i]
                }
            },
    )
}

/// Blend one coverage cell onto the canvas pixel at `(px_s, py_s)`: a
/// positive coverage inside the canvas blends the color over that one
/// pixel's channels; anything else changes nothing, and alpha never
/// changes.
#[verifier::loop_isolation(false)]
fn stamp_cell(canvas: &mut RasterImage, cov: u8, color: Rgb, px_s: i64, py_s: i64)
    requires
        old(canvas).wf(),
    ensures
        final(canvas).wf(),
        final(canvas).width == old(canvas).width,
        final(canvas).height == old(canvas).height,
        forall|q: int|
            0 <= q < old(canvas).pixels@.len() / 4 && q % (old(canvas).width as int) == px_s as int
                && q / (old(canvas).width as int) == py_s as int && cov > 0
                ==> #[trigger] crate::quant::rgb_at(final(canvas).pixels@, q) == spec_blend_rgb(
                crate::quant::rgb_at(old(canvas).pixels@, q),
                color,
                cov as int,
            ),
        forall|q: int|
            0 <= q < old(canvas).pixels@.len() / 4 && !(q % (old(canvas).width as int)
                == px_s as int && q / (old(canvas).width as int) == py_s as int && cov > 0)
                ==> #[trigger] crate::quant::rgb_at(final(canvas).pixels@, q)
                == crate::quant::rgb_at(old(canvas).pixels@, q),
        forall|q: int|
            0 <= q < old(canvas).pixels@.len() / 4 ==> #[trigger] crate::quant::alpha_at(
                final(canvas).pixels@,
                q,
            ) == crate::quant::alpha_at(old(canvas).pixels@, q),
{
    let w: usize = canvas.width as usize;
    let h: usize = canvas.height as usize;
    let total: usize = canvas.pixels.len();
    let count: usize = total / 4;
    proof {
        assert(count == (canvas.width as int) * (canvas.height as int)) by (nonlinear_arith)
            requires
                total == (canvas.width as int) * (canvas.height as int) * 4,
                count == total / 4,
        ;
    }
    if cov > 0 && px_s >= 0 && px_s < w as i64 && py_s >= 0 && py_s < h as i64 {
        let px: usize = px_s as usize;
        let py: usize = py_s as usize;
        proof {
            assert((py as int) * (w as int) + px < count) by (nonlinear_arith)
                requires
                    count == (w as int) * (h as int),
                    0 <= (py as int) && (py as int) < h as int,
                    0 <= (px as int) && (px as int) < w as int,
            ;
        }
        let p: usize = py * w + px;
        let c = crate::quant::get_pixel_rgb(&canvas.pixels, p);
        let nc = Rgb {
            r: crate::raster::blend_channel(c.r, color.r, cov),
            g: crate::raster::blend_channel(c.g, color.g, cov),
            b: crate::raster::blend_channel(c.b, color.b, cov),
        };
        crate::quant::set_pixel_rgb(&mut canvas.pixels, p, nc);
        proof {
            vstd::arithmetic::div_mod::lemma_fundamental_div_mod_converse(
                p as int,
                w as int,
                py as int,
                px as int,
            );
            assert forall|q: int|
                0 <= q < count && q % (w as int) == px_s as int && q / (w as int) == py_s as int
                    && cov > 0 implies #[trigger] crate::quant::rgb_at(canvas.pixels@, q)
                == spec_blend_rgb(
                crate::quant::rgb_at(old(canvas).pixels@, q),
                color,
                cov as int,
            ) by {
                vstd::arithmetic::div_mod::lemma_fundamental_div_mod(q, w as int);
                assert(q == (w as int) * (py as int) + (px as int));
                assert((w as int) * (py as int) == (py as int) * (w as int)) by (nonlinear_arith);
                assert(q == p as int);
            }
            assert forall|q: int|
                0 <= q < count && !(q % (w as int) == px_s as int && q / (w as int) == py_s as int
                    && cov > 0) implies #[trigger] crate::quant::rgb_at(canvas.pixels@, q)
                == crate::quant::rgb_at(old(canvas).pixels@, q) by {
                assert(q != p as int);
            }
        }
    } else {
        proof {
            assert forall|q: int|
                0 <= q < count && q % (w as int) == px_s as int && q / (w as int) == py_s as int
                    && cov > 0 implies #[trigger] crate::quant::rgb_at(canvas.pixels@, q)
                == spec_blend_rgb(
                crate::quant::rgb_at(old(canvas).pixels@, q),
                color,
                cov as int,
            ) by {
                vstd::arithmetic::div_mod::lemma_mod_bound(q, w as int);
                assert(0 <= q / (w as int) < h as int) by (nonlinear_arith)
                    requires
                        0 <= q < (w as int) * (h as int),
                        w as int >= 1,
                ;
                assert(false);
            }
        }
    }
}

/// Alpha-composite one glyph's coverage onto the canvas at base
/// position `(bx, by)` (the text anchor plus the glyph's own bounding
/// box offset): under every covered cell with positive coverage the
/// color is blended over the pixel by the coverage, the pixel's alpha
/// and everything else stay untouched; cells outside the canvas are
/// clipped.
#[verifier::loop_isolation(false)]
pub fn stamp_glyph(canvas: &mut RasterImage, glyph: &GlyphRaster, color: Rgb, bx: i64, by: i64)
    requires
        old(canvas).wf(),
        glyph.wf(),
        -0x1_0000_0000_0000 <= bx <= 0x1_0000_0000_0000,
        -0x1_0000_0000_0000 <= by <= 0x1_0000_0000_0000,
    ensures
        final(canvas).wf(),
        final(canvas).width == old(canvas).width,
        final(canvas).height == old(canvas).height,
        forall|q: int|
            0 <= q < old(canvas).pixels@.len() / 4 && under_glyph(
                q,
                old(canvas).width as int,
                bx as int,
                by as int,
                glyph.width as int,
                glyph.height as int,
            ) && cov_at(
                glyph.coverage@,
                q,
                old(canvas).width as int,
                bx as int,
                by as int,
                glyph.width as int,
            ) > 0 ==> #[trigger] crate::quant::rgb_at(final(canvas).pixels@, q) == spec_blend_rgb(
                crate::quant::rgb_at(old(canvas).pixels@, q),
                color,
                cov_at(
                    glyph.coverage@,
                    q,
                    old(canvas).width as int,
                    bx as int,
                    by as int,
                    glyph.width as int,
                ),
            ),
        forall|q: int|
            0 <= q < old(canvas).pixels@.len() / 4 && !(under_glyph(
                q,
                old(canvas).width as int,
                bx as int,
                by as int,
                glyph.width as int,
                glyph.height as int,
            ) && cov_at(
                glyph.coverage@,
                q,
                old(canvas).width as int,
                bx as int,
                by as int,
                glyph.width as int,
            ) > 0) ==> #[trigger] crate::quant::rgb_at(final(canvas).pixels@, q)
                == crate::quant::rgb_at(old(canvas).pixels@, q),
        forall|q: int|
            0 <= q < old(canvas).pixels@.len() / 4 ==> #[trigger] crate::quant::alpha_at(
                final(canvas).pixels@,
                q,
            ) == crate::quant::alpha_at(old(canvas).pixels@, q),
        final(canvas).pixels@ == spec_stamp_glyph(
            old(canvas).pixels@,
            old(canvas).width as int,
            *glyph,
            color,
            bx as int,
            by as int,
        ),
{
    let ghost orig = canvas.pixels@;
    let w: usize = canvas.width as usize;
    let total: usize = canvas.pixels.len();
    let count: usize = total / 4;
    let gw: usize = glyph.width as usize;
    let gh: usize = glyph.height as usize;
    let clen: usize = glyph.coverage.len();
    let mut gy: usize = 0;
    while gy < gh
        invariant
            canvas.wf(),
            canvas.width == old(canvas).width,
            canvas.height == old(canvas).height,
            canvas.pixels@.len() == orig.len(),
            gy <= gh,
            forall|q: int|
                0 <= q < count && under_glyph(
                    q,
                    w as int,
                    bx as int,
                    by as int,
                    gw as int,
                    gh as int,
                ) && glyph_gy(q, w as int, by as int) < gy && cov_at(
                    glyph.coverage@,
                    q,
                    w as int,
                    bx as int,
                    by as int,
                    gw as int,
                ) > 0 ==> #[trigger] crate::quant::rgb_at(canvas.pixels@, q) == spec_blend_rgb(
                    crate::quant::rgb_at(orig, q),
                    color,
                    cov_at(glyph.coverage@, q, w as int, bx as int, by as int, gw as int),
                ),
            forall|q: int|
                0 <= q < count && !(under_glyph(
                    q,
                    w as int,
                    bx as int,
                    by as int,
                    gw as int,
                    gh as int,
                ) && glyph_gy(q, w as int, by as int) < gy && cov_at(
                    glyph.coverage@,
                    q,
                    w as int,
                    bx as int,
                    by as int,
                    gw as int,
                ) > 0) ==> #[trigger] crate::quant::rgb_at(canvas.pixels@, q)
                    == crate::quant::rgb_at(orig, q),
            forall|q: int|
                0 <= q < count ==> #[trigger] crate::quant::alpha_at(canvas.pixels@, q)
                    == crate::quant::alpha_at(orig, q),
        decreases gh - gy,
    {
        let py_s: i64 = by + (gy as i64);
        let mut gx: usize = 0;
        while gx < gw
            invariant
                canvas.wf(),
                canvas.width == old(canvas).width,
                canvas.height == old(canvas).height,
                canvas.pixels@.len() == orig.len(),
                gy < gh,
                gx <= gw,
                forall|q: int|
                    0 <= q < count && under_glyph(
                        q,
                        w as int,
                        bx as int,
                        by as int,
                        gw as int,
                        gh as int,
                    ) && (glyph_gy(q, w as int, by as int) < gy || (glyph_gy(
                        q,
                        w as int,
                        by as int,
                    ) == gy && glyph_gx(q, w as int, bx as int) < gx)) && cov_at(
                        glyph.coverage@,
                        q,
                        w as int,
                        bx as int,
                        by as int,
                        gw as int,
                    ) > 0 ==> #[trigger] crate::quant::rgb_at(canvas.pixels@, q) == spec_blend_rgb(
                        crate::quant::rgb_at(orig, q),
                        color,
                        cov_at(glyph.coverage@, q, w as int, bx as int, by as int, gw as int),
                    ),
                forall|q: int|
                    0 <= q < count && !(under_glyph(
                        q,
                        w as int,
                        bx as int,
                        by as int,
                        gw as int,
                        gh as int,
                    ) && (glyph_gy(q, w as int, by as int) < gy || (glyph_gy(
                        q,
                        w as int,
                        by as int,
                    ) == gy && glyph_gx(q, w as int, bx as int) < gx)) && cov_at(
                        glyph.coverage@,
                        q,
                        w as int,
                        bx as int,
                        by as int,
                        gw as int,
                    ) > 0) ==> #[trigger] crate::quant::rgb_at(canvas.pixels@, q)
                        == crate::quant::rgb_at(orig, q),
                forall|q: int|
                    0 <= q < count ==> #[trigger] crate::quant::alpha_at(canvas.pixels@, q)
                        == crate::quant::alpha_at(orig, q),
            decreases gw - gx,
        {
            proof {
                assert((gy as int) * (gw as int) + gx < clen as int) by (nonlinear_arith)
                    requires
                        clen as int == (gw as int) * (gh as int),
                        0 <= (gy as int) && (gy as int) < gh as int,
                        0 <= (gx as int) && (gx as int) < gw as int,
                ;
            }
            let v = glyph.coverage[gy * gw + gx];
            let px_s: i64 = bx + (gx as i64);
            let ghost prev = canvas.pixels@;
            stamp_cell(canvas, v, color, px_s, py_s);
            proof {
                assert forall|q: int|
                    0 <= q < count && under_glyph(
                        q,
                        w as int,
                        bx as int,
                        by as int,
                        gw as int,
                        gh as int,
                    ) && (glyph_gy(q, w as int, by as int) < gy || (glyph_gy(
                        q,
                        w as int,
                        by as int,
                    ) == gy && glyph_gx(q, w as int, bx as int) < gx + 1)) && cov_at(
                        glyph.coverage@,
                        q,
                        w as int,
                        bx as int,
                        by as int,
                        gw as int,
                    ) > 0 implies #[trigger] crate::quant::rgb_at(canvas.pixels@, q)
                    == spec_blend_rgb(
                    crate::quant::rgb_at(orig, q),
                    color,
                    cov_at(glyph.coverage@, q, w as int, bx as int, by as int, gw as int),
                ) by {
                    if glyph_gy(q, w as int, by as int) == gy as int && glyph_gx(
                        q,
                        w as int,
                        bx as int,
                    ) == gx as int {
                        assert(q % (w as int) == px_s as int);
                        assert(q / (w as int) == py_s as int);
                        assert(cov_at(glyph.coverage@, q, w as int, bx as int, by as int, gw as int)
                            == v as int);
                        assert(crate::quant::rgb_at(prev, q) == crate::quant::rgb_at(orig, q));
                        assert(crate::quant::rgb_at(canvas.pixels@, q) == spec_blend_rgb(
                            crate::quant::rgb_at(prev, q),
                            color,
                            v as int,
                        ));
                    } else {
                        assert(!(q % (w as int) == px_s as int && q / (w as int) == py_s as int));
                        assert(crate::quant::rgb_at(canvas.pixels@, q) == crate::quant::rgb_at(
                            prev,
                            q,
                        ));
                    }
                }
                assert forall|q: int|
                    0 <= q < count && !(under_glyph(
                        q,
                        w as int,
                        bx as int,
                        by as int,
                        gw as int,
                        gh as int,
                    ) && (glyph_gy(q, w as int, by as int) < gy || (glyph_gy(
                        q,
                        w as int,
                        by as int,
                    ) == gy && glyph_gx(q, w as int, bx as int) < gx + 1)) && cov_at(
                        glyph.coverage@,
                        q,
                        w as int,
                        bx as int,
                        by as int,
                        gw as int,
                    ) > 0) implies #[trigger] crate::quant::rgb_at(canvas.pixels@, q)
                    == crate::quant::rgb_at(orig, q) by {
                    if q % (w as int) == px_s as int && q / (w as int) == py_s as int && v > 0 {
                        assert(glyph_gx(q, w as int, bx as int) == gx as int);
                        assert(glyph_gy(q, w as int, by as int) == gy as int);
                        assert(cov_at(glyph.coverage@, q, w as int, bx as int, by as int, gw as int)
                            == v as int);
                        assert(false);
                    } else {
                        assert(crate::quant::rgb_at(canvas.pixels@, q) == crate::quant::rgb_at(
                            prev,
                            q,
                        ));
                        assert(crate::quant::rgb_at(prev, q) == crate::quant::rgb_at(orig, q));
                    }
                }
            }
            gx = gx + 1;
        }
        gy = gy + 1;
    }
    proof {
        let ghost target = spec_stamp_glyph(orig, w as int, *glyph, color, bx as int, by as int);
        assert forall|i: int| 0 <= i < orig.len() implies canvas.pixels@[i] == target[i] by {
            let q = i / 4;
            let k = i % 4;
            vstd::arithmetic::div_mod::lemma_fundamental_div_mod(i, 4);
            assert(0 <= q < count as int);
            if k == 3 {
                assert(crate::quant::alpha_at(canvas.pixels@, q) == crate::quant::alpha_at(
                    orig,
                    q,
                ));
                assert(canvas.pixels@[4 * q + 3] == orig[4 * q + 3]);
            } else {
                if under_glyph(q, w as int, bx as int, by as int, gw as int, gh as int) && cov_at(
                    glyph.coverage@,
                    q,
                    w as int,
                    bx as int,
                    by as int,
                    gw as int,
                ) > 0 {
                    assert(crate::quant::rgb_at(canvas.pixels@, q) == spec_blend_rgb(
                        crate::quant::rgb_at(orig, q),
                        color,
                        cov_at(glyph.coverage@, q, w as int, bx as int, by as int, gw as int),
                    ));
                } else {
                    assert(crate::quant::rgb_at(canvas.pixels@, q) == crate::quant::rgb_at(
                        orig,
                        q,
                    ));
                }
                if k == 0 {
                    assert(canvas.pixels@[4 * q] == target[4 * q]);
                } else if k == 1 {
                    assert(canvas.pixels@[4 * q + 1] == target[4 * q + 1]);
                } else {
                    assert(canvas.pixels@[4 * q + 2] == target[4 * q + 2]);
                }
            }
        }
        assert(canvas.pixels@ =~= target);
    }
}

/// Floor luma of the pixel at `(x, y)`, as the brightness sampler
/// truncates it.
pub open spec fn pixel_luma_floor(s: Seq<u8>, w: int, x: int, y: int) -> int {
    spec_luma_milli(crate::quant::rgb_at(s, y * w + x)) / 1000
}

/// Sum of the floor lumas of `n` pixels of row `y` starting at `x0`.
pub open spec fn row_luma_sum(s: Seq<u8>, w: int, y: int, x0: int, n: int) -> int
    decreases n,
{
    if n <= 0 {
        0
    } else {
        row_luma_sum(s, w, y, x0, n - 1) + pixel_luma_floor(s, w, x0 + n - 1, y)
    }
}

/// Sum of the floor lumas over a rectangle of `nx` columns starting at
/// `x0` and `ny` rows starting at `y0`.
pub open spec fn region_luma_sum(s: Seq<u8>, w: int, x0: int, nx: int, y0: int, ny: int) -> int
    decreases ny,
{
    if ny <= 0 {
        0
    } else {
        region_luma_sum(s, w, x0, nx, y0, ny - 1) + row_luma_sum(s, w, y0 + ny - 1, x0, nx)
    }
}

/// The text color the automatic contrast picks: sample the floor luma
/// of the pixels around where the text will sit (five pixels of margin,
/// clipped at the canvas edges), and choose black text over a bright
/// region (average above 128), else white; black where the sample
/// region is empty.
pub open spec fn spec_auto_color(
    s: Seq<u8>,
    w: int,
    h: int,
    tx: int,
    ty: int,
    tw: int,
    th: int,
) -> Rgb {
    let xs = sat_sub(tx, 5);
    let xe = if tx + tw + 5 <= w {
        tx + tw + 5
    } else {
        w
    };
    let ys = sat_sub(ty, 5);
    let ye = if ty + th + 5 <= h {
        ty + th + 5
    } else {
        h
    };
    if xe <= xs || ye <= ys {
        Rgb { r: 0, g: 0, b: 0 }
    } else {
        let total = region_luma_sum(s, w, xs, xe - xs, ys, ye - ys);
        let cnt = (xe - xs) * (ye - ys);
        if total / cnt > 128 {
            Rgb { r: 0, g: 0, b: 0 }
        } else {
            Rgb { r: 255, g: 255, b: 255 }
        }
    }
}

/// Average the brightness of the region the text will occupy and pick
/// the contrasting text color: black over a bright region, else white.
#[verifier::loop_isolation(false)]
pub fn determine_auto_text_color(
    canvas: &RasterImage,
    position: TimestampPosition,
    text_width: u32,
    text_height: u32,
    overscan: Option<Overscan>,
    padding_horizontal: u32,
    padding_vertical: u32,
) -> (r: Rgb)
    requires
        canvas.wf(),
    ensures
        ({
            let area = LayoutArea {
                position,
                text_width,
                text_height,
                area_width: canvas.width,
                area_height: canvas.height,
                area_y_offset: 0,
                overscan,
                padding_horizontal,
                padding_vertical,
            };
            r == spec_auto_color(
                canvas.pixels@,
                canvas.width as int,
                canvas.height as int,
                clamp_u32(spec_text_x(area)),
                clamp_u32(spec_text_y(area)),
                text_width as int,
                text_height as int,
            )
        }),
{
    let w: usize = canvas.width as usize;
    let h: usize = canvas.height as usize;
    let total_len: usize = canvas.pixels.len();
    let count: usize = total_len / 4;
    proof {
        assert(count == (canvas.width as int) * (canvas.height as int)) by (nonlinear_arith)
            requires
                total_len == (canvas.width as int) * (canvas.height as int) * 4,
                count == total_len / 4,
        ;
    }
    let area = LayoutArea {
        position,
        text_width,
        text_height,
        area_width: canvas.width,
        area_height: canvas.height,
        area_y_offset: 0,
        overscan,
        padding_horizontal,
        padding_vertical,
    };
    let (tx, ty) = calculate_text_position(&area);
    let xs: usize = if tx >= 5 {
        (tx - 5) as usize
    } else {
        0
    };
    let xe: usize = if (tx as u64) + (text_width as u64) + 5 <= w as u64 {
        (tx as u64 + text_width as u64 + 5) as usize
    } else {
        w
    };
    let ys: usize = if ty >= 5 {
        (ty - 5) as usize
    } else {
        0
    };
    let ye: usize = if (ty as u64) + (text_height as u64) + 5 <= h as u64 {
        (ty as u64 + text_height as u64 + 5) as usize
    } else {
        h
    };
    if xe <= xs || ye <= ys {
        return Rgb { r: 0, g: 0, b: 0 };
    }
    let mut total: u128 = 0;
    let mut y: usize = ys;
    while y < ye
        invariant
            ys <= y <= ye,
            total as int == region_luma_sum(
                canvas.pixels@,
                w as int,
                xs as int,
                xe as int - xs as int,
                ys as int,
                y as int - ys as int,
            ),
            total <= 256 * (y as u128) * (xe as u128),
        decreases ye - y,
    {
        let mut x: usize = xs;
        let ghost row_base = total as int;
        while x < xe
            invariant
                ys <= y < ye,
                xs <= x <= xe,
                total as int == row_base + row_luma_sum(
                    canvas.pixels@,
                    w as int,
                    y as int,
                    xs as int,
                    x as int - xs as int,
                ),
                row_base <= 256 * (y as int) * (xe as int),
                total <= 256 * (y as u128) * (xe as u128) + 256 * (x as u128),
            decreases xe - x,
        {
            proof {
                assert((y as int) * (w as int) + x < count) by (nonlinear_arith)
                    requires
                        count == (w as int) * (h as int),
                        0 <= (y as int) && (y as int) < h as int,
                        0 <= (x as int) && (x as int) < w as int,
                ;
            }
            let c = crate::quant::get_pixel_rgb(&canvas.pixels, y * w + x);
            let lum: u32 = luma_milli(c) / 1000;
            proof {
                crate::quant::lemma_luma_bound(c);
                assert(256 * (y as int) * (xe as int) <= 0x100_0000_0000_0000_0000) by (
                nonlinear_arith)
                    requires
                        0 <= (y as int) && (y as int) <= 0xFFFF_FFFF,
                        0 <= (xe as int) && (xe as int) <= 0xFFFF_FFFF,
                ;
            }
            total = total + lum as u128;
            x = x + 1;
        }
        proof {
            assert(256 * ((y + 1) as u128) * (xe as u128) == 256 * (y as u128) * (xe as u128) + 256
                * (xe as u128)) by (nonlinear_arith);
        }
        y = y + 1;
    }
    proof {
        assert(((xe - xs) as int) * (((ye - ys)) as int) <= 0x1_0000_0000_0000_0000) by (
        nonlinear_arith)
            requires
                0 <= ((xe - xs) as int) && ((xe - xs) as int) <= 0xFFFF_FFFF,
                0 <= ((ye - ys) as int) && ((ye - ys) as int) <= 0xFFFF_FFFF,
        ;
    }
    let cnt: u128 = ((xe - xs) as u128) * ((ye - ys) as u128);
    proof {
        assert(cnt > 0) by (nonlinear_arith)
            requires
                cnt == ((xe - xs) as u128) * ((ye - ys) as u128),
                xe as int - xs as int >= 1,
                ye as int - ys as int >= 1,
        ;
    }
    let avg: u128 = total / cnt;
    if avg > 128 {
        Rgb { r: 0, g: 0, b: 0 }
    } else {
        Rgb { r: 255, g: 255, b: 255 }
    }
}

/// One pass of glyph stamps at a fixed offset: the first `n` glyphs of
/// the line composited in order, each at the text anchor plus its own
/// bounding-box offset plus `(dx, dy)`.
pub open spec fn stamp_run(
    c: Seq<u8>,
    w: int,
    glyphs: Seq<GlyphRaster>,
    color: Rgb,
    x: int,
    y_base: int,
    dx: int,
    dy: int,
    n: int,
) -> Seq<u8>
    decreases n,
{
    if n <= 0 {
        c
    } else {
        let g = glyphs[n - 1];
        spec_stamp_glyph(
            stamp_run(c, w, glyphs, color, x, y_base, dx, dy, n - 1),
            w,
            g,
            color,
            x + g.left as int + dx,
            y_base + g.top as int + dy,
        )
    }
}

/// The outline pass: the first `k` offsets of the stroke disk in
/// row-major order (`dy` then `dx`, each from `-r`), the center
/// excluded, offsets outside the disk skipped, each stamping every
/// glyph in the stroke color.
pub open spec fn stroke_run(
    c: Seq<u8>,
    w: int,
    glyphs: Seq<GlyphRaster>,
    scolor: Rgb,
    x: int,
    y_base: int,
    r: int,
    k: int,
) -> Seq<u8>
    decreases k,
{
    if k <= 0 {
        c
    } else {
        let prev = stroke_run(c, w, glyphs, scolor, x, y_base, r, k - 1);
        let dy = (k - 1) / (2 * r + 1) - r;
        let dx = (k - 1) % (2 * r + 1) - r;
        if !(dx == 0 && dy == 0) && dx * dx + dy * dy <= r * r {
            stamp_run(prev, w, glyphs, scolor, x, y_base, dx, dy, glyphs.len() as int)
        } else {
            prev
        }
    }
}

/// The text baseline: ascent-aware so glyphs are not vertically
/// clamped; top anchors sit the ascent below the padded top edge,
/// bottom anchors leave the descent above the padded bottom edge.
pub open spec fn spec_text_y_base(
    position: TimestampPosition,
    area_y: int,
    area_height: int,
    overscan: Option<Overscan>,
    padding_vertical: int,
    height_ceil: int,
    ascent_ceil: int,
) -> int {
    let pt = crate::compose::spec_inset(
        match overscan {
            Some(o) => o.top as int,
            None => 0,
        },
    );
    let pb = crate::compose::spec_inset(
        match overscan {
            Some(o) => o.bottom as int,
            None => 0,
        },
    );
    let eff_h = sat_sub(area_height, pt + pb);
    match position {
        TimestampPosition::TopLeft | TimestampPosition::TopCenter | TimestampPosition::TopRight
            => area_y + pt + padding_vertical + ascent_ceil,
        TimestampPosition::BottomLeft | TimestampPosition::BottomCenter
            | TimestampPosition::BottomRight => area_y + pt + (eff_h - padding_vertical) - (
        height_ceil - ascent_ceil),
    }
}

/// The canvas after the text is drawn: nothing for an empty line; else
/// the outline pass (where enabled with a positive width) followed by
/// the fill pass, both anchored at the `calculate_text_position`
/// abscissa for the rounded-up metrics and the ascent-aware baseline.
pub open spec fn spec_render_text(
    c: Seq<u8>,
    w: int,
    h: int,
    layout: TextLayout,
    position: TimestampPosition,
    color: Rgb,
    area_y: int,
    area_height: int,
    area_width: int,
    overscan: Option<Overscan>,
    padding_horizontal: u32,
    padding_vertical: u32,
    stroke_enabled: bool,
    stroke_width: int,
    stroke_color: Rgb,
) -> Seq<u8> {
    if layout.glyphs@.len() == 0 {
        c
    } else {
        let area = (LayoutArea {
            position,
            text_width: layout.width_ceil,
            text_height: layout.height_ceil,
            area_width: area_width as u32,
            area_height: area_height as u32,
            area_y_offset: 0,
            overscan,
            padding_horizontal,
            padding_vertical,
        });
        let x = clamp_u32(spec_text_x(area));
        let yb = spec_text_y_base(
            position,
            area_y,
            area_height,
            overscan,
            padding_vertical as int,
            layout.height_ceil as int,
            layout.ascent_ceil as int,
        );
        let after_stroke = if stroke_enabled && stroke_width > 0 {
            stroke_run(
                c,
                w,
                layout.glyphs@,
                stroke_color,
                x,
                yb,
                stroke_width,
                (2 * stroke_width + 1) * (2 * stroke_width + 1),
            )
        } else {
            c
        };
        stamp_run(after_stroke, w, layout.glyphs@, color, x, yb, 0, 0, layout.glyphs@.len() as int)
    }
}

/// Draw the text onto the canvas: an optional outline pass stamps every
/// glyph at each offset within the stroke-radius disk, then the fill
/// pass stamps every glyph at the anchor; exactly `spec_render_text`.
/// Pixel alphas never change, and an empty layout changes nothing.
#[verifier::loop_isolation(false)]
#[verifier::rlimit(50)]
pub fn render_text_on_canvas(
    canvas: &mut RasterImage,
    layout: &TextLayout,
    position: TimestampPosition,
    color: Rgb,
    area_y: u32,
    area_height: u32,
    area_width: u32,
    overscan: Option<Overscan>,
    padding_horizontal: u32,
    padding_vertical: u32,
    stroke_enabled: bool,
    stroke_width: u32,
    stroke_color: Rgb,
)
    requires
        old(canvas).wf(),
        layout.wf(),
        stroke_width <= 16,
    ensures
        final(canvas).wf(),
        final(canvas).width == old(canvas).width,
        final(canvas).height == old(canvas).height,
        final(canvas).pixels@ == spec_render_text(
            old(canvas).pixels@,
            old(canvas).width as int,
            old(canvas).height as int,
            *layout,
            position,
            color,
            area_y as int,
            area_height as int,
            area_width as int,
            overscan,
            padding_horizontal,
            padding_vertical,
            stroke_enabled,
            stroke_width as int,
            stroke_color,
        ),
        forall|q: int|
            0 <= q < old(canvas).pixels@.len() / 4 ==> #[trigger] crate::quant::alpha_at(
                final(canvas).pixels@,
                q,
            ) == crate::quant::alpha_at(old(canvas).pixels@, q),
        layout.glyphs@.len() == 0 ==> final(canvas).pixels@ == old(canvas).pixels@,
{
    let ghost orig = canvas.pixels@;
    let ghost wi = canvas.width as int;
    let n = layout.glyphs.len();
    if n == 0 {
        return ;
    }
    let area = LayoutArea {
        position,
        text_width: layout.width_ceil,
        text_height: layout.height_ceil,
        area_width,
        area_height,
        area_y_offset: 0,
        overscan,
        padding_horizontal,
        padding_vertical,
    };
    let (x, _) = calculate_text_position(&area);
    let (pt, pb): (u64, u64) = match overscan {
        Some(o) => (
            (if o.top < 0 {
                0
            } else {
                o.top as u64
            }),
            (if o.bottom < 0 {
                0
            } else {
                o.bottom as u64
            }),
        ),
        None => (0, 0),
    };
    let eff_h: i64 = if area_height as u64 >= pt + pb {
        (area_height as u64 - pt - pb) as i64
    } else {
        0
    };
    let y_base: i64 = match position {
        TimestampPosition::TopLeft | TimestampPosition::TopCenter | TimestampPosition::TopRight
            => area_y as i64 + pt as i64 + padding_vertical as i64 + layout.ascent_ceil as i64,
        TimestampPosition::BottomLeft | TimestampPosition::BottomCenter
            | TimestampPosition::BottomRight => area_y as i64 + pt as i64 + (eff_h
            - padding_vertical as i64) - (layout.height_ceil as i64 - layout.ascent_ceil as i64),
    };
    proof {
        assert(y_base as int == spec_text_y_base(
            position,
            area_y as int,
            area_height as int,
            overscan,
            padding_vertical as int,
            layout.height_ceil as int,
            layout.ascent_ceil as int,
        ));
        assert(-0x10_0000_0000 <= y_base as int <= 0x10_0000_0000);
    }
    // Outline pass: stamp each glyph at every offset of the disk.
    if stroke_enabled && stroke_width > 0 {
        let r: i64 = stroke_width as i64;
        let mut dy: i64 = -r;
        proof {
            assert((dy as int + r as int) * (2 * (r as int) + 1) == 0) by (nonlinear_arith)
                requires
                    dy as int + r as int == 0,
            ;
        }
        while dy <= r
            invariant
                canvas.wf(),
                canvas.width == old(canvas).width,
                canvas.height == old(canvas).height,
                canvas.pixels@.len() == orig.len(),
                -r <= dy <= r + 1,
                canvas.pixels@ == stroke_run(
                    orig,
                    wi,
                    layout.glyphs@,
                    stroke_color,
                    x as int,
                    y_base as int,
                    r as int,
                    (dy + r) * (2 * (r as int) + 1),
                ),
            decreases r - dy + 1,
        {
            let mut dx: i64 = -r;
            while dx <= r
                invariant
                    canvas.wf(),
                    canvas.width == old(canvas).width,
                    canvas.height == old(canvas).height,
                    canvas.pixels@.len() == orig.len(),
                    -r <= dx <= r + 1,
                    -r <= dy <= r,
                    canvas.pixels@ == stroke_run(
                        orig,
                        wi,
                        layout.glyphs@,
                        stroke_color,
                        x as int,
                        y_base as int,
                        r as int,
                        (dy + r) * (2 * (r as int) + 1) + (dx + r),
                    ),
                decreases r - dx + 1,
            {
                let ghost k = (dy + r) * (2 * (r as int) + 1) + (dx + r);
                let ghost before = canvas.pixels@;
                proof {
                    assert(0 <= dx * dx <= 256 && 0 <= dy * dy <= 256 && 0 <= r * r <= 256) by (
                    nonlinear_arith)
                        requires
                            -16 <= dx <= 16,
                            -16 <= dy <= 16,
                            0 <= r <= 16,
                    ;
                }
                if !(dx == 0 && dy == 0) && dx * dx + dy * dy <= r * r {
                    let mut g: usize = 0;
                    while g < n
                        invariant
                            canvas.wf(),
                            canvas.width == old(canvas).width,
                            canvas.height == old(canvas).height,
                            canvas.pixels@.len() == orig.len(),
                            n == layout.glyphs@.len(),
                            g <= n,
                            -16 <= dx <= 16,
                            -16 <= dy <= 16,
                            canvas.pixels@ == stamp_run(
                                before,
                                wi,
                                layout.glyphs@,
                                stroke_color,
                                x as int,
                                y_base as int,
                                dx as int,
                                dy as int,
                                g as int,
                            ),
                        decreases n - g,
                    {
                        let gl = &layout.glyphs[g];
                        let bx: i64 = x as i64 + gl.left as i64 + dx;
                        let by: i64 = y_base + gl.top as i64 + dy;
                        stamp_glyph(canvas, gl, stroke_color, bx, by);
                        g = g + 1;
                    }
                }
                proof {
                    lemma_disk_index(r as int, dx as int, dy as int);
                    assert(canvas.pixels@ == stroke_run(
                        orig,
                        wi,
                        layout.glyphs@,
                        stroke_color,
                        x as int,
                        y_base as int,
                        r as int,
                        k + 1,
                    ));
                }
                dx = dx + 1;
            }
            proof {
                assert((dy + 1 + r) * (2 * (r as int) + 1) == (dy + r) * (2 * (r as int) + 1) + (2
                    * (r as int) + 1)) by (nonlinear_arith);
            }
            dy = dy + 1;
        }
        proof {
            assert((2 * (r as int) + 1) * (2 * (r as int) + 1) == (r + 1 + r) * (2 * (r as int)
                + 1)) by (nonlinear_arith);
        }
    }
    // Fill pass.
    let ghost after_stroke = canvas.pixels@;
    let mut g: usize = 0;
    while g < n
        invariant
            canvas.wf(),
            canvas.width == old(canvas).width,
            canvas.height == old(canvas).height,
            canvas.pixels@.len() == orig.len(),
            n == layout.glyphs@.len(),
            g <= n,
            canvas.pixels@ == stamp_run(
                after_stroke,
                wi,
                layout.glyphs@,
                color,
                x as int,
                y_base as int,
                0,
                0,
                g as int,
            ),
        decreases n - g,
    {
        let gl = &layout.glyphs[g];
        let bx: i64 = x as i64 + gl.left as i64;
        let by: i64 = y_base + gl.top as i64;
        stamp_glyph(canvas, gl, color, bx, by);
        g = g + 1;
    }
    proof {
        assert(forall|q: int|
            0 <= q < orig.len() / 4 ==> #[trigger] crate::quant::alpha_at(canvas.pixels@, q)
                == crate::quant::alpha_at(orig, q)) by {
            lemma_stroke_run_alpha(
                orig,
                wi,
                layout.glyphs@,
                stroke_color,
                x as int,
                y_base as int,
                stroke_width as int,
                (2 * (stroke_width as int) + 1) * (2 * (stroke_width as int) + 1),
            );
            lemma_stamp_run_alpha(
                after_stroke,
                wi,
                layout.glyphs@,
                color,
                x as int,
                y_base as int,
                0,
                0,
                layout.glyphs@.len() as int,
            );
        }
    }
}

/// A disk offset's row-major index decodes back to the offset.
proof fn lemma_disk_index(r: int, dx: int, dy: int)
    requires
        0 <= r,
        -r <= dx <= r,
        -r <= dy <= r,
    ensures
        ((dy + r) * (2 * r + 1) + (dx + r)) / (2 * r + 1) == dy + r,
        ((dy + r) * (2 * r + 1) + (dx + r)) % (2 * r + 1) == dx + r,
{
    vstd::arithmetic::div_mod::lemma_fundamental_div_mod_converse(
        (dy + r) * (2 * r + 1) + (dx + r),
        2 * r + 1,
        dy + r,
        dx + r,
    );
}

/// A stamp pass never touches an alpha byte.
proof fn lemma_stamp_run_alpha(
    c: Seq<u8>,
    w: int,
    glyphs: Seq<GlyphRaster>,
    color: Rgb,
    x: int,
    y_base: int,
    dx: int,
    dy: int,
    n: int,
)
    ensures
        stamp_run(c, w, glyphs, color, x, y_base, dx, dy, n).len() == c.len(),
        forall|q: int|
            0 <= q < c.len() / 4 ==> #[trigger] crate::quant::alpha_at(
                stamp_run(c, w, glyphs, color, x, y_base, dx, dy, n),
                q,
            ) == crate::quant::alpha_at(c, q),
    decreases n,
{
    if n > 0 {
        lemma_stamp_run_alpha(c, w, glyphs, color, x, y_base, dx, dy, n - 1);
        let prev = stamp_run(c, w, glyphs, color, x, y_base, dx, dy, n - 1);
        let g = glyphs[n - 1];
        let cur = spec_stamp_glyph(prev, w, g, color, x + g.left as int + dx, y_base + g.top as int
            + dy);
        assert forall|q: int| 0 <= q < c.len() / 4 implies #[trigger] crate::quant::alpha_at(
            cur,
            q,
        ) == crate::quant::alpha_at(prev, q) by {
            vstd::arithmetic::div_mod::lemma_fundamental_div_mod_converse(4 * q + 3, 4, q, 3);
        }
    }
}

/// An outline pass never touches an alpha byte.
proof fn lemma_stroke_run_alpha(
    c: Seq<u8>,
    w: int,
    glyphs: Seq<GlyphRaster>,
    scolor: Rgb,
    x: int,
    y_base: int,
    r: int,
    k: int,
)
    ensures
        stroke_run(c, w, glyphs, scolor, x, y_base, r, k).len() == c.len(),
        forall|q: int|
            0 <= q < c.len() / 4 ==> #[trigger] crate::quant::alpha_at(
                stroke_run(c, w, glyphs, scolor, x, y_base, r, k),
                q,
            ) == crate::quant::alpha_at(c, q),
    decreases k,
{
    if k > 0 {
        lemma_stroke_run_alpha(c, w, glyphs, scolor, x, y_base, r, k - 1);
        let prev = stroke_run(c, w, glyphs, scolor, x, y_base, r, k - 1);
        let dy = (k - 1) / (2 * r + 1) - r;
        let dx = (k - 1) % (2 * r + 1) - r;
        if !(dx == 0 && dy == 0) && dx * dx + dy * dy <= r * r {
            lemma_stamp_run_alpha(prev, w, glyphs, scolor, x, y_base, dx, dy, glyphs.len() as int);
        }
    }
}

/// The background box behind a text layout: anchored at the text
/// position less the expansion (saturating at the canvas origin), and
/// spanning the text's rounded-up size plus twice the expansion. The
/// expansion is four pixels plus the stroke allowance.
pub open spec fn spec_background_box(
    layout: TextLayout,
    position: TimestampPosition,
    overscan: Option<Overscan>,
    padding_horizontal: u32,
    padding_vertical: u32,
    extra_expand: u32,
    w: int,
    h: int,
) -> (int, int, int, int) {
    let area = (LayoutArea {
        position,
        text_width: layout.width_ceil,
        text_height: layout.height_ceil,
        area_width: w as u32,
        area_height: h as u32,
        area_y_offset: 0,
        overscan,
        padding_horizontal,
        padding_vertical,
    });
    let pad = 4 + extra_expand as int;
    (
        sat_sub(clamp_u32(spec_text_x(area)), pad),
        sat_sub(clamp_u32(spec_text_y(area)), pad),
        layout.width_ceil as int + 2 * pad,
        layout.height_ceil as int + 2 * pad,
    )
}

/// The solid white or black box a background color mode asks for.
pub open spec fn spec_background_color(color: TimestampColor) -> Rgb {
    match color {
        TimestampColor::BlackBackground => Rgb { r: 0, g: 0, b: 0 },
        _ => Rgb { r: 255, g: 255, b: 255 },
    }
}

/// The canvas after the text background pass: for a background color
/// mode with a non-empty layout, the expanded box is filled with the
/// opaque background color; anything else leaves the canvas alone.
pub open spec fn spec_text_background(
    c: Seq<u8>,
    w: int,
    h: int,
    layout: TextLayout,
    position: TimestampPosition,
    color: TimestampColor,
    overscan: Option<Overscan>,
    padding_horizontal: u32,
    padding_vertical: u32,
    extra_expand: u32,
) -> Seq<u8> {
    if (color == TimestampColor::WhiteBackground || color == TimestampColor::BlackBackground)
        && layout.glyphs@.len() > 0 {
        let (bx, by, bw, bh) = spec_background_box(
            layout,
            position,
            overscan,
            padding_horizontal,
            padding_vertical,
            extra_expand,
            w,
            h,
        );
        crate::raster::spec_fill_box(c, w, bx, by, bw, bh, spec_background_color(color), 255)
    } else {
        c
    }
}

/// Paint the solid background box behind the text: the text's layout
/// box expanded by four pixels plus the stroke allowance, anchored at
/// the text position (saturating at the canvas origin), filled with the
/// opaque configured background color, everything outside it untouched;
/// a transparent color mode paints nothing, and so does an empty
/// layout.
pub fn add_text_background(
    canvas: &mut RasterImage,
    layout: &TextLayout,
    position: TimestampPosition,
    color: TimestampColor,
    overscan: Option<Overscan>,
    padding_horizontal: u32,
    padding_vertical: u32,
    extra_expand: u32,
)
    requires
        old(canvas).wf(),
    ensures
        final(canvas).wf(),
        final(canvas).width == old(canvas).width,
        final(canvas).height == old(canvas).height,
        !(color == TimestampColor::WhiteBackground || color == TimestampColor::BlackBackground)
            ==> final(canvas).pixels@ == old(canvas).pixels@,
        layout.glyphs@.len() == 0 ==> final(canvas).pixels@ == old(canvas).pixels@,
        (color == TimestampColor::WhiteBackground || color == TimestampColor::BlackBackground)
            && layout.glyphs@.len() > 0 ==> ({
            let (bx, by, bw, bh) = spec_background_box(
                *layout,
                position,
                overscan,
                padding_horizontal,
                padding_vertical,
                extra_expand,
                old(canvas).width as int,
                old(canvas).height as int,
            );
            &&& (forall|q: int|
                0 <= q < old(canvas).pixels@.len() / 4 && crate::raster::in_rect(
                    q,
                    old(canvas).width as int,
                    bx,
                    by,
                    bw,
                    bh,
                ) ==> #[trigger] crate::quant::rgb_at(final(canvas).pixels@, q)
                    == spec_background_color(color) && crate::quant::alpha_at(
                    final(canvas).pixels@,
                    q,
                ) == 255)
            &&& (forall|q: int|
                0 <= q < old(canvas).pixels@.len() / 4 && !crate::raster::in_rect(
                    q,
                    old(canvas).width as int,
                    bx,
                    by,
                    bw,
                    bh,
                ) ==> #[trigger] crate::quant::rgb_at(final(canvas).pixels@, q)
                    == crate::quant::rgb_at(old(canvas).pixels@, q) && crate::quant::alpha_at(
                    final(canvas).pixels@,
                    q,
                ) == crate::quant::alpha_at(old(canvas).pixels@, q))
        }),
        final(canvas).pixels@ == spec_text_background(
            old(canvas).pixels@,
            old(canvas).width as int,
            old(canvas).height as int,
            *layout,
            position,
            color,
            overscan,
            padding_horizontal,
            padding_vertical,
            extra_expand,
        ),
{
    if layout.glyphs.len() == 0 {
        return ;
    }
    let bg: Rgb = match color {
        TimestampColor::WhiteBackground => Rgb { r: 255, g: 255, b: 255 },
        TimestampColor::BlackBackground => Rgb { r: 0, g: 0, b: 0 },
        _ => { return ; },
    };
    let area = LayoutArea {
        position,
        text_width: layout.width_ceil,
        text_height: layout.height_ceil,
        area_width: canvas.width,
        area_height: canvas.height,
        area_y_offset: 0,
        overscan,
        padding_horizontal,
        padding_vertical,
    };
    let (x, y) = calculate_text_position(&area);
    let padding: u64 = 4 + extra_expand as u64;
    let xs: u64 = if x as u64 >= padding {
        x as u64 - padding
    } else {
        0
    };
    let ys: u64 = if y as u64 >= padding {
        y as u64 - padding
    } else {
        0
    };
    let span_w: u64 = layout.width_ceil as u64 + 2 * padding;
    let span_h: u64 = layout.height_ceil as u64 + 2 * padding;
    proof {
        let (bx, by, bw, bh) = spec_background_box(
            *layout,
            position,
            overscan,
            padding_horizontal,
            padding_vertical,
            extra_expand,
            canvas.width as int,
            canvas.height as int,
        );
        assert(xs as int == bx);
        assert(ys as int == by);
        assert(span_w as int == bw);
        assert(span_h as int == bh);
        assert(bg == spec_background_color(color));
    }
    crate::raster::fill_rect(canvas, xs, ys, span_w, span_h, bg, 255);
}

/// The banner strip sits above the photo for the top positions.
pub open spec fn spec_banner_at_top(position: TimestampPosition) -> bool {
    match position {
        TimestampPosition::TopLeft | TimestampPosition::TopCenter | TimestampPosition::TopRight
            => true,
        _ => false,
    }
}

/// Height of the banner strip: the configured one, or the font size
/// plus twice an 8-pixel padding.
pub open spec fn spec_banner_height(cfg: Timestamp) -> int {
    match cfg.banner_height {
        Some(b) => b as int,
        None => (match cfg.font_size {
            Some(f) => f as int,
            None => 24,
        }) + 16,
    }
}

/// The overscan the banner text honours: the side insets always, and of
/// the vertical insets only the edge adjacent to the strip.
pub open spec fn spec_banner_overscan(overscan: Option<Overscan>, at_top: bool) -> Overscan {
    let base = match overscan {
        Some(o) => o,
        None => Overscan { left: 0, right: 0, top: 0, bottom: 0 },
    };
    Overscan {
        left: crate::compose::spec_inset(base.left as int) as i32,
        right: crate::compose::spec_inset(base.right as int) as i32,
        top: if at_top {
            crate::compose::spec_inset(base.top as int) as i32
        } else {
            0
        },
        bottom: if at_top {
            0
        } else {
            crate::compose::spec_inset(base.bottom as int) as i32
        },
    }
}

/// The text color inside the banner: contrasting with a background
/// color mode, else the transparent text color (automatic contrast
/// falls back to black on the solid strip).
pub open spec fn spec_banner_text_color(color: TimestampColor) -> Rgb {
    match color {
        TimestampColor::BlackBackground => Rgb { r: 255, g: 255, b: 255 },
        TimestampColor::WhiteBackground => Rgb { r: 0, g: 0, b: 0 },
        TimestampColor::TransparentWhiteText => Rgb { r: 255, g: 255, b: 255 },
        TimestampColor::TransparentBlackText => Rgb { r: 0, g: 0, b: 0 },
        TimestampColor::TransparentAutoText => Rgb { r: 0, g: 0, b: 0 },
    }
}

/// The banner render: the photo (resized down when a reduced height was
/// reserved) on a white canvas with the strip's rows left for the
/// banner, the strip filled solid, and the text drawn inside the strip
/// under the adjacent-edge overscan.
pub open spec fn spec_banner_pixels(
    img: RasterImage,
    layout: TextLayout,
    position: TimestampPosition,
    color: TimestampColor,
    cfg: Timestamp,
    reduced: Option<u32>,
    overscan: Option<Overscan>,
) -> Seq<u8> {
    let w = img.width as int;
    let fh = match reduced {
        Some(v) => v as int,
        None => img.height as int,
    };
    let bh = spec_banner_height(cfg);
    let at_top = spec_banner_at_top(position);
    let resized = match reduced {
        Some(_) => crate::imgops::triangle_exact_scaled(
            img.width as int,
            img.height as int,
            img.pixels@,
            w,
            fh,
        ),
        None => img.pixels@,
    };
    let placed = crate::raster::spec_overlay(
        w,
        fh + bh,
        spec_white_pixels(w, fh + bh),
        w,
        fh,
        resized,
        0,
        if at_top {
            bh
        } else {
            0
        },
    );
    let banner_y = if at_top {
        0
    } else {
        fh
    };
    let striped = crate::raster::spec_fill_box(
        placed,
        w,
        0,
        banner_y,
        w,
        bh,
        spec_background_color(color),
        255,
    );
    let text_color = spec_banner_text_color(color);
    spec_render_text(
        striped,
        w,
        fh + bh,
        layout,
        position,
        text_color,
        banner_y,
        bh,
        w,
        Some(spec_banner_overscan(overscan, at_top)),
        match cfg.padding_horizontal {
            Some(p) => p,
            None => 16,
        },
        match cfg.padding_vertical {
            Some(p) => p,
            None => 16,
        },
        cfg.stroke_enabled,
        spec_stroke_width(cfg),
        spec_stroke_color(cfg, text_color),
    )
}

/// Render the timestamp as a full-width banner: a strip of the banner
/// height is reserved above or below the photo area (the photo is
/// resized down when a reduced height was applied at composition),
/// filled with the banner color, and the text is drawn inside it with
/// the overscan of the adjacent edges. Exactly `spec_banner_pixels`.
pub fn render_banner_timestamp(
    image: &RasterImage,
    layout: &TextLayout,
    position: TimestampPosition,
    color: TimestampColor,
    cfg: &Timestamp,
    reduced_height: Option<u32>,
    overscan: Option<Overscan>,
) -> (r: RasterImage)
    requires
        image.wf(),
        image.width >= 1,
        image.height >= 1,
        layout.wf(),
        ({
            let fh = match reduced_height {
                Some(v) => v as int,
                None => image.height as int,
            };
            let bh = spec_banner_height(*cfg);
            fh + bh <= u32::MAX && image.width as int * (fh + bh) * 4 <= usize::MAX
        }),
    ensures
        r.wf(),
        r.width == image.width,
        r.height as int == (match reduced_height {
            Some(v) => v as int,
            None => image.height as int,
        }) + spec_banner_height(*cfg),
        r.pixels@ == spec_banner_pixels(
            *image,
            *layout,
            position,
            color,
            *cfg,
            reduced_height,
            overscan,
        ),
{
    let w: u32 = image.width;
    let final_height: u32 = match reduced_height {
        Some(v) => v,
        None => image.height,
    };
    let banner_height: u32 = match cfg.banner_height {
        Some(b) => b,
        None => {
            let fs: u32 = match cfg.font_size {
                Some(f) => f,
                None => 24,
            };
            fs + 16
        },
    };
    let banner_at_top: bool = match position {
        TimestampPosition::TopLeft | TimestampPosition::TopCenter | TimestampPosition::TopRight
            => true,
        _ => false,
    };
    let mut canvas = crate::raster::white_canvas(w, final_height + banner_height);
    let resized: RasterImage = match reduced_height {
        Some(_) => crate::imgops::resize_exact(image, w, final_height),
        None => crate::raster::copy_raster(image),
    };
    let img_y_offset: u32 = if banner_at_top {
        banner_height
    } else {
        0
    };
    let composed = crate::raster::overlay(&canvas, &resized, 0, img_y_offset as usize);
    canvas = composed;
    let banner_y: u32 = if banner_at_top {
        0
    } else {
        final_height
    };
    let banner_color: Rgb = match color {
        TimestampColor::BlackBackground => Rgb { r: 0, g: 0, b: 0 },
        _ => Rgb { r: 255, g: 255, b: 255 },
    };
    crate::raster::fill_rect(
        &mut canvas,
        0,
        banner_y as u64,
        w as u64,
        banner_height as u64,
        banner_color,
        255,
    );
    let text_color: Rgb = match color {
        TimestampColor::BlackBackground => Rgb { r: 255, g: 255, b: 255 },
        TimestampColor::WhiteBackground => Rgb { r: 0, g: 0, b: 0 },
        TimestampColor::TransparentWhiteText => Rgb { r: 255, g: 255, b: 255 },
        TimestampColor::TransparentBlackText => Rgb { r: 0, g: 0, b: 0 },
        TimestampColor::TransparentAutoText => Rgb { r: 0, g: 0, b: 0 },
    };
    let (stroke_enabled, stroke_width, stroke_color) = resolve_stroke(cfg, text_color);
    // Only the overscan edges adjacent to the banner strip apply.
    let base = match overscan {
        Some(o) => o,
        None => Overscan { left: 0, right: 0, top: 0, bottom: 0 },
    };
    let banner_osc = Overscan {
        left: if base.left < 0 {
            0
        } else {
            base.left
        },
        right: if base.right < 0 {
            0
        } else {
            base.right
        },
        top: if banner_at_top {
            if base.top < 0 {
                0
            } else {
                base.top
            }
        } else {
            0
        },
        bottom: if banner_at_top {
            0
        } else {
            if base.bottom < 0 {
                0
            } else {
                base.bottom
            }
        },
    };
    let padding_horizontal: u32 = match cfg.padding_horizontal {
        Some(p) => p,
        None => 16,
    };
    let padding_vertical: u32 = match cfg.padding_vertical {
        Some(p) => p,
        None => 16,
    };
    render_text_on_canvas(
        &mut canvas,
        layout,
        position,
        text_color,
        banner_y,
        banner_height,
        w,
        Some(banner_osc),
        padding_horizontal,
        padding_vertical,
        stroke_enabled,
        stroke_width,
        stroke_color,
    );
    canvas
}

/// The text color of an overlay render: explicit, contrasting with a
/// background box, or the automatic contrast of the sampled region.
pub open spec fn spec_overlay_text_color(
    c: Seq<u8>,
    w: int,
    h: int,
    layout: TextLayout,
    position: TimestampPosition,
    color: TimestampColor,
    overscan: Option<Overscan>,
    padding_horizontal: u32,
    padding_vertical: u32,
) -> Rgb {
    match color {
        TimestampColor::TransparentWhiteText => Rgb { r: 255, g: 255, b: 255 },
        TimestampColor::TransparentBlackText => Rgb { r: 0, g: 0, b: 0 },
        TimestampColor::BlackBackground => Rgb { r: 255, g: 255, b: 255 },
        TimestampColor::WhiteBackground => Rgb { r: 0, g: 0, b: 0 },
        TimestampColor::TransparentAutoText => {
            let area = (LayoutArea {
                position,
                text_width: layout.width_trunc,
                text_height: layout.height_trunc,
                area_width: w as u32,
                area_height: h as u32,
                area_y_offset: 0,
                overscan,
                padding_horizontal,
                padding_vertical,
            });
            spec_auto_color(
                c,
                w,
                h,
                clamp_u32(spec_text_x(area)),
                clamp_u32(spec_text_y(area)),
                layout.width_trunc as int,
                layout.height_trunc as int,
            )
        },
    }
}

/// The canvas after the overlay timestamp: the background box of a
/// background color mode, then the outline and fill passes in the
/// resolved colors.
pub open spec fn spec_overlay_timestamp(
    c: Seq<u8>,
    w: int,
    h: int,
    layout: TextLayout,
    position: TimestampPosition,
    color: TimestampColor,
    overscan: Option<Overscan>,
    cfg: Timestamp,
) -> Seq<u8> {
    let padding_horizontal = match cfg.padding_horizontal {
        Some(p) => p,
        None => 16,
    };
    let padding_vertical = match cfg.padding_vertical {
        Some(p) => p,
        None => 16,
    };
    let text_color = spec_overlay_text_color(
        c,
        w,
        h,
        layout,
        position,
        color,
        overscan,
        padding_horizontal,
        padding_vertical,
    );
    let sw = spec_stroke_width(cfg);
    let sc = spec_stroke_color(cfg, text_color);
    let after_bg = spec_text_background(
        c,
        w,
        h,
        layout,
        position,
        color,
        overscan,
        padding_horizontal,
        padding_vertical,
        if cfg.stroke_enabled {
            sw as u32
        } else {
            0
        },
    );
    spec_render_text(
        after_bg,
        w,
        h,
        layout,
        position,
        text_color,
        0,
        h,
        w,
        overscan,
        padding_horizontal,
        padding_vertical,
        cfg.stroke_enabled,
        sw,
        sc,
    )
}

/// Render the timestamp over the photo: the text color is explicit or
/// chosen by the automatic contrast of the region it will cover; a
/// background color mode paints its solid box first, expanded by the
/// stroke width; the glyphs are then alpha-composited, outline before
/// fill. Exactly `spec_overlay_timestamp`.
pub fn render_overlay_timestamp(
    image: &RasterImage,
    layout: &TextLayout,
    position: TimestampPosition,
    color: TimestampColor,
    overscan: Option<Overscan>,
    cfg: &Timestamp,
) -> (r: RasterImage)
    requires
        image.wf(),
        layout.wf(),
    ensures
        r.wf(),
        r.width == image.width,
        r.height == image.height,
        r.pixels@ == spec_overlay_timestamp(
            image.pixels@,
            image.width as int,
            image.height as int,
            *layout,
            position,
            color,
            overscan,
            *cfg,
        ),
{
    let mut canvas = crate::raster::copy_raster(image);
    let padding_horizontal: u32 = match cfg.padding_horizontal {
        Some(p) => p,
        None => 16,
    };
    let padding_vertical: u32 = match cfg.padding_vertical {
        Some(p) => p,
        None => 16,
    };
    let text_color: Rgb = match color {
        TimestampColor::TransparentWhiteText => Rgb { r: 255, g: 255, b: 255 },
        TimestampColor::TransparentBlackText => Rgb { r: 0, g: 0, b: 0 },
        TimestampColor::BlackBackground => Rgb { r: 255, g: 255, b: 255 },
        TimestampColor::WhiteBackground => Rgb { r: 0, g: 0, b: 0 },
        TimestampColor::TransparentAutoText => determine_auto_text_color(
            &canvas,
            position,
            layout.width_trunc,
            layout.height_trunc,
            overscan,
            padding_horizontal,
            padding_vertical,
        ),
    };
    let (stroke_enabled, stroke_width, stroke_color) = resolve_stroke(cfg, text_color);
    let is_bg = match color {
        TimestampColor::WhiteBackground | TimestampColor::BlackBackground => true,
        _ => false,
    };
    if is_bg {
        add_text_background(
            &mut canvas,
            layout,
            position,
            color,
            overscan,
            padding_horizontal,
            padding_vertical,
            if stroke_enabled {
                stroke_width
            } else {
                0
            },
        );
    }
    let h = canvas.height;
    let w = canvas.width;
    render_text_on_canvas(
        &mut canvas,
        layout,
        position,
        text_color,
        0,
        h,
        w,
        overscan,
        padding_horizontal,
        padding_vertical,
        stroke_enabled,
        stroke_width,
        stroke_color,
    );
    canvas
}

/// The anchor position the timestamp configuration resolves to.
pub open spec fn spec_ts_position(cfg: Timestamp) -> TimestampPosition {
    match cfg.position {
        Some(p) => p,
        None => TimestampPosition::BottomRight,
    }
}

/// The color mode the timestamp configuration resolves to.
pub open spec fn spec_ts_color(cfg: Timestamp) -> TimestampColor {
    match cfg.color {
        Some(c) => c,
        None => TimestampColor::TransparentAutoText,
    }
}

/// The timestamp stage: disabled, or handed no rasterized text, it
/// passes the image through byte for byte; otherwise it renders the
/// injected text layout as a banner strip (`spec_banner_pixels`) or as
/// an overlay (`spec_overlay_timestamp`), under the configured position
/// and color mode.
pub fn render_timestamp(
    image: &RasterImage,
    cfg: &Timestamp,
    reduced_height: Option<u32>,
    layout: Option<&TextLayout>,
    overscan: Option<Overscan>,
) -> (r: RasterImage)
    requires
        image.wf(),
        image.width >= 1,
        image.height >= 1,
        layout matches Some(l) ==> l.wf(),
        cfg.enabled && cfg.full_width_banner && layout is Some ==> ({
            let fh = match reduced_height {
                Some(v) => v as int,
                None => image.height as int,
            };
            let bh = spec_banner_height(*cfg);
            fh + bh <= u32::MAX && image.width as int * (fh + bh) * 4 <= usize::MAX
        }),
    ensures
        r.wf(),
        !cfg.enabled || layout is None ==> r.width == image.width && r.height == image.height
            && r.pixels@ == image.pixels@,
        cfg.enabled && !cfg.full_width_banner ==> (layout matches Some(l) ==> r.width
            == image.width && r.height == image.height && r.pixels@ == spec_overlay_timestamp(
            image.pixels@,
            image.width as int,
            image.height as int,
            *l,
            spec_ts_position(*cfg),
            spec_ts_color(*cfg),
            overscan,
            *cfg,
        )),
        cfg.enabled && cfg.full_width_banner ==> (layout matches Some(l) ==> r.width
            == image.width && r.height as int == (match reduced_height {
            Some(v) => v as int,
            None => image.height as int,
        }) + spec_banner_height(*cfg) && r.pixels@ == spec_banner_pixels(
            *image,
            *l,
            spec_ts_position(*cfg),
            spec_ts_color(*cfg),
            *cfg,
            reduced_height,
            overscan,
        )),
{
    if !cfg.enabled {
        return crate::raster::copy_raster(image);
    }
    let lt = match layout {
        Some(l) => l,
        None => { return crate::raster::copy_raster(image) },
    };
    let position: TimestampPosition = match cfg.position {
        Some(p) => p,
        None => TimestampPosition::BottomRight,
    };
    let color: TimestampColor = match cfg.color {
        Some(c) => c,
        None => TimestampColor::TransparentAutoText,
    };
    if cfg.full_width_banner {
        render_banner_timestamp(image, lt, position, color, cfg, reduced_height, overscan)
    } else {
        render_overlay_timestamp(image, lt, position, color, overscan, cfg)
    }
}

} // verus!
