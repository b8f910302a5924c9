//! The compositor: scale the source photo into the panel's view canvas,
//! honoring orientation, overscan insets and the contain or cover
//! scaling mode, center it on an opaque-white canvas, and report the
//! content rectangle the scaled photo occupies.

use vstd::prelude::*;
use crate::config::{Orientation, Overscan, PhotoFrame, ScalingMode, Timestamp};
use crate::imgops::{resize_contain, resize_to_fill};
use crate::imgops::{triangle_contain_scaled, triangle_fill_scaled};
use crate::raster::{copy_raster, overlay, spec_overlay, spec_white_pixels, white_canvas,
    RasterImage};

verus! {

/// The sub-rectangle of a canvas holding non-padding content.
#[derive(Clone, Copy, Debug, PartialEq, Eq, Structural)]
pub struct ContentRect {
    pub x: u32,
    pub y: u32,
    pub width: u32,
    pub height: u32,
}

/// A nonnegative overscan inset.
pub open spec fn spec_inset(v: int) -> int {
    if v < 0 {
        0
    } else {
        v
    }
}

/// The nonnegative inset of one overscan edge.
fn inset(v: i32) -> (r: u32)
    ensures
        r as int == spec_inset(v as int),
{
    if v < 0 {
        0
    } else {
        v as u32
    }
}

/// View canvas width for given panel dimensions and orientation: wide
/// (the larger first) for landscape, tall for portrait.
pub open spec fn spec_view_w(pw: int, ph: int, o: Orientation) -> int {
    match o {
        Orientation::Landscape => if pw >= ph {
            pw
        } else {
            ph
        },
        Orientation::Portrait => if pw <= ph {
            pw
        } else {
            ph
        },
    }
}

/// View canvas height.
pub open spec fn spec_view_h(pw: int, ph: int, o: Orientation) -> int {
    match o {
        Orientation::Landscape => if pw <= ph {
            pw
        } else {
            ph
        },
        Orientation::Portrait => if pw >= ph {
            pw
        } else {
            ph
        },
    }
}

/// Inner dimension after two insets, floored at one pixel.
pub open spec fn spec_inner(view: int, a: int, b: int) -> int {
    if spec_inset(a) + spec_inset(b) >= view {
        1
    } else {
        view - spec_inset(a) - spec_inset(b)
    }
}

/// Reduced panel height reserving a full-width banner strip: the
/// configured banner height, or the font size plus twice an 8-pixel
/// padding, subtracted from the panel height (saturating at zero).
pub fn calculate_reduced_height_for_banner(frame: &PhotoFrame, timestamp: &Timestamp) -> (r:
    Option<u32>)
    ensures
        r is Some <==> frame.panel_height is Some,
        r matches Some(v) ==> {
            &&& frame.panel_height matches Some(ph)
            &&& v <= ph
            &&& {
                let fs = match timestamp.font_size {
                    Some(f) => f as int,
                    None => 24,
                };
                let bh = match timestamp.banner_height {
                    Some(b) => b as int,
                    None => fs + 16,
                };
                v as int == (if bh >= ph as int {
                    0
                } else {
                    ph as int - bh
                })
            }
        },
{
    let ph = match frame.panel_height {
        Some(ph) => ph,
        None => { return None },
    };
    let font_size: u32 = match timestamp.font_size {
        Some(f) => f,
        None => 24,
    };
    let banner_height: u64 = match timestamp.banner_height {
        Some(b) => b as u64,
        None => font_size as u64 + 16,
    };
    if banner_height >= ph as u64 {
        Some(0)
    } else {
        Some(ph - banner_height as u32)
    }
}

/// Width of the composed canvas: the view width, or the photo's own
/// width without panel dimensions.
pub open spec fn spec_composed_w(frame: PhotoFrame, base: RasterImage, reduced: Option<u32>) -> int {
    match (frame.panel_width, frame.panel_height) {
        (Some(pw), Some(ph)) => {
            let eph = match reduced {
                Some(v) => v as int,
                None => ph as int,
            };
            let o = match frame.orientation {
                Some(o) => o,
                None => Orientation::Landscape,
            };
            spec_view_w(pw as int, eph, o)
        },
        _ => base.width as int,
    }
}

/// Height of the composed canvas.
pub open spec fn spec_composed_h(frame: PhotoFrame, base: RasterImage, reduced: Option<u32>) -> int {
    match (frame.panel_width, frame.panel_height) {
        (Some(pw), Some(ph)) => {
            let eph = match reduced {
                Some(v) => v as int,
                None => ph as int,
            };
            let o = match frame.orientation {
                Some(o) => o,
                None => Orientation::Landscape,
            };
            spec_view_h(pw as int, eph, o)
        },
        _ => base.height as int,
    }
}

/// The content rectangle the compositor reports is the right one:
/// without panel dimensions it is the whole image; with them the
/// content fits the overscan-reduced inner rectangle (cover fills it
/// exactly, contain meets it on at least one axis), it is anchored at
/// the integer-truncated centering inside the inner rectangle offset by
/// the left and top insets, and it lies inside the canvas whenever the
/// insets leave room on both axes.
pub open spec fn spec_rect_composed(
    frame: PhotoFrame,
    base: RasterImage,
    reduced: Option<u32>,
    rect: ContentRect,
) -> bool {
    let vw = spec_composed_w(frame, base, reduced);
    let vh = spec_composed_h(frame, base, reduced);
    match (frame.panel_width, frame.panel_height) {
        (Some(pw), Some(ph)) => {
            let os = match frame.overscan {
                Some(os) => os,
                None => Overscan { left: 0, right: 0, top: 0, bottom: 0 },
            };
            let iw = spec_inner(vw, os.left as int, os.right as int);
            let ih = spec_inner(vh, os.top as int, os.bottom as int);
            &&& rect.width as int <= iw
            &&& rect.height as int <= ih
            &&& (match frame.scaling {
                Some(ScalingMode::Cover) => rect.width as int == iw && rect.height as int == ih,
                _ => rect.width as int == iw || rect.height as int == ih,
            })
            &&& rect.x as int == spec_inset(os.left as int) + (iw - rect.width as int) / 2
            &&& rect.y as int == spec_inset(os.top as int) + (ih - rect.height as int) / 2
            &&& (spec_inset(os.left as int) + spec_inset(os.right as int) < vw && spec_inset(
                os.top as int,
            ) + spec_inset(os.bottom as int) < vh ==> rect.x as int + rect.width as int <= vw
                && rect.y as int + rect.height as int <= vh)
        },
        _ => {
            &&& rect == (ContentRect { x: 0, y: 0, width: base.width, height: base.height })
            &&& rect.x as int + rect.width as int <= vw
            &&& rect.y as int + rect.height as int <= vh
        },
    }
}

/// The pixels of the composed canvas for a given content rectangle:
/// without panel dimensions the photo unchanged; with them the resized
/// photo blended onto a white inner canvas, centered, itself blended
/// onto the white view canvas at the inset offsets.
pub open spec fn spec_composed_pixels(
    frame: PhotoFrame,
    base: RasterImage,
    reduced: Option<u32>,
    rect: ContentRect,
) -> Seq<u8> {
    let vw = spec_composed_w(frame, base, reduced);
    let vh = spec_composed_h(frame, base, reduced);
    match (frame.panel_width, frame.panel_height) {
        (Some(pw), Some(ph)) => {
            let os = match frame.overscan {
                Some(os) => os,
                None => Overscan { left: 0, right: 0, top: 0, bottom: 0 },
            };
            let iw = spec_inner(vw, os.left as int, os.right as int);
            let ih = spec_inner(vh, os.top as int, os.bottom as int);
            let rs = match frame.scaling {
                Some(ScalingMode::Cover) => triangle_fill_scaled(
                    base.width as int,
                    base.height as int,
                    base.pixels@,
                    iw,
                    ih,
                ),
                _ => triangle_contain_scaled(
                    base.width as int,
                    base.height as int,
                    base.pixels@,
                    iw,
                    ih,
                ),
            };
            spec_overlay(
                vw,
                vh,
                spec_white_pixels(vw, vh),
                iw,
                ih,
                spec_overlay(
                    iw,
                    ih,
                    spec_white_pixels(iw, ih),
                    rect.width as int,
                    rect.height as int,
                    rs,
                    (iw - rect.width as int) / 2,
                    (ih - rect.height as int) / 2,
                ),
                spec_inset(os.left as int),
                spec_inset(os.top as int),
            )
        },
        _ => base.pixels@,
    }
}

/// What the compositor guarantees of a composed canvas and content
/// rectangle: the view dimensions, the content rectangle of
/// `spec_rect_composed`, and exactly the pixels of
/// `spec_composed_pixels`.
pub open spec fn spec_composed(
    frame: PhotoFrame,
    base: RasterImage,
    reduced_height: Option<u32>,
    img: RasterImage,
    rect: ContentRect,
) -> bool {
    &&& img.width as int == spec_composed_w(frame, base, reduced_height)
    &&& img.height as int == spec_composed_h(frame, base, reduced_height)
    &&& spec_rect_composed(frame, base, reduced_height, rect)
    &&& img.pixels@ == spec_composed_pixels(frame, base, reduced_height, rect)
}

/// The machine limits the compositor asks of the panel dimensions: the
/// view canvas and its insets must be addressable.
pub open spec fn panel_fits(frame: PhotoFrame) -> bool {
    frame.panel_width matches Some(pw) ==> pw as int * (match frame.panel_height {
        Some(ph) => ph as int,
        None => 0,
    }) * 4 <= usize::MAX && (pw as int + (match frame.panel_height {
        Some(ph) => ph as int,
        None => 0,
    })) * 4 <= usize::MAX
}

/// Scale the photo into the panel canvas and report the content
/// rectangle, with an optionally reduced effective panel height (banner
/// mode reserves its strip before composition). `spec_composed` states
/// everything guaranteed of the result.
#[verifier::rlimit(100)]
pub fn scale_and_pad_with_rect_reduced(
    frame: &PhotoFrame,
    base: &RasterImage,
    reduced_height: Option<u32>,
) -> (r: (RasterImage, ContentRect))
    requires
        base.wf(),
        base.width >= 1,
        base.height >= 1,
        panel_fits(*frame),
        reduced_height matches Some(v) ==> frame.panel_height matches Some(ph) && v <= ph,
    ensures
        r.0.wf(),
        spec_composed(*frame, *base, reduced_height, r.0, r.1),
{
    let (panel_w, panel_h) = match (frame.panel_width, frame.panel_height) {
        (Some(pw), Some(ph)) => (pw, ph),
        _ => {
            let img = copy_raster(base);
            let rect = ContentRect { x: 0, y: 0, width: base.width, height: base.height };
            return (img, rect);
        },
    };
    let effective_panel_h: u32 = match reduced_height {
        Some(v) => v,
        None => panel_h,
    };
    let orient = match frame.orientation {
        Some(o) => o,
        None => Orientation::Landscape,
    };
    let (view_w, view_h): (u32, u32) = match orient {
        Orientation::Landscape => (
            if panel_w >= effective_panel_h {
                panel_w
            } else {
                effective_panel_h
            },
            if panel_w <= effective_panel_h {
                panel_w
            } else {
                effective_panel_h
            },
        ),
        Orientation::Portrait => (
            if panel_w <= effective_panel_h {
                panel_w
            } else {
                effective_panel_h
            },
            if panel_w >= effective_panel_h {
                panel_w
            } else {
                effective_panel_h
            },
        ),
    };
    let os = match frame.overscan {
        Some(o) => o,
        None => Overscan { left: 0, right: 0, top: 0, bottom: 0 },
    };
    let pad_left = inset(os.left);
    let pad_right = inset(os.right);
    let pad_top = inset(os.top);
    let pad_bottom = inset(os.bottom);
    let inner_w: u32 = if pad_left as u64 + pad_right as u64 >= view_w as u64 {
        1
    } else {
        view_w - pad_left - pad_right
    };
    let inner_h: u32 = if pad_top as u64 + pad_bottom as u64 >= view_h as u64 {
        1
    } else {
        view_h - pad_top - pad_bottom
    };
    proof {
        let pwi = panel_w as int;
        let phi = panel_h as int;
        let ei = effective_panel_h as int;
        let vwi = view_w as int;
        let vhi = view_h as int;
        assert((vwi == pwi && vhi == ei) || (vwi == ei && vhi == pwi));
        assert(vwi * vhi * 4 <= usize::MAX) by (nonlinear_arith)
            requires
                (vwi == pwi && vhi == ei) || (vwi == ei && vhi == pwi),
                0 <= ei <= phi,
                0 <= pwi,
                pwi * phi * 4 <= usize::MAX,
        ;
        assert(vwi + vhi <= pwi + phi);
        assert((inner_w as int) * (inner_h as int) * 4 <= usize::MAX) by (nonlinear_arith)
            requires
                1 <= inner_w as int,
                1 <= inner_h as int,
                inner_w as int <= vwi || inner_w == 1,
                inner_h as int <= vhi || inner_h == 1,
                vwi * vhi * 4 <= usize::MAX,
                vwi + vhi <= pwi + phi,
                (pwi + phi) * 4 <= usize::MAX,
                0 <= vwi,
                0 <= vhi,
                4 <= usize::MAX,
        ;
    }
    let resized: RasterImage = match frame.scaling {
        Some(ScalingMode::Cover) => resize_to_fill(base, inner_w, inner_h),
        _ => resize_contain(base, inner_w, inner_h),
    };
    let inner_canvas = white_canvas(inner_w, inner_h);
    let off_x: u32 = (inner_w - resized.width) / 2;
    let off_y: u32 = (inner_h - resized.height) / 2;
    let inner_done = overlay(&inner_canvas, &resized, off_x as usize, off_y as usize);
    let final_canvas = white_canvas(view_w, view_h);
    let composed = overlay(&final_canvas, &inner_done, pad_left as usize, pad_top as usize);
    let rect = ContentRect {
        x: pad_left + off_x,
        y: pad_top + off_y,
        width: resized.width,
        height: resized.height,
    };
    proof {
        assert(composed.width as int == spec_composed_w(*frame, *base, reduced_height)) by {
            assert(composed.width == view_w);
        }
        assert(composed.height as int == spec_composed_h(*frame, *base, reduced_height)) by {
            assert(composed.height == view_h);
        }
        assert(spec_rect_composed(*frame, *base, reduced_height, rect)) by {
            assert(inner_w as int == spec_inner(view_w as int, os.left as int, os.right as int));
            assert(inner_h as int == spec_inner(view_h as int, os.top as int, os.bottom as int));
        }
        assert(composed.pixels@ == spec_composed_pixels(*frame, *base, reduced_height, rect)) by {
            assert(inner_w as int == spec_inner(view_w as int, os.left as int, os.right as int));
            assert(inner_h as int == spec_inner(view_h as int, os.top as int, os.bottom as int));
            assert(final_canvas.pixels@ == spec_white_pixels(view_w as int, view_h as int));
            assert(inner_canvas.pixels@ == spec_white_pixels(inner_w as int, inner_h as int));
        }
    }
    (composed, rect)
}

/// The view canvas never exceeds the panel's own pixel count: swapping
/// width and height by the orientation keeps the product, and the
/// effective height is at most the native one.
proof fn lemma_view_product(pw: int, eph: int, ph: int)
    requires
        0 <= eph <= ph,
        0 <= pw,
    ensures
        pw * eph <= pw * ph,
{
    assert(pw * eph <= pw * ph) by (nonlinear_arith)
        requires
            0 <= eph <= ph,
            0 <= pw,
    ;
}

/// Scale and pad without banner reduction, reporting the content
/// rectangle. `spec_composed` (with no height reduction) states
/// everything guaranteed of the result.
pub fn scale_and_pad_with_rect(frame: &PhotoFrame, base: &RasterImage) -> (r: (
    RasterImage,
    ContentRect,
))
    requires
        base.wf(),
        base.width >= 1,
        base.height >= 1,
        panel_fits(*frame),
    ensures
        r.0.wf(),
        spec_composed(*frame, *base, None, r.0, r.1),
{
    scale_and_pad_with_rect_reduced(frame, base, None)
}

/// Scale and pad, ignoring the content rectangle: the canvas is the one
/// `spec_composed` describes for some content rectangle.
pub fn scale_and_pad_only(frame: &PhotoFrame, base: &RasterImage) -> (r: RasterImage)
    requires
        base.wf(),
        base.width >= 1,
        base.height >= 1,
        panel_fits(*frame),
    ensures
        r.wf(),
        exists|rect: ContentRect| spec_composed(*frame, *base, None, r, rect),
{
    let (img, rect) = scale_and_pad_with_rect(frame, base);
    proof {
        assert(spec_composed(*frame, *base, None, img, rect));
    }
    img
}

} // verus!
