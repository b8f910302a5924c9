//! The per-frame rendering decisions the composition root drives:
//! whether banner mode reserves a strip before composition, the palette
//! derived from the parsed color list, composition with the content
//! rectangle and rectangle-scoped color adjustments, and the prepared
//! image the caller snapshots.
//!
//! The root carries out the two steps the verified code cannot hold
//! (the fractional-sigma sharpening kernel and glyph rasterization) and
//! threads the rasters back through the verified stages.

use vstd::prelude::*;
use crate::adjust::{apply_adjustments_rect, sharpen_plan, spec_adjusted_pixel, spec_sharpen_plan,
    SharpenPlan};
use crate::color::Rgb;
use crate::compose::{panel_fits, scale_and_pad_with_rect_reduced, spec_composed,
    spec_composed_h, spec_composed_pixels, spec_composed_w, spec_rect_composed, ContentRect};
use crate::config::{Adjustments, PhotoFrame};
use crate::quant::{alpha_at, rgb_at};
use crate::raster::{in_rect, RasterImage};

verus! {

/// An in-memory prepared frame image: raw RGBA pixels and dimensions.
pub struct PreparedFrameImage {
    pub width: u32,
    pub height: u32,
    pub pixels: Vec<u8>,
}

impl PreparedFrameImage {
    /// The buffer length matches the dimensions.
    pub open spec fn wf(&self) -> bool {
        self.pixels@.len() == self.width as int * self.height as int * 4
    }
}

/// The parsed colors that survive, in configuration order.
pub open spec fn spec_somes(s: Seq<Option<Rgb>>) -> Seq<Rgb>
    decreases s.len(),
{
    if s.len() == 0 {
        Seq::empty()
    } else {
        match s.last() {
            Some(c) => spec_somes(s.drop_last()).push(c),
            None => spec_somes(s.drop_last()),
        }
    }
}

/// The palette the frame dithers against: the parsed supported colors
/// in configuration order, entries that failed to parse dropped;
/// nothing when the list is empty or nothing parsed.
pub fn derive_palette(parsed: &Vec<Option<Rgb>>) -> (r: Option<Vec<Rgb>>)
    ensures
        match r {
            Some(v) => v@ == spec_somes(parsed@) && v@.len() >= 1,
            None => spec_somes(parsed@).len() == 0,
        },
{
    let mut out: Vec<Rgb> = Vec::new();
    let mut i: usize = 0;
    while i < parsed.len()
        invariant
            i <= parsed@.len(),
            out@ == spec_somes(parsed@.subrange(0, i as int)),
        decreases parsed@.len() - i,
    {
        proof {
            assert(parsed@.subrange(0, i + 1).drop_last() =~= parsed@.subrange(0, i as int));
            assert(parsed@.subrange(0, i + 1).last() == parsed@[i as int]);
        }
        match parsed[i] {
            Some(c) => out.push(c),
            None => (),
        }
        i = i + 1;
    }
    proof {
        assert(parsed@.subrange(0, parsed@.len() as int) =~= parsed@);
    }
    if out.len() == 0 {
        None
    } else {
        Some(out)
    }
}

/// The banner-mode height reduction applied before composition: only
/// when the timestamp stage is enabled, in banner mode, and a date is
/// actually available to render; then the panel height less the banner
/// height (the configured one, or the font size plus twice an 8-pixel
/// padding), saturating at zero.
pub fn banner_reduction(frame: &PhotoFrame, has_date: bool) -> (r: Option<u32>)
    ensures
        r matches Some(v) ==> frame.panel_height matches Some(ph) && v <= ph,
        r is Some ==> has_date && (frame.timestamp matches Some(ts) && ts.enabled
            && ts.full_width_banner),
        ({
            match frame.timestamp {
                Some(ts) => !(has_date && ts.enabled && ts.full_width_banner
                    && frame.panel_height is Some) ==> r is None,
                None => r is None,
            }
        }),
        r matches Some(v) ==> (frame.timestamp matches Some(ts) && frame.panel_height matches Some(
            ph,
        ) && {
            let fs = match ts.font_size {
                Some(f) => f as int,
                None => 24,
            };
            let bh = match ts.banner_height {
                Some(b) => b as int,
                None => fs + 16,
            };
            v as int == (if bh >= ph as int {
                0
            } else {
                ph as int - bh
            })
        }),
{
    let ts = match &frame.timestamp {
        Some(ts) => ts,
        None => { return None },
    };
    if !(has_date && ts.enabled && ts.full_width_banner) {
        return None;
    }
    crate::compose::calculate_reduced_height_for_banner(frame, ts)
}

/// The canvas `new` is the canvas `old` with the color adjustments
/// applied exactly to the pixels of the content rectangle: inside it
/// every pixel carries the adjusted color, outside it nothing changes,
/// and every alpha byte is kept.
pub open spec fn adjusted_in_rect(
    old: Seq<u8>,
    new: Seq<u8>,
    w: int,
    rect: ContentRect,
    adj: Adjustments,
) -> bool {
    &&& new.len() == old.len()
    &&& forall|p: int|
        0 <= p < old.len() / 4 && in_rect(
            p,
            w,
            rect.x as int,
            rect.y as int,
            rect.width as int,
            rect.height as int,
        ) ==> #[trigger] rgb_at(new, p) == spec_adjusted_pixel(rgb_at(old, p), adj)
    &&& forall|p: int|
        0 <= p < old.len() / 4 && !in_rect(
            p,
            w,
            rect.x as int,
            rect.y as int,
            rect.width as int,
            rect.height as int,
        ) ==> #[trigger] rgb_at(new, p) == rgb_at(old, p)
    &&& forall|p: int| 0 <= p < old.len() / 4 ==> #[trigger] alpha_at(new, p) == alpha_at(old, p)
}

/// Compose the photo onto the panel canvas and apply the color
/// adjustments inside the content rectangle, as the first half of the
/// render pipeline. Returns the adjusted canvas, the content rectangle,
/// and the sharpening step the composition root must still carry out
/// over the whole canvas (its kernel takes a fractional sigma the
/// verified code cannot hold).
///
/// The returned canvas has the composed view dimensions and content
/// rectangle (`spec_rect_composed`), and its pixels are the composed
/// canvas (`spec_composed_pixels`) with the color adjustments applied
/// exactly inside the content rectangle; without configured adjustments
/// they are that canvas unchanged. Neutral adjustments change no pixel
/// and ask for no sharpening.
pub fn compose_and_adjust(
    frame: &PhotoFrame,
    base: &RasterImage,
    reduced_height: Option<u32>,
) -> (r: (RasterImage, ContentRect, Option<SharpenPlan>))
    requires
        base.wf(),
        base.width >= 1,
        base.height >= 1,
        panel_fits(*frame),
        reduced_height matches Some(v) ==> frame.panel_height matches Some(ph) && v <= ph,
    ensures
        r.0.wf(),
        r.0.width as int == spec_composed_w(*frame, *base, reduced_height),
        r.0.height as int == spec_composed_h(*frame, *base, reduced_height),
        spec_rect_composed(*frame, *base, reduced_height, r.1),
        match frame.adjustments {
            Some(adj) => adjusted_in_rect(
                spec_composed_pixels(*frame, *base, reduced_height, r.1),
                r.0.pixels@,
                r.0.width as int,
                r.1,
                adj,
            ),
            None => r.0.pixels@ == spec_composed_pixels(*frame, *base, reduced_height, r.1),
        },
        r.2 == (match frame.adjustments {
            Some(adj) => spec_sharpen_plan(adj),
            None => None::<SharpenPlan>,
        }),
        (match frame.adjustments {
            Some(adj) => adj.spec_is_neutral(),
            None => true,
        }) ==> r.2 is None,
{
    let (mut composed, rect) = scale_and_pad_with_rect_reduced(frame, base, reduced_height);
    let ghost composed0 = composed;
    let plan: Option<SharpenPlan> = match &frame.adjustments {
        Some(adj) => {
            apply_adjustments_rect(&mut composed, adj, rect.x, rect.y, rect.width, rect.height);
            sharpen_plan(adj)
        },
        None => None,
    };
    proof {
        assert(spec_composed(*frame, *base, reduced_height, composed0, rect));
        assert(composed0.pixels@ == spec_composed_pixels(*frame, *base, reduced_height, rect));
    }
    (composed, rect, plan)
}

/// Wrap a finished raster as the prepared image handed to the caller.
pub fn prepared_from_raster(img: RasterImage) -> (r: PreparedFrameImage)
    requires
        img.wf(),
    ensures
        r.wf(),
        r.width == img.width,
        r.height == img.height,
        r.pixels@ == img.pixels@,
{
    PreparedFrameImage { width: img.width, height: img.height, pixels: img.pixels }
}

/// Rebuild a raster from a prepared image, checking the buffer
/// invariant the way the encoder checks it before rotation: the length
/// must be exactly four bytes per pixel.
pub fn raster_from_prepared(img: PreparedFrameImage) -> (r: Result<
    RasterImage,
    crate::encode::EncodeError,
>)
    ensures
        r matches Ok(ri) ==> ri.wf() && ri.width == img.width && ri.height == img.height
            && ri.pixels@ == img.pixels@,
        r is Err <==> img.pixels@.len() != img.width as int * img.height as int * 4,
        r is Err ==> r == Result::<RasterImage, crate::encode::EncodeError>::Err(
            crate::encode::EncodeError::InvalidBuffer,
        ),
{
    let n = img.pixels.len();
    let w = img.width;
    let h = img.height;
    proof {
        vstd::arithmetic::div_mod::lemma_fundamental_div_mod(n as int, 4);
        if n as int == w as int * h as int * 4 {
            vstd::arithmetic::div_mod::lemma_fundamental_div_mod_converse(
                n as int,
                4,
                w as int * h as int,
                0,
            );
        }
    }
    if n % 4 != 0 {
        return Err(crate::encode::EncodeError::InvalidBuffer);
    }
    let pixel_count: usize = n / 4;
    let expect_w: u64 = w as u64;
    let expect_h: u64 = h as u64;
    proof {
        assert((w as int) * (h as int) <= 0xFFFF_FFFF * 0xFFFF_FFFF) by (nonlinear_arith)
            requires
                0 <= (w as int) && (w as int) <= 0xFFFF_FFFF,
                0 <= (h as int) && (h as int) <= 0xFFFF_FFFF,
        ;
    }
    let expected: u128 = (expect_w as u128) * (expect_h as u128);
    if (pixel_count as u128) == expected {
        proof {
            assert(n as int == w as int * h as int * 4);
        }
        Ok(RasterImage { width: w, height: h, pixels: img.pixels })
    } else {
        proof {
            assert(n as int != w as int * h as int * 4);
        }
        Err(crate::encode::EncodeError::InvalidBuffer)
    }
}

} // verus!
