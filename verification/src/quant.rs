//! Shared palette-matching machinery of the quantizer: pixel access in
//! an RGBA buffer, the luma-weighted nearest-color fold, and the plain
//! nearest mapping with the luma dead-zone tie-break.

use vstd::prelude::*;
use crate::color::{luma_milli, spec_luma_milli, spec_sq_dist, spec_wdist_milli, sq_dist,
    wdist_milli, Rgb};

verus! {

/// The RGB triple of pixel `p` in an RGBA8 buffer.
pub open spec fn rgb_at(s: Seq<u8>, p: int) -> Rgb {
    Rgb { r: s[4 * p], g: s[4 * p + 1], b: s[4 * p + 2] }
}

/// The alpha byte of pixel `p` in an RGBA8 buffer.
pub open spec fn alpha_at(s: Seq<u8>, p: int) -> u8 {
    s[4 * p + 3]
}

/// The color is an exact member of the palette.
pub open spec fn palette_has(pal: Seq<Rgb>, c: Rgb) -> bool {
    exists|i: int| 0 <= i < pal.len() && pal[i] == c
}

/// Every pixel of `new` carries a palette color and the alpha byte of
/// `old`; the buffer length is unchanged, and so are any trailing bytes
/// that do not form a whole pixel.
pub open spec fn palette_mapped(old: Seq<u8>, new: Seq<u8>, pal: Seq<Rgb>) -> bool {
    &&& new.len() == old.len()
    &&& forall|p: int|
        0 <= p < old.len() / 4 ==> #[trigger] palette_has(pal, rgb_at(new, p)) && alpha_at(
            new,
            p,
        ) == alpha_at(old, p)
    &&& forall|i: int| 4 * (old.len() / 4) <= i < old.len() ==> new[i] == old[i]
}

/// The RGB triple of pixel `p`, read from the buffer.
pub fn get_pixel_rgb(pixels: &Vec<u8>, p: usize) -> (c: Rgb)
    requires
        p < pixels@.len() / 4,
    ensures
        c == rgb_at(pixels@, p as int),
{
    let n = pixels.len();
    assert(4 * (p as int) + 3 < n as int);
    Rgb { r: pixels[4 * p], g: pixels[4 * p + 1], b: pixels[4 * p + 2] }
}

/// Write the RGB triple of pixel `p`, leaving its alpha byte and every
/// other byte of the buffer as they were.
pub fn set_pixel_rgb(pixels: &mut Vec<u8>, p: usize, c: Rgb)
    requires
        p < old(pixels)@.len() / 4,
    ensures
        final(pixels)@.len() == old(pixels)@.len(),
        rgb_at(final(pixels)@, p as int) == c,
        forall|q: int|
            0 <= q < old(pixels)@.len() / 4 && q != p ==> #[trigger] rgb_at(final(pixels)@, q)
                == rgb_at(old(pixels)@, q),
        forall|q: int|
            0 <= q < old(pixels)@.len() / 4 ==> #[trigger] alpha_at(final(pixels)@, q) == alpha_at(
                old(pixels)@,
                q,
            ),
        forall|i: int|
            4 * (old(pixels)@.len() / 4) <= i < old(pixels)@.len() ==> final(pixels)@[i] == old(
                pixels,
            )@[i],
{
    let n = pixels.len();
    assert(4 * (p as int) + 3 < n as int);
    pixels.set(4 * p, c.r);
    pixels.set(4 * p + 1, c.g);
    pixels.set(4 * p + 2, c.b);
}

/// Write all four bytes of pixel `p`, leaving every other byte of the
/// buffer as it was.
pub fn set_pixel_rgba(pixels: &mut Vec<u8>, p: usize, c: Rgb, a: u8)
    requires
        p < old(pixels)@.len() / 4,
    ensures
        final(pixels)@.len() == old(pixels)@.len(),
        rgb_at(final(pixels)@, p as int) == c,
        alpha_at(final(pixels)@, p as int) == a,
        forall|q: int|
            0 <= q < old(pixels)@.len() / 4 && q != p ==> #[trigger] rgb_at(final(pixels)@, q)
                == rgb_at(old(pixels)@, q),
        forall|q: int|
            0 <= q < old(pixels)@.len() / 4 && q != p ==> #[trigger] alpha_at(final(pixels)@, q)
                == alpha_at(old(pixels)@, q),
        forall|i: int|
            4 * (old(pixels)@.len() / 4) <= i < old(pixels)@.len() ==> final(pixels)@[i] == old(
                pixels,
            )@[i],
{
    let n = pixels.len();
    assert(4 * (p as int) + 3 < n as int);
    pixels.set(4 * p, c.r);
    pixels.set(4 * p + 1, c.g);
    pixels.set(4 * p + 2, c.b);
    pixels.set(4 * p + 3, a);
}

/// Index of the nearest palette color among the first `n` entries by
/// luma-weighted squared distance; the first of equally near entries
/// wins, as in the scanning order of the quantizer.
pub open spec fn nearest_weighted_upto(pal: Seq<Rgb>, c: Rgb, n: int) -> int
    decreases n,
{
    if n <= 1 {
        0
    } else {
        let prev = nearest_weighted_upto(pal, c, n - 1);
        if spec_wdist_milli(pal[n - 1], c) < spec_wdist_milli(pal[prev], c) {
            n - 1
        } else {
            prev
        }
    }
}

/// Index of the palette color nearest to `c` by luma-weighted squared
/// distance, first of equals winning.
pub open spec fn spec_nearest_weighted(pal: Seq<Rgb>, c: Rgb) -> int {
    nearest_weighted_upto(pal, c, pal.len() as int)
}

/// The fold stays inside the scanned prefix.
pub proof fn lemma_nearest_weighted_upto_in_range(pal: Seq<Rgb>, c: Rgb, n: int)
    requires
        n >= 1,
    ensures
        0 <= nearest_weighted_upto(pal, c, n) < n,
    decreases n,
{
    if n > 1 {
        lemma_nearest_weighted_upto_in_range(pal, c, n - 1);
    }
}

/// What the fold picks is at least as near as every scanned entry: the
/// nearest index is a true minimizer of the weighted distance.
pub proof fn lemma_nearest_weighted_is_min(pal: Seq<Rgb>, c: Rgb, n: int)
    requires
        n >= 1,
        n <= pal.len(),
    ensures
        forall|i: int|
            0 <= i < n ==> spec_wdist_milli(pal[nearest_weighted_upto(pal, c, n)], c)
                <= spec_wdist_milli(#[trigger] pal[i], c),
    decreases n,
{
    if n > 1 {
        lemma_nearest_weighted_is_min(pal, c, n - 1);
    }
}

/// Nearest palette index by luma-weighted squared distance.
pub fn nearest_weighted_index(pal: &Vec<Rgb>, c: Rgb) -> (idx: usize)
    requires
        pal@.len() >= 1,
    ensures
        idx as int == spec_nearest_weighted(pal@, c),
        idx < pal@.len(),
{
    let mut best: usize = 0;
    let mut best_d: u32 = wdist_milli(pal[0], c);
    let mut i: usize = 1;
    while i < pal.len()
        invariant
            1 <= i <= pal@.len(),
            best < i,
            best as int == nearest_weighted_upto(pal@, c, i as int),
            best_d == spec_wdist_milli(pal@[best as int], c),
        decreases pal@.len() - i,
    {
        let d = wdist_milli(pal[i], c);
        if d < best_d {
            best = i;
            best_d = d;
        }
        i = i + 1;
    }
    best
}

/// State of the plain nearest-mapping scan: chosen index, its luma
/// distance, and its unweighted RGB distance.
pub struct NaiveScan {
    pub best: int,
    pub best_dl: int,
    pub best_dist: int,
}

/// A luma in thousandths lies between 0 and 255_000.
pub proof fn lemma_luma_bound(c: Rgb)
    ensures
        0 <= spec_luma_milli(c) <= 255_000,
{
}

/// Absolute luma difference, in thousandths.
pub open spec fn luma_delta(a: Rgb, b: Rgb) -> int {
    let d = spec_luma_milli(a) - spec_luma_milli(b);
    if d < 0 {
        -d
    } else {
        d
    }
}

/// The nearest-mapping scan over the first `n` palette entries: prefer a
/// clearly closer luma (more than a dead zone of 0.01, ten thousandths,
/// closer), and inside the dead zone fall back to the unweighted RGB
/// distance.
pub open spec fn naive_scan_upto(pal: Seq<Rgb>, c: Rgb, n: int) -> NaiveScan
    decreases n,
{
    if n <= 1 {
        NaiveScan { best: 0, best_dl: luma_delta(c, pal[0]), best_dist: spec_sq_dist(c, pal[0]) }
    } else {
        let prev = naive_scan_upto(pal, c, n - 1);
        let dl = luma_delta(c, pal[n - 1]);
        if dl + 10 < prev.best_dl {
            NaiveScan { best: n - 1, best_dl: dl, best_dist: spec_sq_dist(c, pal[n - 1]) }
        } else if -10 <= dl - prev.best_dl <= 10 && spec_sq_dist(c, pal[n - 1]) < prev.best_dist {
            NaiveScan { best: n - 1, best_dl: prev.best_dl, best_dist: spec_sq_dist(c, pal[n - 1]) }
        } else {
            prev
        }
    }
}

/// Index the plain nearest mapping picks for color `c`.
pub open spec fn spec_naive_pick(pal: Seq<Rgb>, c: Rgb) -> int {
    naive_scan_upto(pal, c, pal.len() as int).best
}

/// The scan stays inside the scanned prefix.
pub proof fn lemma_naive_scan_in_range(pal: Seq<Rgb>, c: Rgb, n: int)
    requires
        n >= 1,
    ensures
        0 <= naive_scan_upto(pal, c, n).best < n,
    decreases n,
{
    if n > 1 {
        lemma_naive_scan_in_range(pal, c, n - 1);
    }
}

/// One pixel of the plain nearest mapping: the picked palette color.
pub open spec fn spec_naive_pixel(pal: Seq<Rgb>, c: Rgb) -> Rgb {
    pal[spec_naive_pick(pal, c)]
}

/// Index the nearest mapping picks, computed by one scan of the palette.
fn naive_pick(pal: &Vec<Rgb>, pal_luma: &Vec<u32>, c: Rgb) -> (idx: usize)
    requires
        pal@.len() >= 1,
        pal_luma@.len() == pal@.len(),
        forall|i: int| 0 <= i < pal@.len() ==> pal_luma@[i] as int == spec_luma_milli(
            #[trigger] pal@[i]),
    ensures
        idx as int == spec_naive_pick(pal@, c),
        idx < pal@.len(),
{
    let lum = luma_milli(c);
    let mut best: usize = 0;
    let mut best_dl: u32 = if lum >= pal_luma[0] {
        lum - pal_luma[0]
    } else {
        pal_luma[0] - lum
    };
    let mut best_dist: u32 = sq_dist(c, pal[0]);
    let mut i: usize = 1;
    proof {
        lemma_naive_scan_in_range(pal@, c, 1);
    }
    while i < pal.len()
        invariant
            1 <= i <= pal@.len(),
            pal_luma@.len() == pal@.len(),
            forall|j: int| 0 <= j < pal@.len() ==> pal_luma@[j] as int == spec_luma_milli(
                #[trigger] pal@[j]),
            lum as int == spec_luma_milli(c),
            best < i,
            best as int == naive_scan_upto(pal@, c, i as int).best,
            best_dl as int == naive_scan_upto(pal@, c, i as int).best_dl,
            best_dist as int == naive_scan_upto(pal@, c, i as int).best_dist,
            best_dl <= 510_000,
            best_dist <= 195_075,
        decreases pal@.len() - i,
    {
        let dl: u32 = if lum >= pal_luma[i] {
            lum - pal_luma[i]
        } else {
            pal_luma[i] - lum
        };
        proof {
            lemma_luma_bound(pal@[i as int]);
        }
        assert(dl <= 255_000);
        if dl + 10 < best_dl {
            best = i;
            best_dl = dl;
            best_dist = sq_dist(c, pal[i]);
        } else if (if dl >= best_dl {
            dl - best_dl
        } else {
            best_dl - dl
        }) <= 10 {
            let dist = sq_dist(c, pal[i]);
            if dist < best_dist {
                best = i;
                best_dist = dist;
            }
        }
        i = i + 1;
        proof {
            lemma_naive_scan_in_range(pal@, c, i as int);
        }
    }
    best
}

/// Plain nearest-color palette mapping without diffusion, the fallback
/// of the quantizer: every whole pixel is replaced by the palette color
/// `spec_naive_pixel` picks, the alpha byte is kept, and trailing bytes
/// that do not form a whole pixel stay as they were.
pub fn naive_quantize(pixels: &mut Vec<u8>, palette: &Vec<Rgb>)
    requires
        palette@.len() >= 1,
    ensures
        final(pixels)@.len() == old(pixels)@.len(),
        palette_mapped(old(pixels)@, final(pixels)@, palette@),
        forall|p: int|
            0 <= p < old(pixels)@.len() / 4 ==> rgb_at(final(pixels)@, p) == spec_naive_pixel(
                palette@,
                #[trigger] rgb_at(old(pixels)@, p),
            ),
{
    let ghost orig = pixels@;
    let mut pal_luma: Vec<u32> = Vec::new();
    let mut k: usize = 0;
    while k < palette.len()
        invariant
            k <= palette@.len(),
            pal_luma@.len() == k,
            forall|i: int| 0 <= i < k ==> pal_luma@[i] as int == spec_luma_milli(
                #[trigger] palette@[i]),
        decreases palette@.len() - k,
    {
        pal_luma.push(luma_milli(palette[k]));
        k = k + 1;
    }
    let count: usize = pixels.len() / 4;
    let mut p: usize = 0;
    while p < count
        invariant
            palette@.len() >= 1,
            pal_luma@.len() == palette@.len(),
            forall|i: int| 0 <= i < palette@.len() ==> pal_luma@[i] as int == spec_luma_milli(
                #[trigger] palette@[i]),
            count == orig.len() / 4,
            pixels@.len() == orig.len(),
            p <= count,
            forall|q: int| p <= q < count ==> rgb_at(pixels@, q) == rgb_at(orig, q),
            forall|q: int|
                0 <= q < p ==> rgb_at(pixels@, q) == spec_naive_pixel(
                    palette@,
                    #[trigger] rgb_at(orig, q),
                ),
            forall|q: int| 0 <= q < count ==> #[trigger] alpha_at(pixels@, q) == alpha_at(orig, q),
            forall|i: int| 4 * count <= i < orig.len() ==> pixels@[i] == orig[i],
        decreases count - p,
    {
        let c = get_pixel_rgb(pixels, p);
        assert(c == rgb_at(orig, p as int));
        let idx = naive_pick(palette, &pal_luma, c);
        proof {
            lemma_naive_scan_in_range(palette@, c, palette@.len() as int);
        }
        let chosen = palette[idx];
        set_pixel_rgb(pixels, p, chosen);
        p = p + 1;
    }
    assert forall|p0: int| 0 <= p0 < orig.len() / 4 implies #[trigger] palette_has(
        palette@,
        rgb_at(pixels@, p0),
    ) by {
        lemma_naive_scan_in_range(palette@, rgb_at(orig, p0), palette@.len() as int);
        let i = spec_naive_pick(palette@, rgb_at(orig, p0));
        assert(palette@[i] == rgb_at(pixels@, p0));
    }
}

} // verus!
