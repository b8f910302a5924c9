//! The two Yliluoma ordered dithering algorithms.
//!
//! The first searches, per pixel, all unordered palette pairs and a
//! discretized mixing ratio for the pair and ratio of least penalty, and
//! lets the Bayer cell choose between the two colors. Its penalty is
//! exact integer arithmetic: the luma weights 0.299 / 0.587 / 0.114 and
//! the imbalance weight 0.1 scale to one common denominator.
//!
//! The second builds, per pixel, a mixing plan of palette indices by
//! greedily adding power-of-two blocks of the color that most lowers the
//! mean-squared error, sorts the plan by palette luma, and indexes it by
//! the Bayer cell.

use vstd::prelude::*;
use crate::color::{spec_luma_milli, luma_milli, spec_wdist_milli, wdist_milli, Rgb};
use crate::ordered::{bayer_index, spec_bayer_index};
use crate::quant::{alpha_at, get_pixel_rgb, palette_has, palette_mapped, rgb_at, set_pixel_rgb};

verus! {

/// Absolute value.
pub open spec fn abs_i(x: int) -> int {
    if x < 0 {
        -x
    } else {
        x
    }
}

/// One channel of the mix of `a` and `b` at `ratio` of `l` steps,
/// floored the way a typed-array assignment truncates.
pub open spec fn y1_mix_channel(a: int, b: int, ratio: int, l: int) -> int {
    (a * l + ratio * (b - a)) / l
}

/// The linear mix of two palette colors at a discretized ratio.
pub open spec fn y1_mix(c1: Rgb, c2: Rgb, ratio: int, l: int) -> Rgb {
    Rgb {
        r: y1_mix_channel(c1.r as int, c2.r as int, ratio, l) as u8,
        g: y1_mix_channel(c1.g as int, c2.g as int, ratio, l) as u8,
        b: y1_mix_channel(c1.b as int, c2.b as int, ratio, l) as u8,
    }
}

/// Penalty of mixing pair `(i1, i2)` at `ratio`: the distance from the
/// pixel to the mix, plus a ratio-imbalance penalty weighted by the
/// pair's own distance. The classic penalty formula is scaled by
/// `20 * l * 1000`, so it is an exact integer.
pub open spec fn y1_penalty(pal: Seq<Rgb>, c: Rgb, i1: int, i2: int, ratio: int, l: int) -> int {
    20 * l * spec_wdist_milli(c, y1_mix(pal[i1], pal[i2], ratio, l)) + spec_wdist_milli(
        pal[i1],
        pal[i2],
    ) * (abs_i(2 * ratio - l) + l)
}

/// Best candidate found so far: its penalty, pair, and ratio.
pub struct Y1Best {
    pub pen: int,
    pub i1: int,
    pub i2: int,
    pub ratio: int,
}

/// Ratios the scan tries for a pair: just zero for a pair of one color.
pub open spec fn y1_ratio_count(l: int, i1: int, i2: int) -> int {
    if i1 == i2 {
        1
    } else {
        l
    }
}

/// Fold over the ratios `0 .. nr` of pair `(i1, i2)`: least penalty,
/// lowest such ratio winning.
pub open spec fn y1_ratio_scan(pal: Seq<Rgb>, c: Rgb, l: int, i1: int, i2: int, nr: int) -> (
    int,
    int,
)
    decreases nr,
{
    if nr <= 1 {
        (y1_penalty(pal, c, i1, i2, 0, l), 0)
    } else {
        let prev = y1_ratio_scan(pal, c, l, i1, i2, nr - 1);
        let pen = y1_penalty(pal, c, i1, i2, nr - 1, l);
        if pen < prev.0 {
            (pen, nr - 1)
        } else {
            prev
        }
    }
}

/// Fold over the pairs `(i1, i2)` for `i2` in `i1 .. j` of one row of
/// the pair triangle, earliest pair of least penalty winning.
pub open spec fn y1_row_scan(pal: Seq<Rgb>, c: Rgb, l: int, i1: int, j: int) -> Y1Best
    decreases j - i1,
{
    if j <= i1 + 1 {
        let base = y1_ratio_scan(pal, c, l, i1, i1, 1);
        Y1Best { pen: base.0, i1: i1, i2: i1, ratio: base.1 }
    } else {
        let prev = y1_row_scan(pal, c, l, i1, j - 1);
        let cur = y1_ratio_scan(pal, c, l, i1, j - 1, y1_ratio_count(l, i1, j - 1));
        if cur.0 < prev.pen {
            Y1Best { pen: cur.0, i1: i1, i2: j - 1, ratio: cur.1 }
        } else {
            prev
        }
    }
}

/// Fold over the rows `i1` in `0 .. i` of the pair triangle.
pub open spec fn y1_scan(pal: Seq<Rgb>, c: Rgb, l: int, i: int) -> Y1Best
    decreases i,
{
    if i <= 1 {
        y1_row_scan(pal, c, l, 0, pal.len() as int)
    } else {
        let prev = y1_scan(pal, c, l, i - 1);
        let row = y1_row_scan(pal, c, l, i - 1, pal.len() as int);
        if row.pen < prev.pen {
            row
        } else {
            prev
        }
    }
}

/// The pair and ratio of least penalty over the whole palette.
pub open spec fn spec_y1_best(pal: Seq<Rgb>, c: Rgb, l: int) -> Y1Best {
    y1_scan(pal, c, l, pal.len() as int)
}

/// The ratio scan returns a ratio of the scanned range.
pub proof fn lemma_y1_ratio_scan_range(pal: Seq<Rgb>, c: Rgb, l: int, i1: int, i2: int, nr: int)
    requires
        nr >= 1,
    ensures
        0 <= y1_ratio_scan(pal, c, l, i1, i2, nr).1 < nr,
    decreases nr,
{
    if nr > 1 {
        lemma_y1_ratio_scan_range(pal, c, l, i1, i2, nr - 1);
    }
}

/// The row scan returns a pair of the scanned row with a valid ratio.
pub proof fn lemma_y1_row_scan_range(pal: Seq<Rgb>, c: Rgb, l: int, i1: int, j: int)
    requires
        j >= i1 + 1,
        l >= 1,
    ensures
        ({
            let b = y1_row_scan(pal, c, l, i1, j);
            b.i1 == i1 && i1 <= b.i2 < j && 0 <= b.ratio < l && (b.i1 == b.i2 ==> b.ratio == 0)
        }),
    decreases j - i1,
{
    if j <= i1 + 1 {
        lemma_y1_ratio_scan_range(pal, c, l, i1, i1, 1);
    } else {
        lemma_y1_row_scan_range(pal, c, l, i1, j - 1);
        lemma_y1_ratio_scan_range(pal, c, l, i1, j - 1, y1_ratio_count(l, i1, j - 1));
    }
}

/// The whole scan returns a valid pair and ratio.
pub proof fn lemma_y1_scan_range(pal: Seq<Rgb>, c: Rgb, l: int, i: int)
    requires
        i >= 1,
        i <= pal.len(),
        l >= 1,
    ensures
        ({
            let b = y1_scan(pal, c, l, i);
            0 <= b.i1 < pal.len() && b.i1 <= b.i2 < pal.len() && 0 <= b.ratio < l
        }),
    decreases i,
{
    lemma_y1_row_scan_range(pal, c, l, i - 1, pal.len() as int);
    if i > 1 {
        lemma_y1_scan_range(pal, c, l, i - 1);
    } else {
        lemma_y1_row_scan_range(pal, c, l, 0, pal.len() as int);
    }
}

/// One pixel of the first Yliluoma dither: the pair and ratio of least
/// penalty, the Bayer cell choosing between the two colors.
pub open spec fn spec_yliluoma1_pixel(pal: Seq<Rgb>, dim: int, x: int, y: int, c: Rgb) -> Rgb {
    let l = dim * dim;
    let best = spec_y1_best(pal, c, l);
    if spec_bayer_index(dim, x, y) < best.ratio {
        pal[best.i2]
    } else {
        pal[best.i1]
    }
}

/// One mix channel, in executable form.
fn mix_channel(a: u8, b: u8, ratio: u32, l: u32) -> (v: u8)
    requires
        1 <= l <= 64,
        ratio < l,
    ensures
        v as int == y1_mix_channel(a as int, b as int, ratio as int, l as int),
        v <= 255,
{
    proof {
        let ai = a as int;
        let bi = b as int;
        let ri = ratio as int;
        let li = l as int;
        assert(ai * (li - ri) + ri * bi == ai * li + ri * (bi - ai)) by (nonlinear_arith);
        assert(0 <= ai * (li - ri) + ri * bi <= 255 * li) by (nonlinear_arith)
            requires
                0 <= ai <= 255,
                0 <= bi <= 255,
                0 <= ri < li,
        ;
    }
    let num: u32 = (a as u32) * (l - ratio) + ratio * (b as u32);
    proof {
        let ai = a as int;
        let bi = b as int;
        let ri = ratio as int;
        let li = l as int;
        assert((ai * li + ri * (bi - ai)) / li <= 255) by {
            vstd::arithmetic::div_mod::lemma_div_is_ordered(ai * li + ri * (bi - ai), 255 * li, li);
            assert(255 * li / li == 255) by (nonlinear_arith)
                requires
                    li >= 1,
            ;
        }
        vstd::arithmetic::div_mod::lemma_div_pos_is_pos(ai * li + ri * (bi - ai), li);
    }
    (num / l) as u8
}

/// A weighted distance times a small factor fits the penalty range.
proof fn lemma_y1_penalty_bound(pal: Seq<Rgb>, c: Rgb, i1: int, i2: int, ratio: int, l: int)
    requires
        0 <= i1 < pal.len(),
        0 <= i2 < pal.len(),
        1 <= l <= 64,
        0 <= ratio < l,
    ensures
        0 <= y1_penalty(pal, c, i1, i2, ratio, l) < 0x100_0000_0000,
{
    let wd1 = spec_wdist_milli(c, y1_mix(pal[i1], pal[i2], ratio, l));
    let wd2 = spec_wdist_milli(pal[i1], pal[i2]);
    crate::color::lemma_wdist_bound(c, y1_mix(pal[i1], pal[i2], ratio, l));
    crate::color::lemma_wdist_bound(pal[i1], pal[i2]);
    assert(0 <= 20 * l * wd1 <= 20 * 64 * 65_025_000) by (nonlinear_arith)
        requires
            1 <= l <= 64,
            0 <= wd1 <= 65_025_000,
    ;
    assert(0 <= abs_i(2 * ratio - l) + l <= 128);
    assert(0 <= wd2 * (abs_i(2 * ratio - l) + l) <= 65_025_000 * 128) by (nonlinear_arith)
        requires
            0 <= wd2 <= 65_025_000,
            0 <= abs_i(2 * ratio - l) + l <= 128,
    ;
}

/// The penalty of one candidate, in executable form.
fn candidate_penalty(pal: &Vec<Rgb>, c: Rgb, i1: usize, i2: usize, ratio: u32, l: u32) -> (pen:
    u64)
    requires
        i1 < pal@.len(),
        i2 < pal@.len(),
        1 <= l <= 64,
        ratio < l,
    ensures
        pen as int == y1_penalty(pal@, c, i1 as int, i2 as int, ratio as int, l as int),
        pen < 0x100_0000_0000,
{
    proof {
        lemma_y1_penalty_bound(pal@, c, i1 as int, i2 as int, ratio as int, l as int);
    }
    let c1 = pal[i1];
    let c2 = pal[i2];
    let mix = Rgb {
        r: mix_channel(c1.r, c2.r, ratio, l),
        g: mix_channel(c1.g, c2.g, ratio, l),
        b: mix_channel(c1.b, c2.b, ratio, l),
    };
    let wd1: u64 = wdist_milli(c, mix) as u64;
    let wd2: u64 = wdist_milli(c1, c2) as u64;
    let imbalance: u64 = if 2 * ratio >= l {
        (2 * ratio - l + l) as u64
    } else {
        (l - 2 * ratio + l) as u64
    };
    proof {
        assert(20 * (l as int) * (wd1 as int) <= 20 * 64 * 65_025_000) by (nonlinear_arith)
            requires
                1 <= l as int <= 64,
                0 <= wd1 as int <= 65_025_000,
        ;
        assert((wd2 as int) * (imbalance as int) <= 65_025_000 * 128) by (nonlinear_arith)
            requires
                0 <= wd2 as int <= 65_025_000,
                0 <= imbalance as int <= 128,
        ;
    }
    20 * (l as u64) * wd1 + wd2 * imbalance
}

/// The first Yliluoma ordered dither, for the Bayer dimensions 2, 4 and
/// 8: per pixel, the exhaustive pair-and-ratio search of least penalty,
/// then the Bayer cell picks between the pair's two colors; alpha is
/// kept.
pub fn ordered_yliluoma1_luma(
    pixels: &mut Vec<u8>,
    width: usize,
    height: usize,
    palette: &Vec<Rgb>,
    dim: usize,
)
    requires
        old(pixels)@.len() == width * height * 4,
        palette@.len() >= 1,
        dim == 2 || dim == 4 || dim == 8,
    ensures
        final(pixels)@.len() == old(pixels)@.len(),
        palette_mapped(old(pixels)@, final(pixels)@, palette@),
        forall|p: int|
            0 <= p < width * height ==> rgb_at(final(pixels)@, p) == spec_yliluoma1_pixel(
                palette@,
                dim as int,
                p % width as int,
                p / width as int,
                #[trigger] rgb_at(old(pixels)@, p),
            ),
{
    let ghost orig = pixels@;
    let l: u32 = (dim * dim) as u32;
    let n: usize = palette.len();
    let count: usize = pixels.len() / 4;
    assert(count == width * height);
    let mut p: usize = 0;
    while p < count
        invariant
            palette@.len() >= 1,
            n == palette@.len(),
            dim == 2 || dim == 4 || dim == 8,
            l as int == dim as int * dim as int,
            count == width * height,
            orig.len() == width * height * 4,
            pixels@.len() == orig.len(),
            p <= count,
            forall|q: int| p <= q < count ==> rgb_at(pixels@, q) == rgb_at(orig, q),
            forall|q: int|
                0 <= q < p ==> rgb_at(pixels@, q) == spec_yliluoma1_pixel(
                    palette@,
                    dim as int,
                    q % width as int,
                    q / width as int,
                    #[trigger] rgb_at(orig, q),
                ),
            forall|q: int| 0 <= q < count ==> #[trigger] alpha_at(pixels@, q) == alpha_at(orig, q),
        decreases count - p,
    {
        let x: usize = p % width;
        let y: usize = p / width;
        let c = get_pixel_rgb(pixels, p);
        assert(c == rgb_at(orig, p as int));

        // Pair (0, 0) seeds the running best, as the scan's base case.
        let mut gpen: u64 = candidate_penalty(palette, c, 0, 0, 0, l);
        let mut g1: usize = 0;
        let mut g2: usize = 0;
        let mut gratio: u32 = 0;
        let mut i1: usize = 0;
        while i1 < n
            invariant
                palette@.len() >= 1,
                n == palette@.len(),
                1 <= l <= 64,
                i1 <= n,
                g1 < n,
                g2 < n,
                gratio < l,
                i1 == 0 ==> (Y1Best {
                    pen: gpen as int,
                    i1: g1 as int,
                    i2: g2 as int,
                    ratio: gratio as int,
                }) == y1_row_scan(palette@, c, l as int, 0, 1),
                i1 >= 1 ==> (Y1Best {
                    pen: gpen as int,
                    i1: g1 as int,
                    i2: g2 as int,
                    ratio: gratio as int,
                }) == y1_scan(palette@, c, l as int, i1 as int),
            decreases n - i1,
        {
            // The diagonal pair (i1, i1) opens the row; for the first
            // row it already seeded the running best.
            if i1 > 0 {
                let dpen = candidate_penalty(palette, c, i1, i1, 0, l);
                if dpen < gpen {
                    gpen = dpen;
                    g1 = i1;
                    g2 = i1;
                    gratio = 0;
                }
            }
            let ghost seeded = Y1Best {
                pen: gpen as int,
                i1: g1 as int,
                i2: g2 as int,
                ratio: gratio as int,
            };
            proof {
                if i1 == 0 {
                    assert(seeded == y1_row_scan(palette@, c, l as int, 0, 1));
                } else {
                    let row1 = y1_row_scan(palette@, c, l as int, i1 as int, i1 as int + 1);
                    assert(row1.pen == y1_ratio_scan(
                        palette@,
                        c,
                        l as int,
                        i1 as int,
                        i1 as int,
                        1,
                    ).0);
                }
            }
            let mut i2: usize = i1 + 1;
            while i2 < n
                invariant
                    palette@.len() >= 1,
                    n == palette@.len(),
                    1 <= l <= 64,
                    i1 < n,
                    i1 + 1 <= i2 <= n,
                    g1 < n,
                    g2 < n,
                    gratio < l,
                    i1 == 0 ==> (Y1Best {
                        pen: gpen as int,
                        i1: g1 as int,
                        i2: g2 as int,
                        ratio: gratio as int,
                    }) == y1_row_scan(palette@, c, l as int, 0, i2 as int),
                    i1 >= 1 ==> ({
                        let prev = y1_scan(palette@, c, l as int, i1 as int);
                        let row = y1_row_scan(palette@, c, l as int, i1 as int, i2 as int);
                        (Y1Best {
                            pen: gpen as int,
                            i1: g1 as int,
                            i2: g2 as int,
                            ratio: gratio as int,
                        }) == (if row.pen < prev.pen {
                            row
                        } else {
                            prev
                        })
                    }),
                decreases n - i2,
            {
                // Scan the ratios of pair (i1, i2).
                let mut cpen: u64 = candidate_penalty(palette, c, i1, i2, 0, l);
                let mut cratio: u32 = 0;
                let mut r: u32 = 1;
                while r < l
                    invariant
                        palette@.len() >= 1,
                        i1 < n <= palette@.len(),
                        i2 < n,
                        1 <= r <= l <= 64,
                        cratio < r,
                        (cpen as int, cratio as int) == y1_ratio_scan(
                            palette@,
                            c,
                            l as int,
                            i1 as int,
                            i2 as int,
                            r as int,
                        ),
                    decreases l - r,
                {
                    let pen = candidate_penalty(palette, c, i1, i2, r, l);
                    if pen < cpen {
                        cpen = pen;
                        cratio = r;
                    }
                    r = r + 1;
                }
                assert((cpen as int, cratio as int) == y1_ratio_scan(
                    palette@,
                    c,
                    l as int,
                    i1 as int,
                    i2 as int,
                    y1_ratio_count(l as int, i1 as int, i2 as int),
                ));
                if cpen < gpen {
                    gpen = cpen;
                    g1 = i1;
                    g2 = i2;
                    gratio = cratio;
                }
                i2 = i2 + 1;
            }
            i1 = i1 + 1;
            proof {
                if i1 == 1 {
                    assert(y1_scan(palette@, c, l as int, 1) == y1_row_scan(
                        palette@,
                        c,
                        l as int,
                        0,
                        n as int,
                    ));
                }
            }
        }
        assert(Y1Best { pen: gpen as int, i1: g1 as int, i2: g2 as int, ratio: gratio as int }
            == spec_y1_best(palette@, c, l as int));
        let m = bayer_index(dim, x, y);
        let pick: usize = if (m as u32) < gratio {
            g2
        } else {
            g1
        };
        set_pixel_rgb(pixels, p, palette[pick]);
        p = p + 1;
    }
    assert forall|p0: int| 0 <= p0 < orig.len() / 4 implies #[trigger] palette_has(
        palette@,
        rgb_at(pixels@, p0),
    ) by {
        let c0 = rgb_at(orig, p0);
        lemma_y1_scan_range(palette@, c0, (dim * dim) as int, palette@.len() as int);
        let b = spec_y1_best(palette@, c0, (dim * dim) as int);
        assert(palette@[b.i1] == palette@[b.i1] && palette@[b.i2] == palette@[b.i2]);
    }
}

/// A mixing plan for a palette: one entry per palette color, every
/// entry a palette index, ordered by ascending palette luma.
pub open spec fn is_sorted_plan(plan: Seq<usize>, pal: Seq<Rgb>) -> bool {
    &&& plan.len() == pal.len()
    &&& forall|i: int| 0 <= i < plan.len() ==> (#[trigger] plan[i]) < pal.len()
    &&& forall|a: int, b: int|
        0 <= a < b < plan.len() ==> spec_luma_milli(pal[#[trigger] plan[a] as int])
            <= spec_luma_milli(pal[#[trigger] plan[b] as int])
}

/// The plan slot a pixel's Bayer cell selects.
pub open spec fn spec_plan_index(dim: int, x: int, y: int, n: int) -> int {
    (spec_bayer_index(dim, x, y) * n) / (dim * dim)
}


/// Accumulator arithmetic of one doubling trial.
proof fn lemma_y2_sum_step(sof: int, pw: int, cv: int)
    ensures
        (sof + (pw - 1) * cv) + pw * cv == sof + (2 * pw - 1) * cv,
        pw * cv + pw * cv == (2 * pw) * cv,
{
    assert((sof + (pw - 1) * cv) + pw * cv == sof + (2 * pw - 1) * cv) by (nonlinear_arith);
    assert(pw * cv + pw * cv == (2 * pw) * cv) by (nonlinear_arith);
}

/// One trial channel of the plan search: the running sum plus `2*pw - 1`
/// copies of the candidate color, averaged over the filled slots plus
/// `pw`, capped at a byte.
pub open spec fn y2_test_chan(sof: int, pt: int, col: int, pw: int) -> int {
    let v = (sof + (2 * pw - 1) * col) / (pt + pw);
    if v > 255 {
        255
    } else {
        v
    }
}

/// The trial color of adding `pw` copies of palette entry `idx`.
pub open spec fn y2_test(pal: Seq<Rgb>, sofr: int, sofg: int, sofb: int, pt: int, idx: int, pw: int) -> Rgb {
    Rgb {
        r: y2_test_chan(sofr, pt, pal[idx].r as int, pw) as u8,
        g: y2_test_chan(sofg, pt, pal[idx].g as int, pw) as u8,
        b: y2_test_chan(sofb, pt, pal[idx].b as int, pw) as u8,
    }
}

/// The doubling trials of one candidate color, threaded through the
/// running best `(penalty, color, amount)`: `pw` doubles from one while
/// it stays within the test budget, a strictly smaller penalty taking
/// over.
pub open spec fn y2_pw_scan(
    pal: Seq<Rgb>,
    c: Rgb,
    sofr: int,
    sofg: int,
    sofb: int,
    pt: int,
    max_test: int,
    idx: int,
    pw: int,
    st: (int, int, int),
) -> (int, int, int)
    decreases 2 * max_test - pw,
{
    if pw <= 0 || pw > max_test {
        st
    } else {
        let pen = spec_wdist_milli(c, y2_test(pal, sofr, sofg, sofb, pt, idx, pw));
        let st2 = if pen < st.0 {
            (pen, idx, pw)
        } else {
            st
        };
        y2_pw_scan(pal, c, sofr, sofg, sofb, pt, max_test, idx, 2 * pw, st2)
    }
}

/// The full candidate scan of one plan step: every palette color's
/// doubling trials in order, starting from no candidate (an infinite
/// penalty stand-in, color zero, amount one).
pub open spec fn y2_idx_scan(
    pal: Seq<Rgb>,
    c: Rgb,
    sofr: int,
    sofg: int,
    sofb: int,
    pt: int,
    max_test: int,
    i: int,
) -> (int, int, int)
    decreases i,
{
    if i <= 0 {
        (0xFFFF_FFFF, 0, 1)
    } else {
        y2_pw_scan(
            pal,
            c,
            sofr,
            sofg,
            sofb,
            pt,
            max_test,
            i - 1,
            1,
            y2_idx_scan(pal, c, sofr, sofg, sofb, pt, max_test, i - 1),
        )
    }
}

/// The greedy mixing plan grown from a partial plan and its channel
/// sums: while slots remain, the candidate scan picks the color and
/// power-of-two block size of least penalty, the block fills the plan
/// (clipped at the plan length), and the sums absorb the whole block.
pub open spec fn y2_plan_from(
    pal: Seq<Rgb>,
    c: Rgb,
    plan: Seq<usize>,
    sofr: int,
    sofg: int,
    sofb: int,
) -> Seq<usize>
    decreases pal.len() - plan.len(),
{
    if plan.len() >= pal.len() {
        plan
    } else {
        let pt = plan.len() as int;
        let mt = if pt > 0 {
            pt
        } else {
            1
        };
        let st = y2_idx_scan(pal, c, sofr, sofg, sofb, pt, mt, pal.len() as int);
        let chosen = st.1;
        let amount = if st.2 < 1 {
            1
        } else {
            st.2
        };
        let room = pal.len() - plan.len();
        let take = if amount <= room {
            amount
        } else {
            room as int
        };
        let plan2 = plan + Seq::new(take as nat, |t: int| chosen as usize);
        let col = pal[chosen];
        y2_plan_from(
            pal,
            c,
            plan2,
            spec_sat_acc(sofr, col.r as int * amount),
            spec_sat_acc(sofg, col.g as int * amount),
            spec_sat_acc(sofb, col.b as int * amount),
        )
    }
}

/// The luma keys of a palette.
pub open spec fn y2_keys(pal: Seq<Rgb>) -> Seq<u32> {
    Seq::new(pal.len(), |i: int| spec_luma_milli(pal[i]) as u32)
}

/// One pixel of the second Yliluoma dither: the greedy mixing plan for
/// the pixel, sorted by palette luma, indexed by the pixel's Bayer
/// slot.
pub open spec fn spec_yliluoma2_pixel(pal: Seq<Rgb>, dim: int, x: int, y: int, c: Rgb) -> Rgb {
    let plan = spec_ins_sort(y2_plan_from(pal, c, Seq::empty(), 0, 0, 0), y2_keys(pal));
    pal[plan[spec_plan_index(dim, x, y, pal.len() as int)] as int]
}

/// Pixel `q` of the buffer carries the color some luma-sorted
/// full-length mixing plan holds at the pixel's Bayer slot.
pub open spec fn y2_pixel_ok(s: Seq<u8>, pal: Seq<Rgb>, dim: int, w: int, q: int) -> bool {
    exists|plan: Seq<usize>|
        #[trigger] is_sorted_plan(plan, pal) && rgb_at(s, q) == pal[plan[spec_plan_index(
            dim,
            q % w,
            q / w,
            pal.len() as int,
        )] as int]
}

/// Keys are non-decreasing along the plan.
pub open spec fn plan_sorted_by(plan: Seq<usize>, keys: Seq<u32>) -> bool {
    forall|a: int, b: int|
        0 <= a < b < plan.len() ==> keys[#[trigger] plan[a] as int] <= keys[#[trigger] plan[b] as int]
}

/// One element bubbled left to its place: swap while the key to the
/// left is strictly greater.
pub open spec fn spec_bubble(plan: Seq<usize>, keys: Seq<u32>, j: int) -> Seq<usize>
    decreases j,
{
    if j <= 0 {
        plan
    } else if keys[plan[j - 1] as int] <= keys[plan[j] as int] {
        plan
    } else {
        spec_bubble(plan.update(j - 1, plan[j]).update(j, plan[j - 1]), keys, j - 1)
    }
}

/// The plan after the first `i` insertion passes.
pub open spec fn spec_ins_sort_upto(plan: Seq<usize>, keys: Seq<u32>, i: int) -> Seq<usize>
    decreases i,
{
    if i <= 1 {
        plan
    } else {
        spec_bubble(spec_ins_sort_upto(plan, keys, i - 1), keys, i - 1)
    }
}

/// The stable insertion sort of a plan by its luma keys.
pub open spec fn spec_ins_sort(plan: Seq<usize>, keys: Seq<u32>) -> Seq<usize> {
    spec_ins_sort_upto(plan, keys, plan.len() as int)
}

/// Sort the plan ascending by the luma key of each palette index, by
/// stable insertion: exactly `spec_ins_sort`.
fn sort_plan_by_luma(plan: &mut Vec<usize>, keys: &Vec<u32>)
    requires
        forall|i: int| 0 <= i < old(plan)@.len() ==> #[trigger] old(plan)@[i] < keys@.len(),
    ensures
        final(plan)@.len() == old(plan)@.len(),
        forall|i: int| 0 <= i < final(plan)@.len() ==> #[trigger] final(plan)@[i] < keys@.len(),
        plan_sorted_by(final(plan)@, keys@),
        final(plan)@ == spec_ins_sort(old(plan)@, keys@),
{
    let ghost orig_plan = plan@;
    let n = plan.len();
    if n <= 1 {
        return ;
    }
    let mut i: usize = 1;
    while i < n
        invariant
            n == plan@.len(),
            2 <= n,
            1 <= i <= n,
            forall|k: int| 0 <= k < n ==> #[trigger] plan@[k] < keys@.len(),
            forall|a: int, b: int|
                0 <= a < b < i ==> keys@[#[trigger] plan@[a] as int] <= keys@[
                    #[trigger] plan@[b] as int],
            plan@ == spec_ins_sort_upto(orig_plan, keys@, i as int),
        decreases n - i,
    {
        let ghost pass_entry = plan@;
        let mut j: usize = i;
        while j > 0 && keys[plan[j - 1]] > keys[plan[j]]
            invariant
                n == plan@.len(),
                2 <= n,
                1 <= i < n,
                0 <= j <= i,
                forall|k: int| 0 <= k < n ==> #[trigger] plan@[k] < keys@.len(),
                forall|a: int, b: int|
                    0 <= a < b <= i && b != j ==> keys@[#[trigger] plan@[a] as int] <= keys@[
                        #[trigger] plan@[b] as int],
                forall|b: int|
                    j < b <= i ==> keys@[plan@[j as int] as int] <= keys@[#[trigger] plan@[b] as int],
                spec_bubble(pass_entry, keys@, i as int) == spec_bubble(plan@, keys@, j as int),
            decreases j,
        {
            let t = plan[j - 1];
            let u = plan[j];
            let ghost before_swap = plan@;
            plan.set(j - 1, u);
            plan.set(j, t);
            proof {
                assert(plan@ =~= before_swap.update(j - 1, before_swap[j as int]).update(
                    j as int,
                    before_swap[j - 1],
                ));
            }
            j = j - 1;
        }
        proof {
            assert(spec_bubble(plan@, keys@, j as int) == plan@);
            assert(plan@ == spec_bubble(pass_entry, keys@, i as int));
            assert(spec_ins_sort_upto(orig_plan, keys@, i as int + 1) == spec_bubble(
                spec_ins_sort_upto(orig_plan, keys@, i as int),
                keys@,
                i as int,
            ));
        }
        assert forall|a: int, b: int| 0 <= a < b <= i implies keys@[#[trigger] plan@[a] as int]
            <= keys@[#[trigger] plan@[b] as int] by {
            if b == j {
                assert(j > 0);
                assert(keys@[plan@[j - 1] as int] <= keys@[plan@[j as int] as int]);
                if a < j - 1 {
                    assert(keys@[plan@[a] as int] <= keys@[plan@[j - 1] as int]);
                }
            }
        }
        i = i + 1;
    }
}

/// A channel sum accumulated up to the plan ceiling.
pub open spec fn spec_sat_acc(acc: int, v: int) -> int {
    if acc + v > 0x100_0000_0000_0000_0000_0000_0000_0000 {
        0x100_0000_0000_0000_0000_0000_0000_0000
    } else {
        acc + v
    }
}

/// Accumulate into the running channel sum of the mixing plan; the sum
/// stops at a ceiling far above what any real palette can reach, so the
/// additions around it stay inside the 128-bit range.
fn sat_acc(acc: u128, v: u128) -> (r: u128)
    requires
        acc <= 0x100_0000_0000_0000_0000_0000_0000_0000,
        v <= 0x1_0000_0000_0000_0000_0000,
    ensures
        r as int == spec_sat_acc(acc as int, v as int),
        r <= 0x100_0000_0000_0000_0000_0000_0000_0000,
{
    if acc > 0x100_0000_0000_0000_0000_0000_0000_0000 - 0x1_0000_0000_0000_0000_0000 {
        if acc + v > 0x100_0000_0000_0000_0000_0000_0000_0000 {
            0x100_0000_0000_0000_0000_0000_0000_0000
        } else {
            acc + v
        }
    } else {
        acc + v
    }
}

/// The second Yliluoma ordered dither, for the Bayer dimensions 2, 4
/// and 8: per pixel, a mixing plan of palette indices (one per palette
/// entry) is built by greedily adding power-of-two blocks of the color
/// that most lowers the luma-weighted error against the pixel; the plan
/// is sorted by palette luma and indexed by the pixel's Bayer cell.
/// Every output pixel carries a palette color and its original alpha,
/// and is the entry some luma-sorted full-length plan holds at the
/// pixel's Bayer slot (the contract does not restate how the greedy
/// search builds the plan).
pub fn ordered_yliluoma2_luma(
    pixels: &mut Vec<u8>,
    width: usize,
    height: usize,
    palette: &Vec<Rgb>,
    dim: usize,
)
    requires
        old(pixels)@.len() == width * height * 4,
        palette@.len() >= 1,
        dim == 2 || dim == 4 || dim == 8,
    ensures
        final(pixels)@.len() == old(pixels)@.len(),
        palette_mapped(old(pixels)@, final(pixels)@, palette@),
        forall|p: int|
            0 <= p < width * height ==> #[trigger] y2_pixel_ok(
                final(pixels)@,
                palette@,
                dim as int,
                width as int,
                p,
            ),
        forall|p: int|
            0 <= p < width * height ==> #[trigger] rgb_at(final(pixels)@, p)
                == spec_yliluoma2_pixel(
                palette@,
                dim as int,
                p % width as int,
                p / width as int,
                rgb_at(old(pixels)@, p),
            ),
{
    let ghost orig = pixels@;
    let l: usize = dim * dim;
    let n: usize = palette.len();
    let mut keys: Vec<u32> = Vec::new();
    let mut k: usize = 0;
    while k < n
        invariant
            n == palette@.len(),
            k <= n,
            keys@.len() == k,
            forall|i: int| 0 <= i < k ==> keys@[i] as int == spec_luma_milli(#[trigger] palette@[i]),
        decreases n - k,
    {
        keys.push(luma_milli(palette[k]));
        k = k + 1;
    }
    proof {
        assert(keys@ =~= y2_keys(palette@));
    }
    let count: usize = pixels.len() / 4;
    assert(count == width * height);
    let mut p: usize = 0;
    while p < count
        invariant
            palette@.len() >= 1,
            n == palette@.len(),
            keys@.len() == n,
            keys@ == y2_keys(palette@),
            dim == 2 || dim == 4 || dim == 8,
            l == dim * dim,
            count == width * height,
            orig.len() == width * height * 4,
            pixels@.len() == orig.len(),
            p <= count,
            forall|i: int| 0 <= i < n ==> keys@[i] as int == spec_luma_milli(#[trigger] palette@[i]),
            forall|q: int|
                0 <= q < p ==> #[trigger] rgb_at(pixels@, q) == spec_yliluoma2_pixel(
                    palette@,
                    dim as int,
                    q % width as int,
                    q / width as int,
                    rgb_at(orig, q),
                ),
            forall|q: int| p <= q < count ==> rgb_at(pixels@, q) == rgb_at(orig, q),
            forall|q: int|
                0 <= q < p ==> #[trigger] palette_has(palette@, rgb_at(pixels@, q)),
            forall|q: int|
                0 <= q < p ==> #[trigger] y2_pixel_ok(
                    pixels@,
                    palette@,
                    dim as int,
                    width as int,
                    q,
                ),
            forall|q: int| 0 <= q < count ==> #[trigger] alpha_at(pixels@, q) == alpha_at(orig, q),
        decreases count - p,
    {
        let x: usize = p % width;
        let y: usize = p / width;
        let c = get_pixel_rgb(pixels, p);

        // Devise the mixing plan.
        let mut plan: Vec<usize> = Vec::new();
        let mut pt: usize = 0;
        let mut sof_r: u128 = 0;
        let mut sof_g: u128 = 0;
        let mut sof_b: u128 = 0;
        while pt < n
            invariant
                palette@.len() >= 1,
                n == palette@.len(),
                plan@.len() == pt <= n,
                forall|i: int| 0 <= i < pt ==> #[trigger] plan@[i] < n,
                sof_r <= 0x100_0000_0000_0000_0000_0000_0000_0000,
                sof_g <= 0x100_0000_0000_0000_0000_0000_0000_0000,
                sof_b <= 0x100_0000_0000_0000_0000_0000_0000_0000,
                y2_plan_from(palette@, c, plan@, sof_r as int, sof_g as int, sof_b as int)
                    == y2_plan_from(palette@, c, Seq::empty(), 0, 0, 0),
            decreases n - pt,
        {
            let ghost pre_plan = plan@;
            let ghost pre_sofr = sof_r as int;
            let ghost pre_sofg = sof_g as int;
            let ghost pre_sofb = sof_b as int;
            let max_test: usize = if pt > 0 {
                pt
            } else {
                1
            };
            let mut least: u32 = u32::MAX;
            let mut chosen: usize = 0;
            let mut chosen_amount: u128 = 1;
            let mut idx: usize = 0;
            while idx < n
                invariant
                    palette@.len() >= 1,
                    n == palette@.len(),
                    idx <= n,
                    pt < n,
                    pt as int == pre_plan.len(),
                    sof_r as int == pre_sofr,
                    sof_g as int == pre_sofg,
                    sof_b as int == pre_sofb,
                    chosen < n,
                    1 <= chosen_amount <= max_test,
                    1 <= max_test <= n,
                    max_test as int == (if pt > 0 {
                        pt as int
                    } else {
                        1int
                    }),
                    sof_r <= 0x100_0000_0000_0000_0000_0000_0000_0000,
                    sof_g <= 0x100_0000_0000_0000_0000_0000_0000_0000,
                    sof_b <= 0x100_0000_0000_0000_0000_0000_0000_0000,
                    (least as int, chosen as int, chosen_amount as int) == y2_idx_scan(
                        palette@,
                        c,
                        sof_r as int,
                        sof_g as int,
                        sof_b as int,
                        pt as int,
                        max_test as int,
                        idx as int,
                    ),
                decreases n - idx,
            {
                let ghost st0 = (least as int, chosen as int, chosen_amount as int);
                let color = palette[idx];
                let mut sum_r: u128 = sof_r;
                let mut sum_g: u128 = sof_g;
                let mut sum_b: u128 = sof_b;
                let mut add_r: u128 = color.r as u128;
                let mut add_g: u128 = color.g as u128;
                let mut add_b: u128 = color.b as u128;
                let mut pw: u128 = 1;
                while pw <= max_test as u128
                    invariant
                        palette@.len() >= 1,
                        n == palette@.len(),
                        idx < n,
                        chosen < n,
                        color == palette@[idx as int],
                        1 <= chosen_amount <= max_test,
                        1 <= max_test <= n,
                        1 <= pw <= 2 * (max_test as u128),
                        add_r <= 255 * pw,
                        add_g <= 255 * pw,
                        add_b <= 255 * pw,
                        sum_r <= 0x100_0000_0000_0000_0000_0000_0000_0000 + 510 * pw,
                        sum_g <= 0x100_0000_0000_0000_0000_0000_0000_0000 + 510 * pw,
                        sum_b <= 0x100_0000_0000_0000_0000_0000_0000_0000 + 510 * pw,
                        sum_r as int == sof_r as int + (pw as int - 1) * (color.r as int),
                        sum_g as int == sof_g as int + (pw as int - 1) * (color.g as int),
                        sum_b as int == sof_b as int + (pw as int - 1) * (color.b as int),
                        add_r as int == (pw as int) * (color.r as int),
                        add_g as int == (pw as int) * (color.g as int),
                        add_b as int == (pw as int) * (color.b as int),
                        pt < n,
                        y2_pw_scan(
                            palette@,
                            c,
                            sof_r as int,
                            sof_g as int,
                            sof_b as int,
                            pt as int,
                            max_test as int,
                            idx as int,
                            pw as int,
                            (least as int, chosen as int, chosen_amount as int),
                        ) == y2_pw_scan(
                            palette@,
                            c,
                            sof_r as int,
                            sof_g as int,
                            sof_b as int,
                            pt as int,
                            max_test as int,
                            idx as int,
                            1,
                            st0,
                        ),
                    decreases 2 * (max_test as u128) - pw,
                {
                    let ghost st_in = (least as int, chosen as int, chosen_amount as int);
                    let ghost pw_in = pw as int;
                    sum_r = sum_r + add_r;
                    sum_g = sum_g + add_g;
                    sum_b = sum_b + add_b;
                    add_r = add_r + add_r;
                    add_g = add_g + add_g;
                    add_b = add_b + add_b;
                    proof {
                        lemma_y2_sum_step(sof_r as int, pw_in, color.r as int);
                        lemma_y2_sum_step(sof_g as int, pw_in, color.g as int);
                        lemma_y2_sum_step(sof_b as int, pw_in, color.b as int);
                    }
                    let t: u128 = (pt as u128) + pw;
                    let tr: u128 = sum_r / t;
                    let tg: u128 = sum_g / t;
                    let tb: u128 = sum_b / t;
                    let test = Rgb {
                        r: if tr > 255 {
                            255
                        } else {
                            tr as u8
                        },
                        g: if tg > 255 {
                            255
                        } else {
                            tg as u8
                        },
                        b: if tb > 255 {
                            255
                        } else {
                            tb as u8
                        },
                    };
                    proof {
                        assert(test == y2_test(
                            palette@,
                            sof_r as int,
                            sof_g as int,
                            sof_b as int,
                            pt as int,
                            idx as int,
                            pw_in,
                        ));
                    }
                    let pen = wdist_milli(c, test);
                    if pen < least {
                        least = pen;
                        chosen = idx;
                        chosen_amount = if pw > max_test as u128 {
                            max_test as u128
                        } else {
                            pw
                        };
                        proof {
                            assert(chosen_amount as int == pw_in);
                        }
                    }
                    proof {
                        assert(y2_pw_scan(
                            palette@,
                            c,
                            sof_r as int,
                            sof_g as int,
                            sof_b as int,
                            pt as int,
                            max_test as int,
                            idx as int,
                            2 * pw_in,
                            (least as int, chosen as int, chosen_amount as int),
                        ) == y2_pw_scan(
                            palette@,
                            c,
                            sof_r as int,
                            sof_g as int,
                            sof_b as int,
                            pt as int,
                            max_test as int,
                            idx as int,
                            pw_in,
                            st_in,
                        ));
                    }
                    pw = pw + pw;
                }
                idx = idx + 1;
            }
            // Fill the plan with the chosen color.
            let ghost pt0 = pt as int;
            let mut f: u128 = 0;
            while f < chosen_amount && pt < n
                invariant
                    n == palette@.len(),
                    plan@.len() == pt <= n,
                    chosen < n,
                    forall|i: int| 0 <= i < pt ==> #[trigger] plan@[i] < n,
                    f <= chosen_amount,
                    pt as int == pt0 + f,
                    plan@ =~= pre_plan + Seq::new(f as nat, |t2: int| chosen),
                decreases chosen_amount - f,
            {
                plan.push(chosen);
                pt = pt + 1;
                f = f + 1;
                proof {
                    assert(plan@ =~= pre_plan + Seq::new(f as nat, |t2: int| chosen));
                }
            }
            assert(pt as int > pt0);
            proof {
                // The pushed block is the clipped greedy block.
                let room = n as int - pre_plan.len();
                let take = if chosen_amount as int <= room {
                    chosen_amount as int
                } else {
                    room
                };
                assert(f as int == take);
            }
            let cc = palette[chosen];
            proof {
                assert(chosen_amount <= n as u128);
                assert((cc.r as u128) * chosen_amount <= 255 * (n as u128)) by (nonlinear_arith)
                    requires
                        cc.r as u128 <= 255,
                        chosen_amount <= n as u128,
                ;
                assert((cc.g as u128) * chosen_amount <= 255 * (n as u128)) by (nonlinear_arith)
                    requires
                        cc.g as u128 <= 255,
                        chosen_amount <= n as u128,
                ;
                assert((cc.b as u128) * chosen_amount <= 255 * (n as u128)) by (nonlinear_arith)
                    requires
                        cc.b as u128 <= 255,
                        chosen_amount <= n as u128,
                ;
            }
            sof_r = sat_acc(sof_r, (cc.r as u128) * chosen_amount);
            sof_g = sat_acc(sof_g, (cc.g as u128) * chosen_amount);
            sof_b = sat_acc(sof_b, (cc.b as u128) * chosen_amount);
            proof {
                // This iteration is one unfold of the greedy recursion.
                assert(y2_plan_from(palette@, c, plan@, sof_r as int, sof_g as int, sof_b as int)
                    == y2_plan_from(palette@, c, pre_plan, pre_sofr, pre_sofg, pre_sofb));
            }
        }
        proof {
            assert(plan@ == y2_plan_from(palette@, c, Seq::empty(), 0, 0, 0));
        }
        sort_plan_by_luma(&mut plan, &keys);
        proof {
            assert(plan@ == spec_ins_sort(
                y2_plan_from(palette@, c, Seq::empty(), 0, 0, 0),
                y2_keys(palette@),
            ));
        }
        let m = bayer_index(dim, x, y);
        proof {
            assert((m as int) * (n as int) < (l as int) * (n as int)) by (nonlinear_arith)
                requires
                    (m as int) < (l as int),
                    n as int >= 1,
            ;
            assert(((m as int) * (n as int)) / (l as int) < n as int) by {
                vstd::arithmetic::div_mod::lemma_multiply_divide_lt(
                    (m as int) * (n as int),
                    l as int,
                    n as int,
                );
            }
        }
        let pi128: u128 = ((m as u128) * (n as u128)) / (l as u128);
        let plan_index: usize = pi128 as usize;
        let pick = plan[plan_index];
        let ghost chosen_plan = plan@;
        let ghost prev_pixels = pixels@;
        set_pixel_rgb(pixels, p, palette[pick]);
        proof {
            assert(palette_has(palette@, rgb_at(pixels@, p as int)));
            assert(is_sorted_plan(chosen_plan, palette@));
            assert(plan_index as int == spec_plan_index(
                dim as int,
                p as int % width as int,
                p as int / width as int,
                palette@.len() as int,
            ));
            assert(rgb_at(pixels@, p as int) == palette@[chosen_plan[spec_plan_index(
                dim as int,
                p as int % width as int,
                p as int / width as int,
                palette@.len() as int,
            )] as int]);
            assert(y2_pixel_ok(pixels@, palette@, dim as int, width as int, p as int));
            assert(rgb_at(pixels@, p as int) == spec_yliluoma2_pixel(
                palette@,
                dim as int,
                p as int % width as int,
                p as int / width as int,
                rgb_at(orig, p as int),
            ));
            assert forall|q: int|
                0 <= q < p + 1 implies #[trigger] y2_pixel_ok(
                pixels@,
                palette@,
                dim as int,
                width as int,
                q,
            ) by {
                if q < p as int {
                    assert(y2_pixel_ok(prev_pixels, palette@, dim as int, width as int, q));
                    let prev_plan = choose|pl: Seq<usize>|
                        #[trigger] is_sorted_plan(pl, palette@) && rgb_at(prev_pixels, q)
                            == palette@[pl[spec_plan_index(
                            dim as int,
                            q % width as int,
                            q / width as int,
                            palette@.len() as int,
                        )] as int];
                    assert(rgb_at(pixels@, q) == rgb_at(prev_pixels, q));
                    assert(is_sorted_plan(prev_plan, palette@) && rgb_at(pixels@, q)
                        == palette@[prev_plan[spec_plan_index(
                        dim as int,
                        q % width as int,
                        q / width as int,
                        palette@.len() as int,
                    )] as int]);
                }
            }
        }
        p = p + 1;
    }
    proof {
        assert forall|p0: int| 0 <= p0 < width * height implies #[trigger] y2_pixel_ok(
            pixels@,
            palette@,
            dim as int,
            width as int,
            p0,
        ) by {
            assert(p0 < count as int);
        }
    }
}

} // verus!
