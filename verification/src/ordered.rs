//! Ordered (matrix) dithering: Bayer threshold matrices, the fixed-point
//! cube-root coefficient, and the half-to-even channel rounding shared by
//! the ordered algorithms.
//!
//! These algorithms divide the threshold by the cube root of the
//! palette size. The cube root is held in fixed point, scaled by 1024,
//! and every later step is exact rational arithmetic over that integer,
//! with the perturbed channel rounded half-to-even into a byte (the
//! rounding of a typed-array assignment).

use vstd::prelude::*;
use crate::color::{spec_wdist_milli, Rgb};
use crate::quant::{alpha_at, get_pixel_rgb, lemma_nearest_weighted_upto_in_range, palette_has,
    palette_mapped, rgb_at, nearest_weighted_index, set_pixel_rgb, spec_nearest_weighted};

verus! {

/// The 2x2 Bayer matrix value at `(x, y)`, both taken modulo two:
/// `[[0, 2], [3, 1]]`.
pub open spec fn spec_bayer2(x: int, y: int) -> int {
    2 * ((x + y) % 2) + y % 2
}

/// The 4x4 Bayer matrix value, derived from the 2x2 matrix by the
/// standard recurrence.
pub open spec fn spec_bayer4(x: int, y: int) -> int {
    4 * spec_bayer2(x, y) + spec_bayer2(x / 2, y / 2)
}

/// The 8x8 Bayer matrix value, derived from the 4x4 matrix.
pub open spec fn spec_bayer8(x: int, y: int) -> int {
    4 * spec_bayer4(x, y) + spec_bayer2(x / 4, y / 4)
}

/// The Bayer index used by the Stark and Yliluoma algorithms: the 2x2 or
/// 4x4 matrix for those dimensions, the 8x8 matrix for anything else.
pub open spec fn spec_bayer_index(dim: int, x: int, y: int) -> int {
    if dim == 2 {
        spec_bayer2(x, y)
    } else if dim == 4 {
        spec_bayer4(x, y)
    } else {
        spec_bayer8(x, y)
    }
}

/// The 2x2 Bayer value, between 0 and 3.
pub fn bayer2(x: usize, y: usize) -> (v: u8)
    ensures
        v as int == spec_bayer2(x as int, y as int),
        v < 4,
{
    let s: usize = (x % 2 + y % 2) % 2;
    assert((x as int + y as int) % 2 == ((x as int) % 2 + (y as int) % 2) % 2) by {
        vstd::arithmetic::div_mod::lemma_add_mod_noop(x as int, y as int, 2);
    }
    (2 * s + y % 2) as u8
}

/// The Bayer matrix value for the given dimension (2, 4, or anything
/// else meaning 8), tiled over the plane by the modulo inside the
/// matrix definitions.
pub fn bayer_index(dim: usize, x: usize, y: usize) -> (v: u8)
    ensures
        v as int == spec_bayer_index(dim as int, x as int, y as int),
        dim == 2 ==> v < 4,
        dim == 4 ==> v < 16,
        v < 64,
{
    if dim == 2 {
        bayer2(x, y)
    } else if dim == 4 {
        4 * bayer2(x, y) + bayer2(x / 2, y / 2)
    } else {
        let b4: u8 = 4 * bayer2(x, y) + bayer2(x / 2, y / 2);
        4 * b4 + bayer2(x / 4, y / 4)
    }
}

/// `c` is the cube root of `n`, scaled by 1024 and rounded down:
/// `c^3 <= n * 1024^3 < (c+1)^3`.
pub open spec fn is_cbrt_fp(n: int, c: int) -> bool {
    &&& c >= 1
    &&& c * c * c <= n * 0x40000000
    &&& n * 0x40000000 < (c + 1) * (c + 1) * (c + 1)
}

/// The fixed-point cube root of `n`, as a mathematical value.
pub open spec fn spec_cbrt_fp(n: int) -> int {
    choose|c: int| is_cbrt_fp(n, c)
}

/// Cubing is strictly monotone on positive numbers, so the fixed-point
/// cube root is unique.
pub proof fn lemma_cbrt_fp_unique(n: int, c1: int, c2: int)
    requires
        is_cbrt_fp(n, c1),
        is_cbrt_fp(n, c2),
    ensures
        c1 == c2,
{
    assert(c1 == c2) by (nonlinear_arith)
        requires
            c1 >= 1,
            c2 >= 1,
            c1 * c1 * c1 <= n * 0x40000000,
            n * 0x40000000 < (c1 + 1) * (c1 + 1) * (c1 + 1),
            c2 * c2 * c2 <= n * 0x40000000,
            n * 0x40000000 < (c2 + 1) * (c2 + 1) * (c2 + 1),
    ;
}

/// The cube root of the palette size, in fixed point: the largest `c`
/// with `c^3 <= n * 1024^3`. At least 1024 (the fixed-point one), and
/// below `2^32`.
pub fn cbrt_fp(n: usize) -> (c: u64)
    requires
        n >= 1,
    ensures
        is_cbrt_fp(n as int, c as int),
        c as int == spec_cbrt_fp(n as int),
        1024 <= c < 0x1_0000_0000,
{
    let target: u128 = (n as u128) * 0x40000000;
    let mut lo: u64 = 1024;
    let mut hi: u64 = 0x1_0000_0000;
    proof {
        assert((1024u128) * 1024 * 1024 == 0x40000000u128);
        assert(target >= 0x40000000) by (nonlinear_arith)
            requires
                target == (n as u128) * 0x40000000,
                n >= 1,
        ;
        assert((0x1_0000_0000u128) * 0x1_0000_0000 * 0x1_0000_0000 > target) by (nonlinear_arith)
            requires
                target == (n as u128) * 0x40000000,
                n as u128 <= 0xFFFF_FFFF_FFFF_FFFFu128,
        ;
    }
    while lo + 1 < hi
        invariant
            1024 <= lo < hi <= 0x1_0000_0000,
            target == (n as u128) * 0x40000000,
            (lo as u128) * (lo as u128) * (lo as u128) <= target,
            target < (hi as u128) * (hi as u128) * (hi as u128),
        decreases hi - lo,
    {
        let mid: u64 = lo + (hi - lo) / 2;
        proof {
            let m = mid as int;
            assert(m * m <= 0x1_0000_0000_0000_0000 && m * m * m
                <= 0x1_0000_0000_0000_0000_0000_0000) by (nonlinear_arith)
                requires
                    0 <= m <= 0x1_0000_0000,
            ;
        }
        let cube: u128 = (mid as u128) * (mid as u128) * (mid as u128);
        if cube <= target {
            lo = mid;
        } else {
            hi = mid;
        }
    }
    proof {
        assert(lo + 1 == hi);
        assert(is_cbrt_fp(n as int, lo as int));
        lemma_cbrt_fp_unique(n as int, lo as int, spec_cbrt_fp(n as int));
    }
    lo
}

/// Clamp `p / d` into `0 ..= 255`, rounding halves to the even
/// neighbour, the way a typed-array assignment rounds.
pub open spec fn spec_round_half_even_clamped(p: int, d: int) -> int {
    if p <= 0 {
        0
    } else if p >= 255 * d {
        255
    } else {
        let q = p / d;
        let r = p % d;
        if 2 * r > d {
            q + 1
        } else if 2 * r < d {
            q
        } else if q % 2 == 0 {
            q
        } else {
            q + 1
        }
    }
}

/// The rounded quotient lies in the byte range.
pub proof fn lemma_round_half_even_range(p: int, d: int)
    requires
        d >= 1,
    ensures
        0 <= spec_round_half_even_clamped(p, d) <= 255,
{
    if 0 < p < 255 * d {
        vstd::arithmetic::div_mod::lemma_div_pos_is_pos(p, d);
        assert(p / d < 255) by {
            vstd::arithmetic::div_mod::lemma_fundamental_div_mod(p, d);
            if p / d >= 255 {
                assert(p >= 255 * d) by (nonlinear_arith)
                    requires
                        d >= 1,
                        p / d >= 255,
                        p == d * (p / d) + p % d,
                        p % d >= 0,
                ;
            }
        }
        if 2 * (p % d) >= d {
            assert(p / d + 1 <= 255);
        }
    }
}

/// Exact half-to-even rounding of `p / d`, clamped into `0 ..= 255`.
pub fn round_half_even_clamped(p: i64, d: i64) -> (v: u8)
    requires
        1 <= d < 0x4000_0000_0000_0000,
    ensures
        v as int == spec_round_half_even_clamped(p as int, d as int),
{
    proof {
        lemma_round_half_even_range(p as int, d as int);
    }
    if p <= 0 {
        return 0u8;
    }
    let pu = p as u64;
    let du = d as u64;
    let q = pu / du;
    let r = pu % du;
    proof {
        vstd::arithmetic::div_mod::lemma_fundamental_div_mod(p as int, d as int);
    }
    if q >= 255 {
        proof {
            assert(p as int >= 255 * (d as int)) by (nonlinear_arith)
                requires
                    q >= 255,
                    d as int >= 1,
                    p as int == (d as int) * (q as int) + (r as int),
                    r as int >= 0,
                    q as int == (p as int) / (d as int),
                    r as int == (p as int) % (d as int),
            ;
        }
        return 255u8;
    }
    proof {
        assert((p as int) < 255 * (d as int)) by (nonlinear_arith)
            requires
                q < 255,
                d as int >= 1,
                p as int == (d as int) * (q as int) + (r as int),
                (r as int) < (d as int),
                q as int == (p as int) / (d as int),
                r as int == (p as int) % (d as int),
        ;
    }
    if 2 * r > du {
        (q + 1) as u8
    } else if 2 * r < du {
        q as u8
    } else if q % 2 == 0 {
        q as u8
    } else {
        (q + 1) as u8
    }
}

/// The Bayer matrix shapes of the ordered dither.
#[derive(Clone, Copy, Debug, PartialEq, Eq, Structural)]
pub enum OrderedMatrix {
    Bayer2,
    Bayer4,
    Bayer8,
}

impl OrderedMatrix {
    /// Side length of the matrix.
    pub open spec fn spec_dim(&self) -> int {
        match self {
            OrderedMatrix::Bayer2 => 2,
            OrderedMatrix::Bayer4 => 4,
            OrderedMatrix::Bayer8 => 8,
        }
    }

    pub fn dim(&self) -> (d: usize)
        ensures
            d as int == self.spec_dim(),
    {
        match self {
            OrderedMatrix::Bayer2 => 2,
            OrderedMatrix::Bayer4 => 4,
            OrderedMatrix::Bayer8 => 8,
        }
    }
}

/// Denominator of the normalized threshold times the coefficient
/// `256 / cbrt(palette size)`, for a matrix of `l` cells and the
/// fixed-point cube root `cf`.
pub open spec fn spec_ordered_denom(l: int, cf: int) -> int {
    2 * (l - 1) * cf
}

/// Numerator of the threshold for matrix cell value `m`: the normalized
/// threshold `m / (l-1) - 1/2` times `256 * 1024`, over the denominator
/// above.
pub open spec fn spec_ordered_num(l: int, m: int) -> int {
    262144 * (2 * m - (l - 1))
}

/// One channel after the ordered threshold is added and the result is
/// clamped and rounded half-to-even into a byte.
pub open spec fn spec_threshold_channel(v: int, m: int, l: int, cf: int) -> int {
    spec_round_half_even_clamped(
        v * spec_ordered_denom(l, cf) + spec_ordered_num(l, m),
        spec_ordered_denom(l, cf),
    )
}

/// A color after the ordered threshold of matrix cell `m` is applied to
/// each channel.
pub open spec fn spec_threshold_adjusted(c: Rgb, m: int, l: int, cf: int) -> Rgb {
    Rgb {
        r: spec_threshold_channel(c.r as int, m, l, cf) as u8,
        g: spec_threshold_channel(c.g as int, m, l, cf) as u8,
        b: spec_threshold_channel(c.b as int, m, l, cf) as u8,
    }
}

/// A channel value times a bounded threshold denominator stays well
/// inside the 64-bit range.
proof fn lemma_channel_product_bound(v: int, d: int)
    requires
        0 <= v <= 255,
        0 <= d <= 0x2_0000_0000_0000,
    ensures
        0 <= v * d <= 255 * 0x2_0000_0000_0000,
{
    assert(0 <= v * d <= 255 * 0x2_0000_0000_0000) by (nonlinear_arith)
        requires
            0 <= v <= 255,
            0 <= d <= 0x2_0000_0000_0000,
    ;
}

/// Apply the ordered threshold of matrix cell `m` (of `l` cells) to all
/// three channels, with the palette coefficient `cf`.
fn threshold_adjust(c: Rgb, m: u8, l: u64, cf: u64) -> (r: Rgb)
    requires
        2 <= l <= 65536,
        m as u64 <= l - 1,
        1024 <= cf < 0x1_0000_0000,
    ensures
        r == spec_threshold_adjusted(c, m as int, l as int, cf as int),
{
    proof {
        assert(2048 <= 2 * (l as int - 1) * (cf as int) <= 0x2_0000_0000_0000) by (nonlinear_arith)
            requires
                2 <= l as int <= 65536,
                1024 <= (cf as int) && (cf as int) < 0x1_0000_0000,
        ;
    }
    let d: i64 = 2 * (l as i64 - 1) * (cf as i64);
    let n: i64 = 262144 * (2 * (m as i64) - (l as i64 - 1));
    proof {
        lemma_channel_product_bound(c.r as int, d as int);
        lemma_channel_product_bound(c.g as int, d as int);
        lemma_channel_product_bound(c.b as int, d as int);
    }
    let pr: i64 = (c.r as i64) * d + n;
    let pg: i64 = (c.g as i64) * d + n;
    let pb: i64 = (c.b as i64) * d + n;
    Rgb {
        r: round_half_even_clamped(pr, d),
        g: round_half_even_clamped(pg, d),
        b: round_half_even_clamped(pb, d),
    }
}

/// One pixel of the ordered Bayer dither: threshold by the matrix cell
/// at `(x, y)`, then nearest palette color by luma-weighted distance.
pub open spec fn spec_ordered_bayer_pixel(
    pal: Seq<Rgb>,
    mat: OrderedMatrix,
    x: int,
    y: int,
    c: Rgb,
) -> Rgb {
    let dim = mat.spec_dim();
    let l = dim * dim;
    let cf = spec_cbrt_fp(pal.len() as int);
    let m = spec_bayer_index(dim, x, y);
    pal[spec_nearest_weighted(pal, spec_threshold_adjusted(c, m, l, cf))]
}

/// Ordered Bayer dithering in luma mode: every pixel is perturbed by the
/// precomputed normalized threshold of its matrix cell scaled by
/// `256 / cbrt(palette size)`, rounded half-to-even, and mapped to the
/// nearest palette color by luma-weighted squared distance; alpha is
/// kept.
pub fn ordered_bayer_luma(
    pixels: &mut Vec<u8>,
    width: usize,
    height: usize,
    palette: &Vec<Rgb>,
    mat: OrderedMatrix,
)
    requires
        old(pixels)@.len() == width * height * 4,
        palette@.len() >= 1,
    ensures
        final(pixels)@.len() == old(pixels)@.len(),
        palette_mapped(old(pixels)@, final(pixels)@, palette@),
        forall|p: int|
            0 <= p < width * height ==> rgb_at(final(pixels)@, p) == spec_ordered_bayer_pixel(
                palette@,
                mat,
                p % width as int,
                p / width as int,
                #[trigger] rgb_at(old(pixels)@, p),
            ),
{
    let ghost orig = pixels@;
    let cf = cbrt_fp(palette.len());
    let dim = mat.dim();
    let l: u64 = (dim * dim) as u64;
    let count: usize = pixels.len() / 4;
    assert(count == width * height);
    let mut p: usize = 0;
    while p < count
        invariant
            palette@.len() >= 1,
            cf as int == spec_cbrt_fp(palette@.len() as int),
            1024 <= cf < 0x1_0000_0000,
            dim as int == mat.spec_dim(),
            l as int == dim as int * dim as int,
            count == width * height,
            orig.len() == width * height * 4,
            pixels@.len() == orig.len(),
            p <= count,
            forall|q: int| p <= q < count ==> rgb_at(pixels@, q) == rgb_at(orig, q),
            forall|q: int|
                0 <= q < p ==> rgb_at(pixels@, q) == spec_ordered_bayer_pixel(
                    palette@,
                    mat,
                    q % width as int,
                    q / width as int,
                    #[trigger] rgb_at(orig, q),
                ),
            forall|q: int| 0 <= q < count ==> #[trigger] alpha_at(pixels@, q) == alpha_at(orig, q),
        decreases count - p,
    {
        let x: usize = p % width;
        let y: usize = p / width;
        let c = get_pixel_rgb(pixels, p);
        assert(c == rgb_at(orig, p as int));
        let m = bayer_index(dim, x, y);
        proof {
            if dim != 2 && dim != 4 {
                assert(l == 64);
            }
        }
        let adj = threshold_adjust(c, m, l, cf);
        let idx = nearest_weighted_index(palette, adj);
        set_pixel_rgb(pixels, p, palette[idx]);
        p = p + 1;
    }
    assert forall|p0: int| 0 <= p0 < orig.len() / 4 implies #[trigger] palette_has(
        palette@,
        rgb_at(pixels@, p0),
    ) by {
        lemma_nearest_weighted_upto_in_range(
            palette@,
            spec_threshold_adjusted(
                rgb_at(orig, p0),
                spec_bayer_index(mat.spec_dim(), p0 % width as int, p0 / width as int),
                mat.spec_dim() * mat.spec_dim(),
                spec_cbrt_fp(palette@.len() as int),
            ),
            palette@.len() as int,
        );
    }
}

/// A grayscale threshold mask, tiled over the canvas by modulo
/// indexing. The composition root decodes its embedded 256x256
/// blue-noise asset once and injects it here.
pub struct BlueNoiseMask {
    pub width: usize,
    pub height: usize,
    pub data: Vec<u8>,
}

impl BlueNoiseMask {
    /// Nonzero dimensions and one byte per cell.
    pub open spec fn wf(&self) -> bool {
        &&& self.width >= 1
        &&& self.height >= 1
        &&& self.data@.len() == self.width as int * self.height as int
    }

    /// Build a mask from a gray byte grid; `None` unless the buffer
    /// holds exactly `width * height` bytes, both nonzero.
    pub fn new(width: usize, height: usize, data: Vec<u8>) -> (r: Option<Self>)
        ensures
            match r {
                Some(m) => m.wf() && m.width == width && m.height == height && m.data@ == data@,
                None => width == 0 || height == 0 || data@.len() != width as int * height as int,
            },
    {
        if width == 0 || height == 0 {
            return None;
        }
        proof {
            vstd::arithmetic::div_mod::lemma_fundamental_div_mod(data@.len() as int, width as int);
        }
        if data.len() / width == height && data.len() % width == 0 {
            assert(data@.len() as int == width as int * height as int);
            Some(BlueNoiseMask { width, height, data })
        } else {
            proof {
                if data@.len() as int == width as int * height as int {
                    vstd::arithmetic::div_mod::lemma_fundamental_div_mod_converse(
                        data@.len() as int,
                        width as int,
                        height as int,
                        0,
                    );
                }
            }
            None
        }
    }
}

/// The mask byte that perturbs the pixel at `(x, y)`.
pub open spec fn spec_mask_value(mw: int, mh: int, data: Seq<u8>, x: int, y: int) -> int {
    data[(y % mh) * mw + x % mw] as int
}

/// A color after the blue-noise threshold of mask value `mval` is
/// applied to each channel: the normalized threshold `mval/255 - 1/2`
/// times `256 / cbrt(palette size)`, rounded half-to-even.
pub open spec fn spec_blue_adjusted(c: Rgb, mval: int, cf: int) -> Rgb {
    let d = 510 * cf;
    let n = 262144 * (2 * mval - 255);
    Rgb {
        r: spec_round_half_even_clamped(c.r as int * d + n, d) as u8,
        g: spec_round_half_even_clamped(c.g as int * d + n, d) as u8,
        b: spec_round_half_even_clamped(c.b as int * d + n, d) as u8,
    }
}

/// One pixel of the blue-noise ordered dither.
pub open spec fn spec_ordered_blue_pixel(
    pal: Seq<Rgb>,
    mw: int,
    mh: int,
    mask: Seq<u8>,
    x: int,
    y: int,
    c: Rgb,
) -> Rgb {
    let cf = spec_cbrt_fp(pal.len() as int);
    let adj = spec_blue_adjusted(c, spec_mask_value(mw, mh, mask, x, y), cf);
    pal[spec_nearest_weighted(pal, adj)]
}

/// Apply the blue-noise threshold of mask byte `mval` to all channels.
fn blue_adjust(c: Rgb, mval: u8, cf: u64) -> (r: Rgb)
    requires
        1024 <= cf < 0x1_0000_0000,
    ensures
        r == spec_blue_adjusted(c, mval as int, cf as int),
{
    let d: i64 = 510 * (cf as i64);
    let n: i64 = 262144 * (2 * (mval as i64) - 255);
    proof {
        lemma_channel_product_bound(c.r as int, d as int);
        lemma_channel_product_bound(c.g as int, d as int);
        lemma_channel_product_bound(c.b as int, d as int);
    }
    Rgb {
        r: round_half_even_clamped((c.r as i64) * d + n, d),
        g: round_half_even_clamped((c.g as i64) * d + n, d),
        b: round_half_even_clamped((c.b as i64) * d + n, d),
    }
}

/// Ordered dithering against the tiled grayscale mask: every pixel is
/// perturbed by the mask cell's normalized threshold scaled by
/// `256 / cbrt(palette size)` and mapped to the nearest palette color
/// by luma-weighted squared distance; alpha is kept.
pub fn ordered_blue_luma_256(
    pixels: &mut Vec<u8>,
    width: usize,
    height: usize,
    palette: &Vec<Rgb>,
    mask: &BlueNoiseMask,
)
    requires
        old(pixels)@.len() == width * height * 4,
        palette@.len() >= 1,
        mask.wf(),
    ensures
        final(pixels)@.len() == old(pixels)@.len(),
        palette_mapped(old(pixels)@, final(pixels)@, palette@),
        forall|p: int|
            0 <= p < width * height ==> rgb_at(final(pixels)@, p) == spec_ordered_blue_pixel(
                palette@,
                mask.width as int,
                mask.height as int,
                mask.data@,
                p % width as int,
                p / width as int,
                #[trigger] rgb_at(old(pixels)@, p),
            ),
{
    let ghost orig = pixels@;
    let cf = cbrt_fp(palette.len());
    let mw = mask.width;
    let mh = mask.height;
    let count: usize = pixels.len() / 4;
    assert(count == width * height);
    let mut p: usize = 0;
    while p < count
        invariant
            palette@.len() >= 1,
            cf as int == spec_cbrt_fp(palette@.len() as int),
            1024 <= cf < 0x1_0000_0000,
            mask.wf(),
            mw == mask.width,
            mh == mask.height,
            count == width * height,
            orig.len() == width * height * 4,
            pixels@.len() == orig.len(),
            p <= count,
            forall|q: int| p <= q < count ==> rgb_at(pixels@, q) == rgb_at(orig, q),
            forall|q: int|
                0 <= q < p ==> rgb_at(pixels@, q) == spec_ordered_blue_pixel(
                    palette@,
                    mask.width as int,
                    mask.height as int,
                    mask.data@,
                    q % width as int,
                    q / width as int,
                    #[trigger] rgb_at(orig, q),
                ),
            forall|q: int| 0 <= q < count ==> #[trigger] alpha_at(pixels@, q) == alpha_at(orig, q),
        decreases count - p,
    {
        let x: usize = p % width;
        let y: usize = p / width;
        let c = get_pixel_rgb(pixels, p);
        assert(c == rgb_at(orig, p as int));
        let my: usize = y % mh;
        let mx: usize = x % mw;
        let dlen: usize = mask.data.len();
        proof {
            assert((my as int) * (mw as int) + (mx as int) < dlen as int) by (nonlinear_arith)
                requires
                    dlen as int == (mw as int) * (mh as int),
                    0 <= my as int <= mh as int - 1,
                    0 <= mx as int <= mw as int - 1,
                    mw as int >= 1,
                    mh as int >= 1,
            ;
        }
        let mval = mask.data[my * mw + mx];
        let adj = blue_adjust(c, mval, cf);
        let idx = nearest_weighted_index(palette, adj);
        set_pixel_rgb(pixels, p, palette[idx]);
        p = p + 1;
    }
    assert forall|p0: int| 0 <= p0 < orig.len() / 4 implies #[trigger] palette_has(
        palette@,
        rgb_at(pixels@, p0),
    ) by {
        lemma_nearest_weighted_upto_in_range(
            palette@,
            spec_blue_adjusted(
                rgb_at(orig, p0),
                spec_mask_value(
                    mask.width as int,
                    mask.height as int,
                    mask.data@,
                    p0 % width as int,
                    p0 / width as int,
                ),
                spec_cbrt_fp(palette@.len() as int),
            ),
            palette@.len() as int,
        );
    }
}

/// A weighted distance times a Stark threshold term stays well inside
/// the 128-bit range.
proof fn lemma_stark_product_bound(a: int, b: int)
    requires
        0 <= a <= 65_025_000,
        0 <= b < 0x1_0000_0000_0000,
    ensures
        0 <= a * b < 0x1_0000_0000_0000_0000_0000_0000,
{
    assert(0 <= a * b < 0x1_0000_0000_0000_0000_0000_0000) by (nonlinear_arith)
        requires
            0 <= a <= 65_025_000,
            0 <= b < 0x1_0000_0000_0000,
    ;
}

/// Numerator of the Stark threshold for matrix cell `m`: the value
/// `1 - m / ((l-1) * cbrt(palette size))` over the denominator below.
pub open spec fn spec_stark_num(l: int, cf: int, m: int) -> int {
    (l - 1) * cf - 1024 * m
}

/// Denominator of the Stark threshold.
pub open spec fn spec_stark_den(l: int, cf: int) -> int {
    (l - 1) * cf
}

/// The Stark scan over the first `n` palette entries: among the colors
/// whose distance, scaled by the threshold, stays below the nearest
/// distance, keep the farthest; `sh` is the nearest distance, `bn / bd`
/// the threshold. The scan starts from distance -1 and the nearest
/// index, so with no passing candidate the nearest color stands.
pub open spec fn stark_scan_upto(
    pal: Seq<Rgb>,
    c: Rgb,
    sh: int,
    bn: int,
    bd: int,
    n: int,
) -> (int, int)
    decreases n,
{
    if n <= 0 {
        (-1, spec_nearest_weighted(pal, c))
    } else {
        let prev = stark_scan_upto(pal, c, sh, bn, bd, n - 1);
        let dist = spec_wdist_milli(pal[n - 1], c);
        if dist > prev.0 && dist * bn < sh * bd {
            (dist, n - 1)
        } else {
            prev
        }
    }
}

/// The scan picks an index of the scanned prefix, or the nearest one.
pub proof fn lemma_stark_scan_in_range(pal: Seq<Rgb>, c: Rgb, sh: int, bn: int, bd: int, n: int)
    requires
        pal.len() >= 1,
        n <= pal.len(),
    ensures
        0 <= stark_scan_upto(pal, c, sh, bn, bd, n).1 < pal.len(),
    decreases n,
{
    if n <= 0 {
        lemma_nearest_weighted_upto_in_range(pal, c, pal.len() as int);
    } else {
        lemma_stark_scan_in_range(pal, c, sh, bn, bd, n - 1);
    }
}

/// One pixel of the Stark ordered dither: nearest color by weighted
/// distance; where the matrix cell is positive, instead the farthest
/// color whose distance ratio to the nearest, scaled by the cell's
/// threshold, stays below one.
pub open spec fn spec_stark_pixel(pal: Seq<Rgb>, dim: int, x: int, y: int, c: Rgb) -> Rgb {
    let cf = spec_cbrt_fp(pal.len() as int);
    let l = dim * dim;
    let m = spec_bayer_index(dim, x, y);
    if m == 0 {
        pal[spec_nearest_weighted(pal, c)]
    } else {
        let sh = spec_wdist_milli(pal[spec_nearest_weighted(pal, c)], c);
        pal[stark_scan_upto(
            pal,
            c,
            sh,
            spec_stark_num(l, cf, m),
            spec_stark_den(l, cf),
            pal.len() as int,
        ).1]
    }
}

/// Stark ordered dithering in luma mode, for the Bayer dimensions 2, 4
/// and 8: per pixel, find the nearest palette color, and where the
/// matrix cell value is positive pick instead the farthest color whose
/// distance, scaled by the cell's threshold, stays below the nearest
/// distance; alpha is kept.
pub fn ordered_stark_luma(
    pixels: &mut Vec<u8>,
    width: usize,
    height: usize,
    palette: &Vec<Rgb>,
    dim: usize,
)
    requires
        old(pixels)@.len() == width * height * 4,
        palette@.len() >= 1,
        dim == 2 || dim == 4 || dim == 8,
    ensures
        final(pixels)@.len() == old(pixels)@.len(),
        palette_mapped(old(pixels)@, final(pixels)@, palette@),
        forall|p: int|
            0 <= p < width * height ==> rgb_at(final(pixels)@, p) == spec_stark_pixel(
                palette@,
                dim as int,
                p % width as int,
                p / width as int,
                #[trigger] rgb_at(old(pixels)@, p),
            ),
{
    let ghost orig = pixels@;
    let cf = cbrt_fp(palette.len());
    let l: u64 = (dim * dim) as u64;
    proof {
        assert((l as int - 1) * (cf as int) < 0x1_0000_0000_0000) by (nonlinear_arith)
            requires
                1 <= l as int <= 64,
                0 <= (cf as int) && (cf as int) < 0x1_0000_0000,
        ;
    }
    let bd: u64 = (l - 1) * cf;
    let count: usize = pixels.len() / 4;
    assert(count == width * height);
    let mut p: usize = 0;
    while p < count
        invariant
            palette@.len() >= 1,
            cf as int == spec_cbrt_fp(palette@.len() as int),
            1024 <= cf < 0x1_0000_0000,
            dim == 2 || dim == 4 || dim == 8,
            l as int == dim as int * dim as int,
            bd as int == spec_stark_den(l as int, cf as int),
            bd < 0x1_0000_0000_0000,
            count == width * height,
            orig.len() == width * height * 4,
            pixels@.len() == orig.len(),
            p <= count,
            forall|q: int| p <= q < count ==> rgb_at(pixels@, q) == rgb_at(orig, q),
            forall|q: int|
                0 <= q < p ==> rgb_at(pixels@, q) == spec_stark_pixel(
                    palette@,
                    dim as int,
                    q % width as int,
                    q / width as int,
                    #[trigger] rgb_at(orig, q),
                ),
            forall|q: int| 0 <= q < count ==> #[trigger] alpha_at(pixels@, q) == alpha_at(orig, q),
        decreases count - p,
    {
        let x: usize = p % width;
        let y: usize = p / width;
        let c = get_pixel_rgb(pixels, p);
        assert(c == rgb_at(orig, p as int));
        let m = bayer_index(dim, x, y);
        let ni = nearest_weighted_index(palette, c);
        let pick: usize = if m == 0 {
            ni
        } else {
            let sh = crate::color::wdist_milli(palette[ni], c);
            proof {
                assert((l as int - 1) * (cf as int) >= 1024 * (m as int)) by (nonlinear_arith)
                    requires
                        cf as int >= 1024,
                        m as int <= l as int - 1,
                        l as int >= 4,
                ;
            }
            let bn: u64 = bd - 1024 * (m as u64);
            let mut gd: i64 = -1;
            let mut gi: usize = ni;
            let mut i: usize = 0;
            while i < palette.len()
                invariant
                    palette@.len() >= 1,
                    i <= palette@.len(),
                    gi < palette@.len(),
                    sh as int == spec_wdist_milli(
                        palette@[spec_nearest_weighted(palette@, c)],
                        c,
                    ),
                    gd as int == stark_scan_upto(
                        palette@,
                        c,
                        sh as int,
                        bn as int,
                        bd as int,
                        i as int,
                    ).0,
                    gi as int == stark_scan_upto(
                        palette@,
                        c,
                        sh as int,
                        bn as int,
                        bd as int,
                        i as int,
                    ).1,
                    ni as int == spec_nearest_weighted(palette@, c),
                    bn <= bd < 0x1_0000_0000_0000,
                    sh <= 65_025_000,
                decreases palette@.len() - i,
            {
                let dist = crate::color::wdist_milli(palette[i], c);
                proof {
                    lemma_stark_product_bound(dist as int, bn as int);
                    lemma_stark_product_bound(sh as int, bd as int);
                }
                if (dist as i64) > gd && (dist as u128) * (bn as u128) < (sh as u128) * (
                bd as u128) {
                    gd = dist as i64;
                    gi = i;
                }
                i = i + 1;
            }
            gi
        };
        set_pixel_rgb(pixels, p, palette[pick]);
        p = p + 1;
    }
    assert forall|p0: int| 0 <= p0 < orig.len() / 4 implies #[trigger] palette_has(
        palette@,
        rgb_at(pixels@, p0),
    ) by {
        let c0 = rgb_at(orig, p0);
        lemma_nearest_weighted_upto_in_range(palette@, c0, palette@.len() as int);
        let cf0 = spec_cbrt_fp(palette@.len() as int);
        let l0 = (dim as int) * (dim as int);
        let m0 = spec_bayer_index(dim as int, p0 % width as int, p0 / width as int);
        if m0 != 0 {
            lemma_stark_scan_in_range(
                palette@,
                c0,
                spec_wdist_milli(palette@[spec_nearest_weighted(palette@, c0)], c0),
                spec_stark_num(l0, cf0, m0),
                spec_stark_den(l0, cf0),
                palette@.len() as int,
            );
        }
    }
}

} // verus!
