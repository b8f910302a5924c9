//! The RGBA8 raster and the whole-canvas operations of the encoder and
//! compositor: white canvases, quarter-turn rotations, and centered
//! alpha-blended overlay.

use vstd::prelude::*;
use vstd::arithmetic::div_mod::lemma_fundamental_div_mod_converse;

verus! {

/// An RGBA8 raster: row-major, four bytes per pixel.
pub struct RasterImage {
    pub width: u32,
    pub height: u32,
    pub pixels: Vec<u8>,
}

impl RasterImage {
    /// The buffer length matches the dimensions:
    /// `width * height * 4` bytes.
    pub open spec fn wf(&self) -> bool {
        self.pixels@.len() == self.width as int * self.height as int * 4
    }
}

/// An all-white opaque buffer.
pub open spec fn spec_white_pixels(w: int, h: int) -> Seq<u8> {
    Seq::new((w * h * 4) as nat, |i: int| 255u8)
}

/// An opaque-white canvas: every byte of every RGBA pixel is 255.
pub fn white_canvas(width: u32, height: u32) -> (r: RasterImage)
    requires
        width as int * height as int * 4 <= usize::MAX,
    ensures
        r.wf(),
        r.width == width,
        r.height == height,
        r.pixels@ == spec_white_pixels(width as int, height as int),
{
    let total: usize = (width as usize) * (height as usize) * 4;
    let mut pixels: Vec<u8> = Vec::new();
    let mut i: usize = 0;
    while i < total
        invariant
            pixels@.len() == i <= total,
            forall|j: int| 0 <= j < i ==> pixels@[j] == 255u8,
        decreases total - i,
    {
        pixels.push(255);
        i = i + 1;
    }
    proof {
        assert(pixels@ =~= spec_white_pixels(width as int, height as int));
    }
    RasterImage { width, height, pixels }
}

/// The buffer of a raster rotated a quarter turn clockwise: the result
/// is `h` wide and `w` tall, and its pixel `(x, y)` is the source pixel
/// `(y, h-1-x)`.
pub open spec fn spec_rotate90(w: int, h: int, s: Seq<u8>) -> Seq<u8> {
    Seq::new(
        (w * h * 4) as nat,
        |i: int|
            {
                let p = i / 4;
                let ch = i % 4;
                let x = p % h;
                let y = p / h;
                s[4 * ((h - 1 - x) * w + y) + ch]
            },
    )
}

/// The buffer rotated a half turn: pixel `(x, y)` of the result is the
/// source pixel `(w-1-x, h-1-y)`.
pub open spec fn spec_rotate180(w: int, h: int, s: Seq<u8>) -> Seq<u8> {
    Seq::new(
        (w * h * 4) as nat,
        |i: int|
            {
                let p = i / 4;
                let ch = i % 4;
                let x = p % w;
                let y = p / w;
                s[4 * ((h - 1 - y) * w + (w - 1 - x)) + ch]
            },
    )
}

/// The buffer rotated a quarter turn counterclockwise: the result is
/// `h` wide and `w` tall, and its pixel `(x, y)` is the source pixel
/// `(w-1-y, x)`.
pub open spec fn spec_rotate270(w: int, h: int, s: Seq<u8>) -> Seq<u8> {
    Seq::new(
        (w * h * 4) as nat,
        |i: int|
            {
                let p = i / 4;
                let ch = i % 4;
                let x = p % h;
                let y = p / h;
                s[4 * (x * w + (w - 1 - y)) + ch]
            },
    )
}

/// Decompose a byte index of a `w`-wide raster into its pixel
/// coordinates and channel.
proof fn lemma_byte_index(w: int, h: int, i: int)
    requires
        w >= 1,
        h >= 1,
        0 <= i < w * h * 4,
    ensures
        0 <= i / 4 < w * h,
        0 <= i % 4 < 4,
        0 <= (i / 4) % w < w,
        0 <= (i / 4) / w < h,
{
    assert(0 <= i / 4 < w * h) by (nonlinear_arith)
        requires
            0 <= i < w * h * 4,
    ;
    vstd::arithmetic::div_mod::lemma_mod_bound(i / 4, w);
    assert(0 <= (i / 4) / w < h) by (nonlinear_arith)
        requires
            0 <= i / 4 < w * h,
            w >= 1,
    ;
}

/// The source byte index of a rotation stays inside the source buffer.
proof fn lemma_src_index(w: int, h: int, sx: int, sy: int, ch: int)
    requires
        w >= 1,
        h >= 1,
        0 <= sx < w,
        0 <= sy < h,
        0 <= ch < 4,
    ensures
        0 <= 4 * (sy * w + sx) + ch < w * h * 4,
        (4 * (sy * w + sx) + ch) / 4 == sy * w + sx,
        (4 * (sy * w + sx) + ch) % 4 == ch,
        (sy * w + sx) % w == sx,
        (sy * w + sx) / w == sy,
{
    assert(0 <= sy * w + sx < w * h) by (nonlinear_arith)
        requires
            0 <= sx < w,
            0 <= sy < h,
    ;
    assert(0 <= 4 * (sy * w + sx) + ch < w * h * 4) by (nonlinear_arith)
        requires
            0 <= sy * w + sx < w * h,
            0 <= ch < 4,
    ;
    lemma_fundamental_div_mod_converse(4 * (sy * w + sx) + ch, 4, sy * w + sx, ch);
    lemma_fundamental_div_mod_converse(sy * w + sx, w, sy, sx);
}

/// Rotating a quarter turn clockwise and then a quarter turn
/// counterclockwise returns the original buffer, dimensions and pixels.
pub proof fn lemma_rotate_round_trip(w: int, h: int, s: Seq<u8>)
    requires
        w >= 1,
        h >= 1,
        s.len() == w * h * 4,
    ensures
        spec_rotate270(h, w, spec_rotate90(w, h, s)) =~= s,
{
    let r1 = spec_rotate90(w, h, s);
    let r2 = spec_rotate270(h, w, r1);
    assert(r2.len() == s.len()) by (nonlinear_arith)
        requires
            r2.len() == h * w * 4,
            s.len() == w * h * 4,
    ;
    assert forall|i: int| 0 <= i < s.len() implies r2[i] == s[i] by {
        lemma_byte_index(w, h, i);
        let p = i / 4;
        let ch = i % 4;
        let x = p % w;
        let y = p / w;
        vstd::arithmetic::div_mod::lemma_fundamental_div_mod(i, 4);
        vstd::arithmetic::div_mod::lemma_fundamental_div_mod(p, w);
        // r2 reads r1 at pixel (h-1-y, x) of the h-wide intermediate.
        lemma_src_index(h, w, h - 1 - y, x, ch);
        let j = 4 * (x * h + (h - 1 - y)) + ch;
        assert(r2[i] == r1[j]);
        // r1 at pixel (h-1-y', x') with x' = h-1-y, y' = x reads s at
        // (x, y), which is byte i again.
        lemma_src_index(w, h, x, y, ch);
        assert(r1[j] == s[4 * (y * w + x) + ch]);
        assert(4 * (y * w + x) + ch == i);
    }
}

/// Rotate a raster a quarter turn clockwise.
pub fn rotate90(img: &RasterImage) -> (r: RasterImage)
    requires
        img.wf(),
    ensures
        r.wf(),
        r.width == img.height,
        r.height == img.width,
        r.pixels@ == spec_rotate90(img.width as int, img.height as int, img.pixels@),
{
    let w: usize = img.width as usize;
    let h: usize = img.height as usize;
    let total: usize = img.pixels.len();
    let mut out: Vec<u8> = Vec::new();
    let mut p: usize = 0;
    let ghost target = spec_rotate90(img.width as int, img.height as int, img.pixels@);
    proof {
        assert(target.len() == total) by (nonlinear_arith)
            requires
                target.len() == (img.width as int) * (img.height as int) * 4,
                total == (img.width as int) * (img.height as int) * 4,
        ;
    }
    let count: usize = total / 4;
    proof {
        assert(count == (img.width as int) * (img.height as int)) by (nonlinear_arith)
            requires
                total == (img.width as int) * (img.height as int) * 4,
                count == total / 4,
    ;
    }
    while p < count
        invariant
            w == img.width as int,
            h == img.height as int,
            img.wf(),
            total == img.pixels@.len(),
            count == total / 4,
            count == w * h,
            target == spec_rotate90(img.width as int, img.height as int, img.pixels@),
            target.len() == total,
            p <= count,
            out@.len() == 4 * p,
            forall|j: int| 0 <= j < 4 * p ==> out@[j] == target[j],
        decreases count - p,
    {
        proof {
            assert(h >= 1 && w >= 1) by (nonlinear_arith)
                requires
                    p < count,
                    count == w * h,
                    0 <= p,
            ;
        }
        {
            let x: usize = p % h;
            let y: usize = p / h;
            proof {
                assert(y < w) by (nonlinear_arith)
                    requires
                        y == p / h,
                        p < w * h,
                        h >= 1,
                ;
                lemma_src_index(w as int, h as int, y as int, (h - 1 - x) as int, 0);
            }
            let src: usize = 4 * ((h - 1 - x) * w + y);
            let b0 = img.pixels[src];
            let b1 = img.pixels[src + 1];
            let b2 = img.pixels[src + 2];
            let b3 = img.pixels[src + 3];
            out.push(b0);
            out.push(b1);
            out.push(b2);
            out.push(b3);
            proof {
                let ip = p as int;
                vstd::arithmetic::div_mod::lemma_fundamental_div_mod(ip, h as int);
                lemma_fundamental_div_mod_converse(ip, h as int, y as int, x as int);
                lemma_fundamental_div_mod_converse(4 * ip, 4, ip, 0);
                lemma_fundamental_div_mod_converse(4 * ip + 1, 4, ip, 1);
                lemma_fundamental_div_mod_converse(4 * ip + 2, 4, ip, 2);
                lemma_fundamental_div_mod_converse(4 * ip + 3, 4, ip, 3);
                assert(out@[4 * ip] == target[4 * ip]);
                assert(out@[4 * ip + 1] == target[4 * ip + 1]);
                assert(out@[4 * ip + 2] == target[4 * ip + 2]);
                assert(out@[4 * ip + 3] == target[4 * ip + 3]);
            }
        }
        p = p + 1;
    }
    proof {
        assert(out@ =~= target);
        assert((img.height as int) * (img.width as int) * 4 == (img.width as int) * (
        img.height as int) * 4) by (nonlinear_arith);
    }
    RasterImage { width: img.height, height: img.width, pixels: out }
}

/// Rotate a raster a half turn.
pub fn rotate180(img: &RasterImage) -> (r: RasterImage)
    requires
        img.wf(),
    ensures
        r.wf(),
        r.width == img.width,
        r.height == img.height,
        r.pixels@ == spec_rotate180(img.width as int, img.height as int, img.pixels@),
{
    let w: usize = img.width as usize;
    let h: usize = img.height as usize;
    let total: usize = img.pixels.len();
    let mut out: Vec<u8> = Vec::new();
    let mut p: usize = 0;
    let ghost target = spec_rotate180(img.width as int, img.height as int, img.pixels@);
    proof {
        assert(target.len() == total);
    }
    let count: usize = total / 4;
    proof {
        assert(count == (img.width as int) * (img.height as int)) by (nonlinear_arith)
            requires
                total == (img.width as int) * (img.height as int) * 4,
                count == total / 4,
    ;
    }
    while p < count
        invariant
            w == img.width as int,
            h == img.height as int,
            img.wf(),
            total == img.pixels@.len(),
            count == total / 4,
            count == w * h,
            target == spec_rotate180(img.width as int, img.height as int, img.pixels@),
            target.len() == total,
            p <= count,
            out@.len() == 4 * p,
            forall|j: int| 0 <= j < 4 * p ==> out@[j] == target[j],
        decreases count - p,
    {
        proof {
            assert(h >= 1 && w >= 1) by (nonlinear_arith)
                requires
                    p < count,
                    count == w * h,
                    0 <= p,
            ;
        }
        {
            let x: usize = p % w;
            let y: usize = p / w;
            proof {
                assert(y < h) by (nonlinear_arith)
                    requires
                        y == p / w,
                        p < w * h,
                        w >= 1,
                ;
                lemma_src_index(w as int, h as int, (w - 1 - x) as int, (h - 1 - y) as int, 0);
            }
            let src: usize = 4 * ((h - 1 - y) * w + (w - 1 - x));
            let b0 = img.pixels[src];
            let b1 = img.pixels[src + 1];
            let b2 = img.pixels[src + 2];
            let b3 = img.pixels[src + 3];
            out.push(b0);
            out.push(b1);
            out.push(b2);
            out.push(b3);
            proof {
                let ip = p as int;
                vstd::arithmetic::div_mod::lemma_fundamental_div_mod(ip, w as int);
                lemma_fundamental_div_mod_converse(ip, w as int, y as int, x as int);
                lemma_fundamental_div_mod_converse(4 * ip, 4, ip, 0);
                lemma_fundamental_div_mod_converse(4 * ip + 1, 4, ip, 1);
                lemma_fundamental_div_mod_converse(4 * ip + 2, 4, ip, 2);
                lemma_fundamental_div_mod_converse(4 * ip + 3, 4, ip, 3);
                assert(out@[4 * ip] == target[4 * ip]);
                assert(out@[4 * ip + 1] == target[4 * ip + 1]);
                assert(out@[4 * ip + 2] == target[4 * ip + 2]);
                assert(out@[4 * ip + 3] == target[4 * ip + 3]);
            }
        }
        p = p + 1;
    }
    proof {
        assert(out@ =~= target);
    }
    RasterImage { width: img.width, height: img.height, pixels: out }
}

/// Rotate a raster a quarter turn counterclockwise.
pub fn rotate270(img: &RasterImage) -> (r: RasterImage)
    requires
        img.wf(),
    ensures
        r.wf(),
        r.width == img.height,
        r.height == img.width,
        r.pixels@ == spec_rotate270(img.width as int, img.height as int, img.pixels@),
{
    let w: usize = img.width as usize;
    let h: usize = img.height as usize;
    let total: usize = img.pixels.len();
    let mut out: Vec<u8> = Vec::new();
    let mut p: usize = 0;
    let ghost target = spec_rotate270(img.width as int, img.height as int, img.pixels@);
    proof {
        assert(target.len() == total) by (nonlinear_arith)
            requires
                target.len() == (img.width as int) * (img.height as int) * 4,
                total == (img.width as int) * (img.height as int) * 4,
        ;
    }
    let count: usize = total / 4;
    proof {
        assert(count == (img.width as int) * (img.height as int)) by (nonlinear_arith)
            requires
                total == (img.width as int) * (img.height as int) * 4,
                count == total / 4,
    ;
    }
    while p < count
        invariant
            w == img.width as int,
            h == img.height as int,
            img.wf(),
            total == img.pixels@.len(),
            count == total / 4,
            count == w * h,
            target == spec_rotate270(img.width as int, img.height as int, img.pixels@),
            target.len() == total,
            p <= count,
            out@.len() == 4 * p,
            forall|j: int| 0 <= j < 4 * p ==> out@[j] == target[j],
        decreases count - p,
    {
        proof {
            assert(h >= 1 && w >= 1) by (nonlinear_arith)
                requires
                    p < count,
                    count == w * h,
                    0 <= p,
            ;
        }
        {
            let x: usize = p % h;
            let y: usize = p / h;
            proof {
                assert(y < w) by (nonlinear_arith)
                    requires
                        y == p / h,
                        p < w * h,
                        h >= 1,
                ;
                lemma_src_index(w as int, h as int, (w - 1 - y) as int, x as int, 0);
            }
            let src: usize = 4 * (x * w + (w - 1 - y));
            let b0 = img.pixels[src];
            let b1 = img.pixels[src + 1];
            let b2 = img.pixels[src + 2];
            let b3 = img.pixels[src + 3];
            out.push(b0);
            out.push(b1);
            out.push(b2);
            out.push(b3);
            proof {
                let ip = p as int;
                vstd::arithmetic::div_mod::lemma_fundamental_div_mod(ip, h as int);
                lemma_fundamental_div_mod_converse(ip, h as int, y as int, x as int);
                lemma_fundamental_div_mod_converse(4 * ip, 4, ip, 0);
                lemma_fundamental_div_mod_converse(4 * ip + 1, 4, ip, 1);
                lemma_fundamental_div_mod_converse(4 * ip + 2, 4, ip, 2);
                lemma_fundamental_div_mod_converse(4 * ip + 3, 4, ip, 3);
                assert(out@[4 * ip] == target[4 * ip]);
                assert(out@[4 * ip + 1] == target[4 * ip + 1]);
                assert(out@[4 * ip + 2] == target[4 * ip + 2]);
                assert(out@[4 * ip + 3] == target[4 * ip + 3]);
            }
        }
        p = p + 1;
    }
    proof {
        assert(out@ =~= target);
        assert((img.height as int) * (img.width as int) * 4 == (img.width as int) * (
        img.height as int) * 4) by (nonlinear_arith);
    }
    RasterImage { width: img.height, height: img.width, pixels: out }
}

/// One channel of the standard integer "over" blend of a source channel
/// with coverage `a` onto an opaque destination.
pub open spec fn spec_blend_channel(dst: int, src: int, a: int) -> int {
    (src * a + dst * (255 - a)) / 255
}

/// The blended channel stays a byte.
pub proof fn lemma_blend_channel_range(dst: int, src: int, a: int)
    requires
        0 <= dst <= 255,
        0 <= src <= 255,
        0 <= a <= 255,
    ensures
        0 <= spec_blend_channel(dst, src, a) <= 255,
{
    assert(0 <= src * a + dst * (255 - a) <= 255 * 255) by (nonlinear_arith)
        requires
            0 <= dst <= 255,
            0 <= src <= 255,
            0 <= a <= 255,
    ;
    vstd::arithmetic::div_mod::lemma_div_pos_is_pos(src * a + dst * (255 - a), 255);
    vstd::arithmetic::div_mod::lemma_div_is_ordered(src * a + dst * (255 - a), 65025int, 255);
    assert(65025int / 255 == 255);
}

/// Blend one source channel onto one destination channel with the
/// source alpha as coverage.
pub fn blend_channel(dst: u8, src: u8, a: u8) -> (r: u8)
    ensures
        r as int == spec_blend_channel(dst as int, src as int, a as int),
{
    proof {
        lemma_blend_channel_range(dst as int, src as int, a as int);
    }
    (((src as u32) * (a as u32) + (dst as u32) * (255 - a as u32)) / 255) as u8
}

/// The buffer of `dst` with `src` blended over it at offset
/// `(ox, oy)`: inside the overlap every color channel is the "over"
/// blend under the source pixel's alpha, the destination alpha is kept,
/// and everything outside the overlap is untouched. Source pixels that
/// fall outside the destination are clipped.
pub open spec fn spec_overlay(
    dw: int,
    dh: int,
    d: Seq<u8>,
    sw: int,
    sh: int,
    s: Seq<u8>,
    ox: int,
    oy: int,
) -> Seq<u8> {
    Seq::new(
        d.len(),
        |i: int|
            {
                let p = i / 4;
                let ch = i % 4;
                let x = p % dw;
                let y = p / dw;
                if ox <= x < ox + sw && oy <= y < oy + sh {
                    let sp = (y - oy) * sw + (x - ox);
                    let a = s[4 * sp + 3];
                    if ch == 3 {
                        d[i]
                    } else {
                        spec_blend_channel(d[i] as int, s[4 * sp + ch] as int, a as int) as u8
                    }
                } else {
                    d[i]
                }
            },
    )
}

/// Blend `src` over `dst` at offset `(ox, oy)`, clipping at the
/// destination's edges.
pub fn overlay(dst: &RasterImage, src: &RasterImage, ox: usize, oy: usize) -> (r: RasterImage)
    requires
        dst.wf(),
        src.wf(),
    ensures
        r.wf(),
        r.width == dst.width,
        r.height == dst.height,
        r.pixels@ == spec_overlay(
            dst.width as int,
            dst.height as int,
            dst.pixels@,
            src.width as int,
            src.height as int,
            src.pixels@,
            ox as int,
            oy as int,
        ),
{
    let dw: usize = dst.width as usize;
    let dh: usize = dst.height as usize;
    let sw: usize = src.width as usize;
    let sh: usize = src.height as usize;
    let total: usize = dst.pixels.len();
    let stotal: usize = src.pixels.len();
    let ghost target = spec_overlay(
        dst.width as int,
        dst.height as int,
        dst.pixels@,
        src.width as int,
        src.height as int,
        src.pixels@,
        ox as int,
        oy as int,
    );
    let count: usize = total / 4;
    proof {
        assert(count == (dst.width as int) * (dst.height as int)) by (nonlinear_arith)
            requires
                total == (dst.width as int) * (dst.height as int) * 4,
                count == total / 4,
        ;
    }
    let mut out: Vec<u8> = Vec::new();
    let mut p: usize = 0;
    while p < count
        invariant
            dw == dst.width as int,
            dh == dst.height as int,
            sw == src.width as int,
            sh == src.height as int,
            dst.wf(),
            src.wf(),
            total == dst.pixels@.len(),
            stotal == src.pixels@.len(),
            count == total / 4,
            count == dw * dh,
            target == spec_overlay(
                dst.width as int,
                dst.height as int,
                dst.pixels@,
                src.width as int,
                src.height as int,
                src.pixels@,
                ox as int,
                oy as int,
            ),
            target.len() == total,
            p <= count,
            out@.len() == 4 * p,
            forall|j: int| 0 <= j < 4 * p ==> out@[j] == target[j],
        decreases count - p,
    {
        proof {
            assert(dw >= 1 && dh >= 1) by (nonlinear_arith)
                requires
                    p < count,
                    count == dw * dh,
                    0 <= p,
            ;
        }
        let x: usize = p % dw;
        let y: usize = p / dw;
        proof {
            assert(y < dh) by (nonlinear_arith)
                requires
                    y == p / dw,
                    p < dw * dh,
                    dw >= 1,
            ;
            let ip = p as int;
            vstd::arithmetic::div_mod::lemma_fundamental_div_mod(ip, dw as int);
            lemma_fundamental_div_mod_converse(ip, dw as int, y as int, x as int);
            lemma_fundamental_div_mod_converse(4 * ip, 4, ip, 0);
            lemma_fundamental_div_mod_converse(4 * ip + 1, 4, ip, 1);
            lemma_fundamental_div_mod_converse(4 * ip + 2, 4, ip, 2);
            lemma_fundamental_div_mod_converse(4 * ip + 3, 4, ip, 3);
            assert(4 * ip + 3 < total);
        }
        let inside: bool = x >= ox && x - ox < sw && y >= oy && y - oy < sh;
        if inside {
            let sx: usize = x - ox;
            let sy: usize = y - oy;
            proof {
                lemma_src_index(sw as int, sh as int, sx as int, sy as int, 0);
            }
            let sp: usize = sy * sw + sx;
            let a = src.pixels[4 * sp + 3];
            let b0 = blend_channel(dst.pixels[4 * p], src.pixels[4 * sp], a);
            let b1 = blend_channel(dst.pixels[4 * p + 1], src.pixels[4 * sp + 1], a);
            let b2 = blend_channel(dst.pixels[4 * p + 2], src.pixels[4 * sp + 2], a);
            let b3 = dst.pixels[4 * p + 3];
            out.push(b0);
            out.push(b1);
            out.push(b2);
            out.push(b3);
        } else {
            out.push(dst.pixels[4 * p]);
            out.push(dst.pixels[4 * p + 1]);
            out.push(dst.pixels[4 * p + 2]);
            out.push(dst.pixels[4 * p + 3]);
        }
        proof {
            let ip = p as int;
            assert(out@[4 * ip] == target[4 * ip]);
            assert(out@[4 * ip + 1] == target[4 * ip + 1]);
            assert(out@[4 * ip + 2] == target[4 * ip + 2]);
            assert(out@[4 * ip + 3] == target[4 * ip + 3]);
        }
        p = p + 1;
    }
    proof {
        assert(out@ =~= target);
    }
    RasterImage { width: dst.width, height: dst.height, pixels: out }
}

/// A byte-for-byte copy of a raster.
pub fn copy_raster(img: &RasterImage) -> (r: RasterImage)
    ensures
        r.width == img.width,
        r.height == img.height,
        r.pixels@ == img.pixels@,
{
    let n = img.pixels.len();
    let mut out: Vec<u8> = Vec::new();
    let mut i: usize = 0;
    while i < n
        invariant
            n == img.pixels@.len(),
            out@.len() == i <= n,
            forall|j: int| 0 <= j < i ==> out@[j] == img.pixels@[j],
        decreases n - i,
    {
        out.push(img.pixels[i]);
        i = i + 1;
    }
    proof {
        assert(out@ =~= img.pixels@);
    }
    RasterImage { width: img.width, height: img.height, pixels: out }
}

/// Pixel `q` of a `w`-wide canvas lies inside the rectangle.
pub open spec fn in_rect(q: int, w: int, x0: int, y0: int, rw: int, rh: int) -> bool {
    x0 <= q % w < x0 + rw && y0 <= q / w < y0 + rh
}

/// The buffer after every pixel inside the rectangle is set to a solid
/// RGBA color, the rest untouched.
pub open spec fn spec_fill_box(
    c: Seq<u8>,
    w: int,
    x0: int,
    y0: int,
    rw: int,
    rh: int,
    color: crate::color::Rgb,
    a: u8,
) -> Seq<u8> {
    Seq::new(
        c.len(),
        |i: int|
            {
                let p = i / 4;
                let ch = i % 4;
                if in_rect(p, w, x0, y0, rw, rh) {
                    if ch == 0 {
                        color.r
                    } else if ch == 1 {
                        color.g
                    } else if ch == 2 {
                        color.b
                    } else {
                        a
                    }
                } else {
                    c[i]
                }
            },
    )
}

/// Fill every canvas pixel inside the given rectangle (clipped at the
/// canvas edges) with a solid RGBA color, leaving the rest untouched:
/// exactly `spec_fill_box`.
#[verifier::loop_isolation(false)]
pub fn fill_rect(canvas: &mut RasterImage, x0: u64, y0: u64, rw: u64, rh: u64, color: crate::color::Rgb, a: u8)
    requires
        old(canvas).wf(),
    ensures
        final(canvas).wf(),
        final(canvas).width == old(canvas).width,
        final(canvas).height == old(canvas).height,
        forall|q: int|
            0 <= q < old(canvas).pixels@.len() / 4 && in_rect(
                q,
                old(canvas).width as int,
                x0 as int,
                y0 as int,
                rw as int,
                rh as int,
            ) ==> #[trigger] crate::quant::rgb_at(final(canvas).pixels@, q) == color
                && crate::quant::alpha_at(final(canvas).pixels@, q) == a,
        forall|q: int|
            0 <= q < old(canvas).pixels@.len() / 4 && !in_rect(
                q,
                old(canvas).width as int,
                x0 as int,
                y0 as int,
                rw as int,
                rh as int,
            ) ==> #[trigger] crate::quant::rgb_at(final(canvas).pixels@, q)
                == crate::quant::rgb_at(old(canvas).pixels@, q) && crate::quant::alpha_at(
                final(canvas).pixels@,
                q,
            ) == crate::quant::alpha_at(old(canvas).pixels@, q),
        final(canvas).pixels@ == spec_fill_box(
            old(canvas).pixels@,
            old(canvas).width as int,
            x0 as int,
            y0 as int,
            rw as int,
            rh as int,
            color,
            a,
        ),
{
    let ghost orig = canvas.pixels@;
    let w: usize = canvas.width as usize;
    let h: usize = canvas.height as usize;
    let total: usize = canvas.pixels.len();
    let count: usize = total / 4;
    proof {
        assert(count == (canvas.width as int) * (canvas.height as int)) by (nonlinear_arith)
            requires
                total == (canvas.width as int) * (canvas.height as int) * 4,
                count == total / 4,
        ;
    }
    let mut p: usize = 0;
    while p < count
        invariant
            canvas.wf(),
            canvas.width == old(canvas).width,
            canvas.height == old(canvas).height,
            w == canvas.width as int,
            h == canvas.height as int,
            total == canvas.pixels@.len(),
            orig.len() == total,
            count == total / 4,
            count == w * h,
            p <= count,
            forall|q: int|
                0 <= q < p && in_rect(q, w as int, x0 as int, y0 as int, rw as int, rh as int)
                    ==> #[trigger] crate::quant::rgb_at(canvas.pixels@, q) == color
                    && crate::quant::alpha_at(canvas.pixels@, q) == a,
            forall|q: int|
                0 <= q < count && !(q < p && in_rect(
                    q,
                    w as int,
                    x0 as int,
                    y0 as int,
                    rw as int,
                    rh as int,
                )) ==> #[trigger] crate::quant::rgb_at(canvas.pixels@, q) == crate::quant::rgb_at(
                    orig,
                    q,
                ) && crate::quant::alpha_at(canvas.pixels@, q) == crate::quant::alpha_at(orig, q),
        decreases count - p,
    {
        proof {
            assert(w >= 1 && h >= 1) by (nonlinear_arith)
                requires
                    p < count,
                    count == w * h,
                    0 <= p,
            ;
        }
        let x: usize = p % w;
        let y: usize = p / w;
        let inside: bool = x as u64 >= x0 && (x as u64) - x0 < rw && y as u64 >= y0 && (y as u64)
            - y0 < rh;
        let ghost prev = canvas.pixels@;
        if inside {
            crate::quant::set_pixel_rgba(&mut canvas.pixels, p, color, a);
        }
        proof {
            assert(inside == in_rect(p as int, w as int, x0 as int, y0 as int, rw as int, rh as int));
            assert forall|q: int|
                0 <= q < p + 1 && in_rect(q, w as int, x0 as int, y0 as int, rw as int, rh as int)
                implies #[trigger] crate::quant::rgb_at(canvas.pixels@, q) == color
                && crate::quant::alpha_at(canvas.pixels@, q) == a by {
                if q != p {
                    assert(crate::quant::rgb_at(prev, q) == color);
                    assert(crate::quant::alpha_at(prev, q) == a);
                }
            }
            assert forall|q: int|
                0 <= q < count && !(q < p + 1 && in_rect(
                    q,
                    w as int,
                    x0 as int,
                    y0 as int,
                    rw as int,
                    rh as int,
                )) implies #[trigger] crate::quant::rgb_at(canvas.pixels@, q)
                == crate::quant::rgb_at(orig, q) && crate::quant::alpha_at(canvas.pixels@, q)
                == crate::quant::alpha_at(orig, q) by {
                if q == p {
                    assert(!inside);
                } else {
                    assert(crate::quant::rgb_at(prev, q) == crate::quant::rgb_at(orig, q));
                    assert(crate::quant::alpha_at(prev, q) == crate::quant::alpha_at(orig, q));
                }
            }
        }
        p = p + 1;
    }
    proof {
        let ghost target = spec_fill_box(
            orig,
            w as int,
            x0 as int,
            y0 as int,
            rw as int,
            rh as int,
            color,
            a,
        );
        assert forall|i: int| 0 <= i < orig.len() implies canvas.pixels@[i] == target[i] by {
            let q = i / 4;
            let k = i % 4;
            vstd::arithmetic::div_mod::lemma_fundamental_div_mod(i, 4);
            assert(0 <= q < count as int);
            if in_rect(q, w as int, x0 as int, y0 as int, rw as int, rh as int) {
                assert(crate::quant::rgb_at(canvas.pixels@, q) == color);
                assert(crate::quant::alpha_at(canvas.pixels@, q) == a);
            } else {
                assert(crate::quant::rgb_at(canvas.pixels@, q) == crate::quant::rgb_at(orig, q));
                assert(crate::quant::alpha_at(canvas.pixels@, q) == crate::quant::alpha_at(
                    orig,
                    q,
                ));
            }
            if k == 0 {
                assert(canvas.pixels@[4 * q] == target[4 * q]);
            } else if k == 1 {
                assert(canvas.pixels@[4 * q + 1] == target[4 * q + 1]);
            } else if k == 2 {
                assert(canvas.pixels@[4 * q + 2] == target[4 * q + 2]);
            } else {
                assert(canvas.pixels@[4 * q + 3] == target[4 * q + 3]);
            }
        }
        assert(canvas.pixels@ =~= target);
    }
}

} // verus!
