//! Device byte encoding: the effective rotation, padding to the native
//! canvas, and serialization to PNG or to a packed 4-bits-per-pixel
//! nibble stream with configurable nibble order and row and column
//! traversal direction.

use vstd::prelude::*;
use vstd::arithmetic::div_mod::lemma_fundamental_div_mod_converse;
use crate::color::{spec_luma_milli, luma_milli, spec_sq_dist, sq_dist, Rgb};
use crate::config::OutputFormat;
use crate::imgops::{png_encode, png_encoded, png_ok};
use crate::quant::{rgb_at, get_pixel_rgb};
use crate::raster::{copy_raster, overlay, rotate180, rotate270, rotate90, spec_overlay,
    spec_rotate180, spec_rotate270, spec_rotate90, spec_white_pixels, white_canvas, RasterImage};

verus! {

/// The device's known colors, in table order.
pub open spec fn spec_device_color(i: int) -> Rgb {
    if i == 0 {
        Rgb { r: 0, g: 0, b: 0 }
    } else if i == 1 {
        Rgb { r: 255, g: 255, b: 255 }
    } else if i == 2 {
        Rgb { r: 255, g: 255, b: 0 }
    } else if i == 3 {
        Rgb { r: 255, g: 0, b: 0 }
    } else if i == 4 {
        Rgb { r: 0, g: 0, b: 255 }
    } else {
        Rgb { r: 0, g: 255, b: 0 }
    }
}

/// The nibble code the device assigns to each known color: black 0x0,
/// white 0x1, yellow 0x2, red 0x3, blue 0x5, green 0x6.
pub open spec fn spec_device_code(i: int) -> u8 {
    if i == 0 {
        0x0
    } else if i == 1 {
        0x1
    } else if i == 2 {
        0x2
    } else if i == 3 {
        0x3
    } else if i == 4 {
        0x5
    } else {
        0x6
    }
}

/// Scan of the device table: the known color nearest to `c` by
/// unweighted squared RGB distance, first of equals winning.
pub open spec fn device_scan_upto(c: Rgb, n: int) -> int
    decreases n,
{
    if n <= 1 {
        0
    } else {
        let prev = device_scan_upto(c, n - 1);
        if spec_sq_dist(spec_device_color(n - 1), c) < spec_sq_dist(
            spec_device_color(prev),
            c,
        ) {
            n - 1
        } else {
            prev
        }
    }
}

/// The nibble the device table assigns to an arbitrary palette color.
pub open spec fn spec_device_nibble(c: Rgb) -> u8 {
    spec_device_code(device_scan_upto(c, 6))
}

/// The device scan picks a table row.
pub proof fn lemma_device_scan_range(c: Rgb, n: int)
    requires
        n >= 1,
    ensures
        0 <= device_scan_upto(c, n) < n,
    decreases n,
{
    if n > 1 {
        lemma_device_scan_range(c, n - 1);
    }
}

/// Map one palette color to its device nibble, by nearest unweighted
/// RGB distance over the six known colors.
pub fn device_nibble(c: Rgb) -> (v: u8)
    ensures
        v == spec_device_nibble(c),
        v <= 15,
{
    let known: [Rgb; 6] = [
        Rgb { r: 0, g: 0, b: 0 },
        Rgb { r: 255, g: 255, b: 255 },
        Rgb { r: 255, g: 255, b: 0 },
        Rgb { r: 255, g: 0, b: 0 },
        Rgb { r: 0, g: 0, b: 255 },
        Rgb { r: 0, g: 255, b: 0 },
    ];
    let codes: [u8; 6] = [0x0, 0x1, 0x2, 0x3, 0x5, 0x6];
    proof {
        assert(forall|i: int| 0 <= i < 6 ==> known@[i] == spec_device_color(i));
        assert(forall|i: int| 0 <= i < 6 ==> codes@[i] == spec_device_code(i));
    }
    let mut best: usize = 0;
    let mut best_d: u32 = sq_dist(known[0], c);
    let mut i: usize = 1;
    while i < 6
        invariant
            1 <= i <= 6,
            best < i,
            forall|j: int| 0 <= j < 6 ==> known@[j] == spec_device_color(j),
            forall|j: int| 0 <= j < 6 ==> codes@[j] == spec_device_code(j),
            best as int == device_scan_upto(c, i as int),
            best_d as int == spec_sq_dist(spec_device_color(best as int), c),
        decreases 6 - i,
    {
        let d = sq_dist(known[i], c);
        if d < best_d {
            best = i;
            best_d = d;
        }
        i = i + 1;
    }
    proof {
        lemma_device_scan_range(c, 6);
    }
    codes[best]
}

/// First palette index whose color equals `c` exactly, among the first
/// `n` entries.
pub open spec fn first_exact_upto(pal: Seq<Rgb>, c: Rgb, n: int) -> Option<int>
    decreases n,
{
    if n <= 0 {
        None
    } else {
        match first_exact_upto(pal, c, n - 1) {
            Some(e) => Some(e),
            None => if pal[n - 1] == c {
                Some(n - 1)
            } else {
                None
            },
        }
    }
}

/// Scan for the palette entry nearest to `c` by unweighted squared RGB
/// distance, first of equals winning.
pub open spec fn unweighted_scan_upto(pal: Seq<Rgb>, c: Rgb, n: int) -> int
    decreases n,
{
    if n <= 1 {
        0
    } else {
        let prev = unweighted_scan_upto(pal, c, n - 1);
        if spec_sq_dist(c, pal[n - 1]) < spec_sq_dist(c, pal[prev]) {
            n - 1
        } else {
            prev
        }
    }
}

/// The palette index the packed encoder picks for a pixel: an exact
/// match short-circuits the search, otherwise the nearest entry by
/// unweighted RGB distance.
pub open spec fn spec_pack_index(pal: Seq<Rgb>, c: Rgb) -> int {
    match first_exact_upto(pal, c, pal.len() as int) {
        Some(e) => e,
        None => unweighted_scan_upto(pal, c, pal.len() as int),
    }
}

/// The pack scans stay inside the palette.
pub proof fn lemma_pack_index_range(pal: Seq<Rgb>, c: Rgb, n: int)
    requires
        n >= 1,
        n <= pal.len(),
    ensures
        0 <= unweighted_scan_upto(pal, c, n) < n,
        match first_exact_upto(pal, c, n) {
            Some(e) => 0 <= e < n,
            None => true,
        },
    decreases n,
{
    assert(first_exact_upto(pal, c, 0) is None);
    if n > 1 {
        lemma_pack_index_range(pal, c, n - 1);
    }
}

/// The 4-bit code of one pixel color: its mapped device nibble under a
/// non-empty palette, or the 16-level luma quantization without one.
pub open spec fn spec_pixel_code(pal: Seq<Rgb>, c: Rgb) -> u8 {
    if pal.len() >= 1 {
        spec_device_nibble(pal[spec_pack_index(pal, c)])
    } else {
        (((spec_luma_milli(c) + 500) / 1000) * 15 / 255) as u8
    }
}

/// The 4-bit code of one pixel, executable form.
fn pixel_code(pal: &Vec<Rgb>, nibbles: &Vec<u8>, c: Rgb) -> (v: u8)
    requires
        nibbles@.len() == pal@.len(),
        forall|i: int| 0 <= i < pal@.len() ==> #[trigger] nibbles@[i] == spec_device_nibble(
            pal@[i],
        ),
    ensures
        v == spec_pixel_code(pal@, c),
        v <= 15,
{
    let n = pal.len();
    if n == 0 {
        let lm = luma_milli(c);
        let l: u32 = (lm + 500) / 1000;
        assert(l <= 255);
        let v = ((l * 15) / 255) as u8;
        assert(l * 15 / 255 <= 15);
        return v as u8;
    }
    let mut best: usize = 0;
    let mut best_d: u32 = sq_dist(c, pal[0]);
    let mut exact: bool = pal[0].r == c.r && pal[0].g == c.g && pal[0].b == c.b;
    let mut i: usize = 1;
    proof {
        assert(first_exact_upto(pal@, c, 0) is None);
        if exact {
            assert(pal@[0] == c);
            assert(first_exact_upto(pal@, c, 1) == Some(0int));
            lemma_first_exact_extends(pal@, c, 0, pal@.len() as int);
        } else {
            assert(pal@[0] != c);
            assert(first_exact_upto(pal@, c, 1) is None);
        }
    }
    while i < n && !exact
        invariant
            n == pal@.len() >= 1,
            nibbles@.len() == pal@.len(),
            forall|j: int| 0 <= j < pal@.len() ==> #[trigger] nibbles@[j] == spec_device_nibble(
                pal@[j],
            ),
            1 <= i <= n,
            best < n,
            exact ==> first_exact_upto(pal@, c, pal@.len() as int) == Some(best as int),
            !exact ==> best < i,
            !exact ==> first_exact_upto(pal@, c, i as int) is None,
            !exact ==> best as int == unweighted_scan_upto(pal@, c, i as int),
            !exact ==> best_d as int == spec_sq_dist(c, pal@[best as int]),
        decreases n - i + (if exact {
            0int
        } else {
            1int
        }),
    {
        let pc = pal[i];
        if pc.r == c.r && pc.g == c.g && pc.b == c.b {
            proof {
                assert(pal@[i as int] == c);
                lemma_first_exact_extends(pal@, c, i as int, pal@.len() as int);
            }
            best = i;
            exact = true;
        } else {
            proof {
                assert(pal@[i as int] != c);
            }
            let d = sq_dist(c, pc);
            if d < best_d {
                best = i;
                best_d = d;
            }
            i = i + 1;
        }
    }
    proof {
        lemma_pack_index_range(pal@, c, pal@.len() as int);
        if !exact {
            assert(i == n);
            assert(best as int == spec_pack_index(pal@, c));
        }
    }
    nibbles[best]
}

/// A scan that finds its first exact match at `e` keeps it through the
/// rest of the palette.
proof fn lemma_first_exact_extends(pal: Seq<Rgb>, c: Rgb, e: int, n: int)
    requires
        0 <= e < n <= pal.len(),
        pal[e] == c,
        first_exact_upto(pal, c, e) is None,
    ensures
        first_exact_upto(pal, c, n) == Some(e),
    decreases n,
{
    if n == e + 1 {
    } else {
        lemma_first_exact_extends(pal, c, e, n - 1);
    }
}

/// Traversal coordinate: index `k` from one end or the other.
pub open spec fn spec_traverse(len: int, reversed: bool, k: int) -> int {
    if reversed {
        len - 1 - k
    } else {
        k
    }
}

/// Bytes per packed row: two nibbles per byte, an odd trailing nibble
/// flushed as a half byte.
pub open spec fn spec_row_bytes(w: int) -> int {
    (w + 1) / 2
}

/// One byte of the packed stream: codes of the two consecutive pixels
/// of the traversal, high nibble first unless swapped; a missing second
/// nibble leaves its half zero.
pub open spec fn spec_packed_byte(first: u8, second: u8, has_second: bool, swap: bool) -> u8 {
    if has_second {
        if swap {
            (second * 16 + first) as u8
        } else {
            (first * 16 + second) as u8
        }
    } else {
        if swap {
            first
        } else {
            (first * 16) as u8
        }
    }
}

/// The whole packed 4-bits-per-pixel stream of a raster under a
/// palette, with the given nibble order and traversal directions.
pub open spec fn spec_packed(
    w: int,
    h: int,
    pixels: Seq<u8>,
    pal: Seq<Rgb>,
    swap: bool,
    rev_rows: bool,
    rev_cols: bool,
) -> Seq<u8> {
    let rb = spec_row_bytes(w);
    Seq::new(
        (h * rb) as nat,
        |bidx: int|
            {
                let ri = bidx / rb;
                let bi = bidx % rb;
                let y = spec_traverse(h, rev_rows, ri);
                let x0 = spec_traverse(w, rev_cols, 2 * bi);
                let first = spec_pixel_code(pal, rgb_at(pixels, y * w + x0));
                if 2 * bi + 1 < w {
                    let x1 = spec_traverse(w, rev_cols, 2 * bi + 1);
                    let second = spec_pixel_code(pal, rgb_at(pixels, y * w + x1));
                    spec_packed_byte(first, second, true, swap)
                } else {
                    spec_packed_byte(first, 0, false, swap)
                }
            },
    )
}

/// Pack a raster to 4 bits per pixel: two consecutive nibbles of the
/// traversal per byte, rows bottom-to-top if `reverse_rows`, columns
/// right-to-left if `reverse_cols`, low-nibble first if `swap_nibbles`;
/// each row flushes its odd trailing nibble as a half byte. The output
/// holds exactly `height * ((width + 1) / 2)` bytes.
pub fn pack_4bpp(
    img: &RasterImage,
    palette: &Vec<Rgb>,
    swap_nibbles: bool,
    reverse_rows: bool,
    reverse_cols: bool,
) -> (out: Vec<u8>)
    requires
        img.wf(),
    ensures
        out@.len() == img.height as int * spec_row_bytes(img.width as int),
        out@ == spec_packed(
            img.width as int,
            img.height as int,
            img.pixels@,
            palette@,
            swap_nibbles,
            reverse_rows,
            reverse_cols,
        ),
{
    let w: usize = img.width as usize;
    let h: usize = img.height as usize;
    let total: usize = img.pixels.len();
    let ghost target = spec_packed(
        img.width as int,
        img.height as int,
        img.pixels@,
        palette@,
        swap_nibbles,
        reverse_rows,
        reverse_cols,
    );
    // Precompute the device nibble of each palette entry.
    let mut nibbles: Vec<u8> = Vec::new();
    let mut k: usize = 0;
    while k < palette.len()
        invariant
            nibbles@.len() == k <= palette@.len(),
            forall|j: int| 0 <= j < k ==> #[trigger] nibbles@[j] == spec_device_nibble(
                palette@[j],
            ),
        decreases palette@.len() - k,
    {
        nibbles.push(device_nibble(palette[k]));
        k = k + 1;
    }
    let rb: usize = w / 2 + w % 2;
    proof {
        assert(rb as int == (w as int + 1) / 2);
        assert((img.height as int) * ((img.width as int + 1) / 2) == (h as int) * (rb as int));
        assert((h as int) * (rb as int) <= (h as int) * (w as int + 1)) by (nonlinear_arith)
            requires
                rb as int <= w as int + 1,
                h as int >= 0,
        ;
    }
    let mut out: Vec<u8> = Vec::new();
    let mut ri: usize = 0;
    while ri < h
        invariant
            w == img.width as int,
            h == img.height as int,
            img.wf(),
            total == img.pixels@.len(),
            rb == spec_row_bytes(w as int),
            nibbles@.len() == palette@.len(),
            forall|j: int| 0 <= j < palette@.len() ==> #[trigger] nibbles@[j]
                == spec_device_nibble(palette@[j]),
            target == spec_packed(
                img.width as int,
                img.height as int,
                img.pixels@,
                palette@,
                swap_nibbles,
                reverse_rows,
                reverse_cols,
            ),
            target.len() == h * rb,
            ri <= h,
            out@.len() == ri * rb,
            forall|j: int| 0 <= j < ri * rb ==> out@[j] == target[j],
        decreases h - ri,
    {
        let y: usize = if reverse_rows {
            h - 1 - ri
        } else {
            ri
        };
        let mut bi: usize = 0;
        proof {
            assert(ri * rb + rb == (ri + 1) * rb && (ri + 1) * rb <= h * rb) by (nonlinear_arith)
                requires
                    ri < h,
                    rb >= 0,
            ;
        }
        while bi < rb
            invariant
                w == img.width as int,
                h == img.height as int,
                img.wf(),
                total == img.pixels@.len(),
                rb == spec_row_bytes(w as int),
                nibbles@.len() == palette@.len(),
                forall|j: int| 0 <= j < palette@.len() ==> #[trigger] nibbles@[j]
                    == spec_device_nibble(palette@[j]),
                target == spec_packed(
                    img.width as int,
                    img.height as int,
                    img.pixels@,
                    palette@,
                    swap_nibbles,
                    reverse_rows,
                    reverse_cols,
                ),
                target.len() == h * rb,
                ri < h,
                y == spec_traverse(h as int, reverse_rows, ri as int),
                y < h,
                bi <= rb,
                ri * rb + rb <= h * rb,
                out@.len() == ri * rb + bi,
                forall|j: int| 0 <= j < ri * rb + bi ==> out@[j] == target[j],
            decreases rb - bi,
        {
            proof {
                assert(2 * bi < w) by {
                    assert(bi < (w as int + 1) / 2);
                }
            }
            let x0: usize = if reverse_cols {
                w - 1 - 2 * bi
            } else {
                2 * bi
            };
            proof {
                lemma_pixel_in_range(w as int, h as int, x0 as int, y as int);
                assert((w as int) * (h as int) * 4 == total) by (nonlinear_arith)
                    requires
                        (img.width as int) * (img.height as int) * 4 == total,
                        w == img.width as int,
                        h == img.height as int,
                ;
            }
            let c0 = get_pixel_rgb(&img.pixels, y * w + x0);
            let first = pixel_code(palette, &nibbles, c0);
            let byte: u8 = if 2 * bi + 1 < w {
                let x1: usize = if reverse_cols {
                    w - 1 - (2 * bi + 1)
                } else {
                    2 * bi + 1
                };
                proof {
                    lemma_pixel_in_range(w as int, h as int, x1 as int, y as int);
                }
                let c1 = get_pixel_rgb(&img.pixels, y * w + x1);
                let second = pixel_code(palette, &nibbles, c1);
                if swap_nibbles {
                    second * 16 + first
                } else {
                    first * 16 + second
                }
            } else {
                if swap_nibbles {
                    first
                } else {
                    first * 16
                }
            };
            out.push(byte);
            proof {
                let b = (ri * rb + bi) as int;
                lemma_fundamental_div_mod_converse(b, rb as int, ri as int, bi as int);
                assert(out@[b] == target[b]);
            }
            bi = bi + 1;
        }
        ri = ri + 1;
        proof {
            assert(ri * rb == (ri - 1) * rb + rb) by (nonlinear_arith)
                requires
                    ri >= 1,
                    rb >= 0,
            ;
        }
    }
    proof {
        assert(out@ =~= target);
    }
    out
}

/// A pixel coordinate indexes inside the buffer.
proof fn lemma_pixel_in_range(w: int, h: int, x: int, y: int)
    requires
        w >= 1,
        h >= 1,
        0 <= x < w,
        0 <= y < h,
    ensures
        0 <= y * w + x < w * h,
{
    assert(0 <= y * w + x < w * h) by (nonlinear_arith)
        requires
            0 <= x < w,
            0 <= y < h,
    ;
}

/// For an even width, the packed stream holds exactly half a byte per
/// pixel: `width * height / 2` bytes.
pub proof fn lemma_packed_even_size(w: int, h: int)
    requires
        w >= 0,
        h >= 0,
        w % 2 == 0,
    ensures
        h * spec_row_bytes(w) == (w * h) / 2,
{
    assert(spec_row_bytes(w) == w / 2);
    assert(h * (w / 2) == (w * h) / 2) by (nonlinear_arith)
        requires
            w % 2 == 0,
            w >= 0,
            h >= 0,
    ;
}

/// For an odd width without nibble swapping, the last byte of every
/// packed row is a flushed half byte: its low nibble is zero.
pub proof fn lemma_packed_odd_tail(
    w: int,
    h: int,
    pixels: Seq<u8>,
    pal: Seq<Rgb>,
    rev_rows: bool,
    rev_cols: bool,
    ri: int,
)
    requires
        w >= 1,
        h >= 1,
        w % 2 == 1,
        0 <= ri < h,
    ensures
        spec_packed(w, h, pixels, pal, false, rev_rows, rev_cols)[ri * spec_row_bytes(w)
            + (spec_row_bytes(w) - 1)] as int % 16 == 0,
{
    let rb = spec_row_bytes(w);
    let bi = rb - 1;
    assert(2 * bi + 1 == w);
    let b = ri * rb + bi;
    assert(0 <= b < h * rb) by (nonlinear_arith)
        requires
            0 <= ri < h,
            0 <= bi < rb,
            b == ri * rb + bi,
    ;
    lemma_fundamental_div_mod_converse(b, rb, ri, bi);
    let first = spec_pixel_code(pal, rgb_at(pixels, spec_traverse(h, rev_rows, ri) * w
        + spec_traverse(w, rev_cols, 2 * bi)));
    assert(spec_packed(w, h, pixels, pal, false, rev_rows, rev_cols)[b] == (first * 16) as u8);
    assert(first <= 255);
    assert((first * 16) as u8 as int % 16 == 0) by (bit_vector)
        requires
            first <= 255,
    ;
}

/// Why a frame could not be encoded.
#[derive(Clone, Copy, Debug, PartialEq, Eq, Structural)]
pub enum EncodeError {
    /// The pixel buffer length does not match the dimensions.
    InvalidBuffer,
    /// The underlying PNG encoder failed.
    EncodeFailure,
}

/// A frame encoded for the device: the bytes to transmit, the format
/// they are in, and the dimensions they encode.
pub struct EncodedFrame {
    pub bytes: Vec<u8>,
    pub format: OutputFormat,
    pub width: u32,
    pub height: u32,
}

impl EncodedFrame {
    /// The content type of the transmitted body.
    pub fn content_type(&self) -> (s: &'static str)
        ensures
            self.format == OutputFormat::Png ==> s@ == "image/png"@,
            self.format == OutputFormat::Packed4bpp ==> s@ == "application/octet-stream"@,
    {
        match self.format {
            OutputFormat::Png => "image/png",
            OutputFormat::Packed4bpp => "application/octet-stream",
        }
    }

    /// The filename suggested for a multipart upload.
    pub fn suggested_filename(&self) -> (s: &'static str)
        ensures
            self.format == OutputFormat::Png ==> s@ == "image.png"@,
            self.format == OutputFormat::Packed4bpp ==> s@ == "image.bin"@,
    {
        match self.format {
            OutputFormat::Png => "image.png",
            OutputFormat::Packed4bpp => "image.bin",
        }
    }
}

/// The rotation applied before upload: a quarter turn counterclockwise
/// where swapping the view dimensions matches the native panel, plus a
/// half turn where the flip flag is set.
pub open spec fn spec_effective_rotation(
    vw: int,
    vh: int,
    pw: Option<u32>,
    ph: Option<u32>,
    flip: bool,
) -> int {
    let base: int = match (pw, ph) {
        (Some(w), Some(h)) => if !(vw == w as int && vh == h as int) && vh == w as int && vw
            == h as int {
            270
        } else {
            0
        },
        _ => 0,
    };
    if flip {
        (base + 180) % 360
    } else {
        base
    }
}

/// Compute the effective rotation in degrees.
pub fn effective_rotation(
    vw: u32,
    vh: u32,
    pw: Option<u32>,
    ph: Option<u32>,
    flip: bool,
) -> (r: u16)
    ensures
        r as int == spec_effective_rotation(vw as int, vh as int, pw, ph, flip),
        r == 0 || r == 90 || r == 180 || r == 270,
{
    let mut rotation: u16 = 0;
    if let (Some(w), Some(h)) = (pw, ph) {
        if !(vw == w && vh == h) && vh == w && vw == h {
            rotation = 270;
        }
    }
    if flip {
        rotation = ((rotation as u32 + 180) % 360) as u16;
    }
    rotation
}

/// The raster after the effective rotation: the identity for zero (and
/// for anything that is not a quarter or half turn), else the exact
/// pixel permutation of the turn.
pub open spec fn spec_rotated_pixels(w: int, h: int, s: Seq<u8>, rot: int) -> Seq<u8> {
    if rot == 90 {
        spec_rotate90(w, h, s)
    } else if rot == 180 {
        spec_rotate180(w, h, s)
    } else if rot == 270 {
        spec_rotate270(w, h, s)
    } else {
        s
    }
}

/// Width of the rotated raster.
pub open spec fn spec_rotated_w(w: int, h: int, rot: int) -> int {
    if rot == 90 || rot == 270 {
        h
    } else {
        w
    }
}

/// Height of the rotated raster.
pub open spec fn spec_rotated_h(w: int, h: int, rot: int) -> int {
    if rot == 90 || rot == 270 {
        w
    } else {
        h
    }
}

/// Rotate a raster by the effective rotation.
pub fn rotate_raster(img: &RasterImage, rotation: u16) -> (r: RasterImage)
    requires
        img.wf(),
    ensures
        r.wf(),
        r.width as int == spec_rotated_w(img.width as int, img.height as int, rotation as int),
        r.height as int == spec_rotated_h(img.width as int, img.height as int, rotation as int),
        r.pixels@ == spec_rotated_pixels(
            img.width as int,
            img.height as int,
            img.pixels@,
            rotation as int,
        ),
{
    if rotation == 90 {
        rotate90(img)
    } else if rotation == 180 {
        rotate180(img)
    } else if rotation == 270 {
        rotate270(img)
    } else {
        copy_raster(img)
    }
}

/// The raster padded onto a white canvas of the native dimensions,
/// centered; the identity when the dimensions already match. Larger
/// rasters are clipped by the centering overlay.
pub open spec fn spec_padded_pixels(w: int, h: int, s: Seq<u8>, pw: int, ph: int) -> Seq<u8> {
    if w == pw && h == ph {
        s
    } else {
        let dx = if pw > w {
            (pw - w) / 2
        } else {
            0
        };
        let dy = if ph > h {
            (ph - h) / 2
        } else {
            0
        };
        spec_overlay(pw, ph, spec_white_pixels(pw, ph), w, h, s, dx, dy)
    }
}

/// Center a raster on an opaque-white canvas of the native panel
/// dimensions; pass it through when the dimensions already match.
pub fn pad_to_native(img: &RasterImage, pw: u32, ph: u32) -> (r: RasterImage)
    requires
        img.wf(),
        pw as int * ph as int * 4 <= usize::MAX,
    ensures
        r.wf(),
        r.width == pw || (img.width == pw && img.height == ph && r.width == img.width),
        r.height == ph || (img.width == pw && img.height == ph && r.height == img.height),
        r.pixels@ == spec_padded_pixels(
            img.width as int,
            img.height as int,
            img.pixels@,
            pw as int,
            ph as int,
        ),
{
    if img.width == pw && img.height == ph {
        return copy_raster(img);
    }
    let canvas = white_canvas(pw, ph);
    proof {
        assert(canvas.pixels@ =~= spec_white_pixels(pw as int, ph as int));
    }
    let dx: u32 = if pw > img.width {
        (pw - img.width) / 2
    } else {
        0
    };
    let dy: u32 = if ph > img.height {
        (ph - img.height) / 2
    } else {
        0
    };
    overlay(&canvas, img, dx as usize, dy as usize)
}

/// The raster handed to the serializer: the view raster rotated by the
/// effective rotation, then centered on the native canvas where native
/// dimensions are configured and differ. Returns width, height and the
/// pixel buffer.
pub open spec fn spec_device_raster(
    w: int,
    h: int,
    s: Seq<u8>,
    pw: Option<u32>,
    ph: Option<u32>,
    flip: bool,
) -> (int, int, Seq<u8>) {
    let rot = spec_effective_rotation(w, h, pw, ph, flip);
    let rw = spec_rotated_w(w, h, rot);
    let rh = spec_rotated_h(w, h, rot);
    let rs = spec_rotated_pixels(w, h, s, rot);
    match (pw, ph) {
        (Some(nw), Some(nh)) => if !(rw == nw as int && rh == nh as int) {
            (nw as int, nh as int, spec_padded_pixels(rw, rh, rs, nw as int, nh as int))
        } else {
            (rw, rh, rs)
        },
        _ => (rw, rh, rs),
    }
}

/// Serialize a prepared view raster for the device: rotate it to the
/// native orientation (composing in the flip), center it on the native
/// canvas where the dimensions differ, and encode it as PNG or as the
/// packed 4-bits-per-pixel stream under the device palette and packing
/// flags.
///
/// The packed path always succeeds and its bytes are exactly the packed
/// stream of the device raster; the PNG path succeeds exactly where the
/// PNG encoder succeeds on the device raster, and otherwise reports
/// `EncodeFailure`.
pub fn encode_frame(
    img: &RasterImage,
    panel_width: Option<u32>,
    panel_height: Option<u32>,
    flip: bool,
    format: OutputFormat,
    palette: &Vec<Rgb>,
    swap_nibbles: bool,
    reverse_rows: bool,
    reverse_cols: bool,
) -> (r: Result<EncodedFrame, EncodeError>)
    requires
        img.wf(),
        panel_width matches Some(pw) ==> pw as int * (match panel_height {
            Some(ph) => ph as int,
            None => 0,
        }) * 4 <= usize::MAX,
    ensures
        ({
            let (dw, dh, ds) = spec_device_raster(
                img.width as int,
                img.height as int,
                img.pixels@,
                panel_width,
                panel_height,
                flip,
            );
            &&& (r matches Ok(f) ==> {
                &&& f.format == format
                &&& f.width as int == dw
                &&& f.height as int == dh
                &&& (format == OutputFormat::Packed4bpp ==> f.bytes@ == spec_packed(
                    dw,
                    dh,
                    ds,
                    palette@,
                    swap_nibbles,
                    reverse_rows,
                    reverse_cols,
                ))
                &&& (format == OutputFormat::Png ==> f.bytes@ == png_encoded(dw, dh, ds))
            })
            &&& (format == OutputFormat::Packed4bpp ==> r is Ok)
            &&& (format == OutputFormat::Png ==> ((r is Ok) <==> png_ok(dw, dh, ds)))
            &&& (r is Err ==> format == OutputFormat::Png && r == Result::<
                EncodedFrame,
                EncodeError,
            >::Err(EncodeError::EncodeFailure))
        }),
{
    let rotation = effective_rotation(img.width, img.height, panel_width, panel_height, flip);
    let rotated = rotate_raster(img, rotation);
    let device: RasterImage = match (panel_width, panel_height) {
        (Some(pw), Some(ph)) => {
            if !(rotated.width == pw && rotated.height == ph) {
                pad_to_native(&rotated, pw, ph)
            } else {
                rotated
            }
        },
        _ => rotated,
    };
    match format {
        OutputFormat::Png => {
            match png_encode(&device) {
                Ok(bytes) => Ok(
                    EncodedFrame {
                        bytes,
                        format: OutputFormat::Png,
                        width: device.width,
                        height: device.height,
                    },
                ),
                Err(_) => Err(EncodeError::EncodeFailure),
            }
        },
        OutputFormat::Packed4bpp => {
            let bytes = pack_4bpp(&device, palette, swap_nibbles, reverse_rows, reverse_cols);
            Ok(
                EncodedFrame {
                    bytes,
                    format: OutputFormat::Packed4bpp,
                    width: device.width,
                    height: device.height,
                },
            )
        },
    }
}

} // verus!
