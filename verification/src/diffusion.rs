//! Error-diffusion dithering in luma mode: each pixel is corrected by
//! the error accumulated from its neighbours, mapped to the nearest
//! palette color by luma-weighted distance, and the residual is spread
//! over a fixed kernel of forward neighbours.
//!
//! The accumulated error lives in a ring of rows separate from the
//! pixel buffer, in fixed point scaled by `2^16`; each propagated share
//! is `residual * numerator / denominator`, truncated.

use vstd::prelude::*;
use crate::color::Rgb;
use crate::quant::{alpha_at, get_pixel_rgb, palette_has, palette_mapped, rgb_at, set_pixel_rgb};

verus! {

/// The error-diffusion kernels.
#[derive(Clone, Copy, Debug, PartialEq, Eq, Structural)]
pub enum DiffusionModel {
    FloydSteinberg,
    JarvisJudiceNinke,
    Stucki,
    Burkes,
    Sierra3,
    Sierra2,
    Sierra1,
    Atkinson,
    ReducedAtkinson,
}

/// One propagation target of a kernel: a horizontal offset, a row below
/// the current one, and the numerator of its share.
#[derive(Clone, Copy, Debug, PartialEq, Eq, Structural)]
pub struct KernelEntry {
    pub dx: i32,
    pub dy: usize,
    pub num: u32,
}

impl DiffusionModel {
    /// Common denominator of the kernel's shares.
    pub open spec fn spec_den(self) -> int {
        match self {
            DiffusionModel::FloydSteinberg => 16,
            DiffusionModel::JarvisJudiceNinke => 48,
            DiffusionModel::Stucki => 42,
            DiffusionModel::Burkes => 32,
            DiffusionModel::Sierra3 => 32,
            DiffusionModel::Sierra2 => 16,
            DiffusionModel::Sierra1 => 4,
            DiffusionModel::Atkinson => 8,
            DiffusionModel::ReducedAtkinson => 16,
        }
    }

    /// Horizontal padding of the error rows.
    pub open spec fn spec_offset(self) -> int {
        match self {
            DiffusionModel::FloydSteinberg => 1,
            DiffusionModel::Sierra1 => 1,
            _ => 2,
        }
    }

    /// Rows of the error ring.
    pub open spec fn spec_rows(self) -> int {
        match self {
            DiffusionModel::FloydSteinberg => 2,
            DiffusionModel::Burkes => 2,
            DiffusionModel::Sierra2 => 2,
            DiffusionModel::Sierra1 => 2,
            DiffusionModel::ReducedAtkinson => 2,
            _ => 3,
        }
    }

    /// The kernel's propagation targets, in propagation order.
    pub open spec fn spec_entries(self) -> Seq<KernelEntry> {
        match self {
            DiffusionModel::FloydSteinberg => seq![
                (KernelEntry { dx: 1, dy: 0, num: 7 }),
                (KernelEntry { dx: 1, dy: 1, num: 1 }),
                (KernelEntry { dx: 0, dy: 1, num: 5 }),
                (KernelEntry { dx: -1i32, dy: 1, num: 3 }),
            ],
            DiffusionModel::JarvisJudiceNinke => seq![
                (KernelEntry { dx: 1, dy: 0, num: 7 }),
                (KernelEntry { dx: 2, dy: 0, num: 5 }),
                (KernelEntry { dx: -2i32, dy: 1, num: 3 }),
                (KernelEntry { dx: -1i32, dy: 1, num: 5 }),
                (KernelEntry { dx: 0, dy: 1, num: 7 }),
                (KernelEntry { dx: 1, dy: 1, num: 5 }),
                (KernelEntry { dx: 2, dy: 1, num: 3 }),
                (KernelEntry { dx: -2i32, dy: 2, num: 1 }),
                (KernelEntry { dx: -1i32, dy: 2, num: 3 }),
                (KernelEntry { dx: 0, dy: 2, num: 5 }),
                (KernelEntry { dx: 1, dy: 2, num: 3 }),
                (KernelEntry { dx: 2, dy: 2, num: 1 }),
            ],
            DiffusionModel::Stucki => seq![
                (KernelEntry { dx: 1, dy: 0, num: 8 }),
                (KernelEntry { dx: 2, dy: 0, num: 4 }),
                (KernelEntry { dx: -2i32, dy: 1, num: 2 }),
                (KernelEntry { dx: -1i32, dy: 1, num: 4 }),
                (KernelEntry { dx: 0, dy: 1, num: 8 }),
                (KernelEntry { dx: 1, dy: 1, num: 4 }),
                (KernelEntry { dx: 2, dy: 1, num: 2 }),
                (KernelEntry { dx: -2i32, dy: 2, num: 1 }),
                (KernelEntry { dx: -1i32, dy: 2, num: 2 }),
                (KernelEntry { dx: 0, dy: 2, num: 4 }),
                (KernelEntry { dx: 1, dy: 2, num: 2 }),
                (KernelEntry { dx: 2, dy: 2, num: 1 }),
            ],
            DiffusionModel::Burkes => seq![
                (KernelEntry { dx: 1, dy: 0, num: 8 }),
                (KernelEntry { dx: 2, dy: 0, num: 4 }),
                (KernelEntry { dx: -2i32, dy: 1, num: 2 }),
                (KernelEntry { dx: -1i32, dy: 1, num: 4 }),
                (KernelEntry { dx: 0, dy: 1, num: 8 }),
                (KernelEntry { dx: 1, dy: 1, num: 4 }),
                (KernelEntry { dx: 2, dy: 1, num: 2 }),
            ],
            DiffusionModel::Sierra3 => seq![
                (KernelEntry { dx: 1, dy: 0, num: 5 }),
                (KernelEntry { dx: 2, dy: 0, num: 3 }),
                (KernelEntry { dx: -2i32, dy: 1, num: 2 }),
                (KernelEntry { dx: -1i32, dy: 1, num: 4 }),
                (KernelEntry { dx: 0, dy: 1, num: 5 }),
                (KernelEntry { dx: 1, dy: 1, num: 4 }),
                (KernelEntry { dx: 2, dy: 1, num: 2 }),
                (KernelEntry { dx: -1i32, dy: 2, num: 2 }),
                (KernelEntry { dx: 0, dy: 2, num: 3 }),
                (KernelEntry { dx: 1, dy: 2, num: 2 }),
            ],
            DiffusionModel::Sierra2 => seq![
                (KernelEntry { dx: 1, dy: 0, num: 4 }),
                (KernelEntry { dx: 2, dy: 0, num: 3 }),
                (KernelEntry { dx: -2i32, dy: 1, num: 1 }),
                (KernelEntry { dx: -1i32, dy: 1, num: 2 }),
                (KernelEntry { dx: 0, dy: 1, num: 3 }),
                (KernelEntry { dx: 1, dy: 1, num: 2 }),
                (KernelEntry { dx: 2, dy: 1, num: 1 }),
            ],
            DiffusionModel::Sierra1 => seq![
                (KernelEntry { dx: 1, dy: 0, num: 2 }),
                (KernelEntry { dx: -1i32, dy: 1, num: 1 }),
                (KernelEntry { dx: 0, dy: 1, num: 1 }),
            ],
            DiffusionModel::Atkinson => seq![
                (KernelEntry { dx: 1, dy: 0, num: 1 }),
                (KernelEntry { dx: 2, dy: 0, num: 1 }),
                (KernelEntry { dx: -1i32, dy: 1, num: 1 }),
                (KernelEntry { dx: 0, dy: 1, num: 1 }),
                (KernelEntry { dx: 1, dy: 1, num: 1 }),
                (KernelEntry { dx: 0, dy: 2, num: 1 }),
            ],
            DiffusionModel::ReducedAtkinson => seq![
                (KernelEntry { dx: 1, dy: 0, num: 2 }),
                (KernelEntry { dx: 2, dy: 0, num: 1 }),
                (KernelEntry { dx: 0, dy: 1, num: 2 }),
                (KernelEntry { dx: 1, dy: 1, num: 1 }),
            ],
        }
    }

    /// Common denominator of the kernel's shares.
    pub fn den(&self) -> (d: u32)
        ensures
            d as int == self.spec_den(),
            1 <= d <= 48,
    {
        match self {
            DiffusionModel::FloydSteinberg => 16,
            DiffusionModel::JarvisJudiceNinke => 48,
            DiffusionModel::Stucki => 42,
            DiffusionModel::Burkes => 32,
            DiffusionModel::Sierra3 => 32,
            DiffusionModel::Sierra2 => 16,
            DiffusionModel::Sierra1 => 4,
            DiffusionModel::Atkinson => 8,
            DiffusionModel::ReducedAtkinson => 16,
        }
    }

    /// Horizontal padding of the error rows: the kernel's widest reach.
    pub fn length_offset(&self) -> (o: usize)
        ensures
            o as int == self.spec_offset(),
            1 <= o <= 2,
    {
        match self {
            DiffusionModel::FloydSteinberg => 1,
            DiffusionModel::Sierra1 => 1,
            _ => 2,
        }
    }

    /// Rows of the error ring: the current one plus the kernel's
    /// vertical reach.
    pub fn num_rows(&self) -> (r: usize)
        ensures
            r as int == self.spec_rows(),
            2 <= r <= 3,
    {
        match self {
            DiffusionModel::FloydSteinberg => 2,
            DiffusionModel::Burkes => 2,
            DiffusionModel::Sierra2 => 2,
            DiffusionModel::Sierra1 => 2,
            DiffusionModel::ReducedAtkinson => 2,
            _ => 3,
        }
    }

    /// The kernel's propagation targets, row-major below-right of the
    /// current pixel, each share `num / den`.
    pub fn entries(&self) -> (v: Vec<KernelEntry>)
        ensures
            v@ == self.spec_entries(),
            forall|i: int|
                0 <= i < v@.len() ==> {
                    let e = #[trigger] v@[i];
                    &&& -2 <= e.dx <= 2
                    &&& e.dy <= 2
                    &&& 1 <= e.num <= 8
                },
    {
        let mut v: Vec<KernelEntry> = Vec::new();
        match self {
            DiffusionModel::FloydSteinberg => {
                v.push(KernelEntry { dx: 1, dy: 0, num: 7 });
                v.push(KernelEntry { dx: 1, dy: 1, num: 1 });
                v.push(KernelEntry { dx: 0, dy: 1, num: 5 });
                v.push(KernelEntry { dx: -1, dy: 1, num: 3 });
            },
            DiffusionModel::JarvisJudiceNinke => {
                v.push(KernelEntry { dx: 1, dy: 0, num: 7 });
                v.push(KernelEntry { dx: 2, dy: 0, num: 5 });
                v.push(KernelEntry { dx: -2, dy: 1, num: 3 });
                v.push(KernelEntry { dx: -1, dy: 1, num: 5 });
                v.push(KernelEntry { dx: 0, dy: 1, num: 7 });
                v.push(KernelEntry { dx: 1, dy: 1, num: 5 });
                v.push(KernelEntry { dx: 2, dy: 1, num: 3 });
                v.push(KernelEntry { dx: -2, dy: 2, num: 1 });
                v.push(KernelEntry { dx: -1, dy: 2, num: 3 });
                v.push(KernelEntry { dx: 0, dy: 2, num: 5 });
                v.push(KernelEntry { dx: 1, dy: 2, num: 3 });
                v.push(KernelEntry { dx: 2, dy: 2, num: 1 });
            },
            DiffusionModel::Stucki => {
                v.push(KernelEntry { dx: 1, dy: 0, num: 8 });
                v.push(KernelEntry { dx: 2, dy: 0, num: 4 });
                v.push(KernelEntry { dx: -2, dy: 1, num: 2 });
                v.push(KernelEntry { dx: -1, dy: 1, num: 4 });
                v.push(KernelEntry { dx: 0, dy: 1, num: 8 });
                v.push(KernelEntry { dx: 1, dy: 1, num: 4 });
                v.push(KernelEntry { dx: 2, dy: 1, num: 2 });
                v.push(KernelEntry { dx: -2, dy: 2, num: 1 });
                v.push(KernelEntry { dx: -1, dy: 2, num: 2 });
                v.push(KernelEntry { dx: 0, dy: 2, num: 4 });
                v.push(KernelEntry { dx: 1, dy: 2, num: 2 });
                v.push(KernelEntry { dx: 2, dy: 2, num: 1 });
            },
            DiffusionModel::Burkes => {
                v.push(KernelEntry { dx: 1, dy: 0, num: 8 });
                v.push(KernelEntry { dx: 2, dy: 0, num: 4 });
                v.push(KernelEntry { dx: -2, dy: 1, num: 2 });
                v.push(KernelEntry { dx: -1, dy: 1, num: 4 });
                v.push(KernelEntry { dx: 0, dy: 1, num: 8 });
                v.push(KernelEntry { dx: 1, dy: 1, num: 4 });
                v.push(KernelEntry { dx: 2, dy: 1, num: 2 });
            },
            DiffusionModel::Sierra3 => {
                v.push(KernelEntry { dx: 1, dy: 0, num: 5 });
                v.push(KernelEntry { dx: 2, dy: 0, num: 3 });
                v.push(KernelEntry { dx: -2, dy: 1, num: 2 });
                v.push(KernelEntry { dx: -1, dy: 1, num: 4 });
                v.push(KernelEntry { dx: 0, dy: 1, num: 5 });
                v.push(KernelEntry { dx: 1, dy: 1, num: 4 });
                v.push(KernelEntry { dx: 2, dy: 1, num: 2 });
                v.push(KernelEntry { dx: -1, dy: 2, num: 2 });
                v.push(KernelEntry { dx: 0, dy: 2, num: 3 });
                v.push(KernelEntry { dx: 1, dy: 2, num: 2 });
            },
            DiffusionModel::Sierra2 => {
                v.push(KernelEntry { dx: 1, dy: 0, num: 4 });
                v.push(KernelEntry { dx: 2, dy: 0, num: 3 });
                v.push(KernelEntry { dx: -2, dy: 1, num: 1 });
                v.push(KernelEntry { dx: -1, dy: 1, num: 2 });
                v.push(KernelEntry { dx: 0, dy: 1, num: 3 });
                v.push(KernelEntry { dx: 1, dy: 1, num: 2 });
                v.push(KernelEntry { dx: 2, dy: 1, num: 1 });
            },
            DiffusionModel::Sierra1 => {
                v.push(KernelEntry { dx: 1, dy: 0, num: 2 });
                v.push(KernelEntry { dx: -1, dy: 1, num: 1 });
                v.push(KernelEntry { dx: 0, dy: 1, num: 1 });
            },
            DiffusionModel::Atkinson => {
                v.push(KernelEntry { dx: 1, dy: 0, num: 1 });
                v.push(KernelEntry { dx: 2, dy: 0, num: 1 });
                v.push(KernelEntry { dx: -1, dy: 1, num: 1 });
                v.push(KernelEntry { dx: 0, dy: 1, num: 1 });
                v.push(KernelEntry { dx: 1, dy: 1, num: 1 });
                v.push(KernelEntry { dx: 0, dy: 2, num: 1 });
            },
            DiffusionModel::ReducedAtkinson => {
                v.push(KernelEntry { dx: 1, dy: 0, num: 2 });
                v.push(KernelEntry { dx: 2, dy: 0, num: 1 });
                v.push(KernelEntry { dx: 0, dy: 1, num: 2 });
                v.push(KernelEntry { dx: 1, dy: 1, num: 1 });
            },
        }
        proof {
            assert(v@ =~= self.spec_entries());
        }
        v
    }
}

/// Every cell of the error ring is zero, as before the first pixel.
pub open spec fn rows_zero(rows: Seq<Vec<i64>>) -> bool {
    forall|r: int, k: int|
        0 <= r < rows.len() && 0 <= k < rows[r]@.len() ==> #[trigger] rows[r]@[k] == 0
}

/// A scaled weighted distance is never negative.
pub proof fn lemma_scaled_dist_nonneg(pv: Rgb, pr: int, pg: int, pb: int)
    ensures
        spec_scaled_dist(pv, pr, pg, pb) >= 0,
{
    let dr = pr - pv.r as int * 65536;
    let dg = pg - pv.g as int * 65536;
    let db = pb - pv.b as int * 65536;
    assert(dr * dr >= 0 && dg * dg >= 0 && db * db >= 0) by (nonlinear_arith);
    vstd::arithmetic::div_mod::lemma_div_pos_is_pos(dr * dr, 1024);
    vstd::arithmetic::div_mod::lemma_div_pos_is_pos(dg * dg, 1024);
    vstd::arithmetic::div_mod::lemma_div_pos_is_pos(db * db, 1024);
    assert((dr * dr / 1024) * 299 >= 0 && (dg * dg / 1024) * 587 >= 0 && (db * db / 1024) * 114
        >= 0) by (nonlinear_arith)
        requires
            dr * dr / 1024 >= 0,
            dg * dg / 1024 >= 0,
            db * db / 1024 >= 0,
    ;
}

/// On a corrected color that is exactly a scaled byte color, a zero
/// scaled distance forces channel equality: a one-step channel
/// difference already scores above zero.
pub proof fn lemma_scaled_zero_dist(pv: Rgb, c: Rgb)
    requires
        spec_scaled_dist(pv, c.r as int * 65536, c.g as int * 65536, c.b as int * 65536) == 0,
    ensures
        pv == c,
{
    let dr = c.r as int * 65536 - pv.r as int * 65536;
    let dg = c.g as int * 65536 - pv.g as int * 65536;
    let db = c.b as int * 65536 - pv.b as int * 65536;
    lemma_channel_term_nonneg(dr);
    lemma_channel_term_nonneg(dg);
    lemma_channel_term_nonneg(db);
    if c.r != pv.r {
        lemma_channel_term_pos(dr);
        assert(false);
    }
    if c.g != pv.g {
        lemma_channel_term_pos(dg);
        assert(false);
    }
    if c.b != pv.b {
        lemma_channel_term_pos(db);
        assert(false);
    }
}

/// One squared-and-reduced channel term is never negative.
proof fn lemma_channel_term_nonneg(d: int)
    ensures
        d * d / 1024 >= 0,
{
    assert(d * d >= 0) by (nonlinear_arith);
    vstd::arithmetic::div_mod::lemma_div_pos_is_pos(d * d, 1024);
}

/// A nonzero multiple of the channel scale scores above zero even after
/// the reduction.
proof fn lemma_channel_term_pos(d: int)
    requires
        d != 0,
        d % 65536 == 0,
    ensures
        d * d / 1024 >= 0x40_0000,
{
    assert(d * d >= 0x1_0000_0000) by (nonlinear_arith)
        requires
            d != 0,
            d % 65536 == 0,
    ;
    vstd::arithmetic::div_mod::lemma_div_is_ordered(0x1_0000_0000, d * d, 1024);
}


/// One cell of a ring snapshot (a naming aid for proofs).
pub open spec fn old_cell_of(rows: Seq<Seq<int>>, r: int, k: int) -> int {
    rows[r][k]
}

/// A sequence view of the error ring, cell values as integers.
pub open spec fn rows_ints(rows: Seq<Vec<i64>>) -> Seq<Seq<int>> {
    Seq::new(rows.len(), |r: int| Seq::new(rows[r]@.len(), |k: int| rows[r]@[k] as int))
}

/// The error ring before any pixel: all cells zero.
pub open spec fn zero_err_rows(num_rows: int, stride: int) -> Seq<Seq<int>> {
    Seq::new(num_rows as nat, |r: int| Seq::new(stride as nat, |k: int| 0int))
}

/// A fixed-point channel clamped into the byte range.
pub open spec fn spec_clamp_chan(t: int) -> int {
    if t < 0 {
        0
    } else if t > 255 * 65536 {
        255int * 65536
    } else {
        t
    }
}

/// A channel corrected by its accumulated error, in fixed point.
pub open spec fn spec_corrected(v: int, e: int) -> int {
    spec_clamp_chan(v * 65536 + e)
}

/// One kernel entry applied to the error ring: its target cell triple
/// accumulates the clamped shares; a target outside the padded row or
/// the ring is skipped.
pub open spec fn spec_apply_entry(
    rows: Seq<Seq<int>>,
    stride: int,
    num_rows: int,
    base: int,
    e: KernelEntry,
    den: int,
    er: int,
    eg: int,
    eb: int,
) -> Seq<Seq<int>> {
    let tgt = base + (e.dx as int + 2) * 3;
    if tgt >= 6 && tgt - 6 + 3 <= stride && (e.dy as int) < num_rows {
        let nx = tgt - 6;
        let row = rows[e.dy as int];
        rows.update(
            e.dy as int,
            row.update(nx, spec_clamp_err(row[nx] + spec_share(er, e.num as int, den))).update(
                nx + 1,
                spec_clamp_err(row[nx + 1] + spec_share(eg, e.num as int, den)),
            ).update(nx + 2, spec_clamp_err(row[nx + 2] + spec_share(eb, e.num as int, den))),
        )
    } else {
        rows
    }
}

/// The first `k` kernel entries applied in order.
pub open spec fn spec_apply_entries(
    rows: Seq<Seq<int>>,
    stride: int,
    num_rows: int,
    base: int,
    entries: Seq<KernelEntry>,
    den: int,
    er: int,
    eg: int,
    eb: int,
    k: int,
) -> Seq<Seq<int>>
    decreases k,
{
    if k <= 0 {
        rows
    } else {
        spec_apply_entry(
            spec_apply_entries(rows, stride, num_rows, base, entries, den, er, eg, eb, k - 1),
            stride,
            num_rows,
            base,
            entries[k - 1],
            den,
            er,
            eg,
            eb,
        )
    }
}

/// Processing one pixel: correct its channels by the accumulated error,
/// pick the nearest palette entry, and spread the residual over the
/// kernel — nothing spreads when the residual is zero on all channels.
pub open spec fn spec_pixel_step(
    rows: Seq<Seq<int>>,
    pal: Seq<Rgb>,
    model: DiffusionModel,
    stride: int,
    base: int,
    c: Rgb,
) -> Seq<Seq<int>> {
    let pr = spec_corrected(c.r as int, rows[0][base]);
    let pg = spec_corrected(c.g as int, rows[0][base + 1]);
    let pb = spec_corrected(c.b as int, rows[0][base + 2]);
    let ch = pal[spec_nearest_scaled(pal, pr, pg, pb)];
    let er = pr - ch.r as int * 65536;
    let eg = pg - ch.g as int * 65536;
    let eb = pb - ch.b as int * 65536;
    if er == 0 && eg == 0 && eb == 0 {
        rows
    } else {
        spec_apply_entries(
            rows,
            stride,
            model.spec_rows(),
            base,
            model.spec_entries(),
            model.spec_den(),
            er,
            eg,
            eb,
            model.spec_entries().len() as int,
        )
    }
}

/// The ring rotated at the end of a row: the finished row leaves, a
/// zero row enters.
pub open spec fn spec_rotate_rows(rows: Seq<Seq<int>>, stride: int) -> Seq<Seq<int>> {
    rows.subrange(1, rows.len() as int).push(Seq::new(stride as nat, |k: int| 0int))
}

/// Cell base of a pixel's error triple in the padded row.
pub open spec fn spec_err_base(w: int, model: DiffusionModel, p: int) -> int {
    (model.spec_offset() + p % w) * 3
}

/// Width of one padded error row, in cells.
pub open spec fn spec_err_stride(w: int, model: DiffusionModel) -> int {
    (w + model.spec_offset() * 2) * 3
}

/// The error ring after the first `p` pixels of the row-major scan,
/// before the rotation a completed row triggers.
pub open spec fn spec_rows_mid(
    s: Seq<u8>,
    w: int,
    pal: Seq<Rgb>,
    model: DiffusionModel,
    p: int,
) -> Seq<Seq<int>>
    decreases p, 0int,
{
    if p <= 0 {
        zero_err_rows(model.spec_rows(), spec_err_stride(w, model))
    } else {
        spec_pixel_step(
            spec_rows_before(s, w, pal, model, p - 1),
            pal,
            model,
            spec_err_stride(w, model),
            spec_err_base(w, model, p - 1),
            rgb_at(s, p - 1),
        )
    }
}

/// The error ring the scan reads at pixel `p`: the ring after the first
/// `p` pixels, rotated where `p` opens a new row.
pub open spec fn spec_rows_before(
    s: Seq<u8>,
    w: int,
    pal: Seq<Rgb>,
    model: DiffusionModel,
    p: int,
) -> Seq<Seq<int>>
    decreases p, 1int,
{
    if p <= 0 {
        zero_err_rows(model.spec_rows(), spec_err_stride(w, model))
    } else if p % w == 0 {
        spec_rotate_rows(spec_rows_mid(s, w, pal, model, p), spec_err_stride(w, model))
    } else {
        spec_rows_mid(s, w, pal, model, p)
    }
}

/// The color error diffusion writes at pixel `p`: the palette entry
/// nearest (by luma-weighted scaled distance) to the pixel corrected by
/// its accumulated error.
pub open spec fn spec_diffused_pixel(
    s: Seq<u8>,
    w: int,
    pal: Seq<Rgb>,
    model: DiffusionModel,
    p: int,
) -> Rgb {
    let rows = spec_rows_before(s, w, pal, model, p);
    let base = spec_err_base(w, model, p);
    let c = rgb_at(s, p);
    pal[spec_nearest_scaled(
        pal,
        spec_corrected(c.r as int, rows[0][base]),
        spec_corrected(c.g as int, rows[0][base + 1]),
        spec_corrected(c.b as int, rows[0][base + 2]),
    )]
}

/// The error ring is well formed: the right number of rows, each of the
/// stride, every cell within the clamping ceiling.
pub open spec fn rows_wf(rows: Seq<Vec<i64>>, num_rows: int, stride: int) -> bool {
    &&& rows.len() == num_rows
    &&& forall|r: int| 0 <= r < rows.len() ==> (#[trigger] rows[r])@.len() == stride
    &&& forall|r: int, k: int|
        0 <= r < rows.len() && 0 <= k < stride ==> -0x100_0000_0000 <= (#[trigger] rows[r]@[k])
            <= 0x100_0000_0000
}

/// A scaled channel delta squared, weighted, stays inside 64 bits.
proof fn lemma_scaled_dist_bound(d: int)
    requires
        -0xFF_0000 <= d <= 0xFF_0000,
    ensures
        0 <= d * d <= 0xFE01_0000_0000,
{
    assert(0 <= d * d <= 0xFE01_0000_0000) by (nonlinear_arith)
        requires
            -0xFF_0000 <= d <= 0xFF_0000,
    ;
}

/// Luma-weighted squared distance between a palette color and a
/// corrected color held in fixed point (each channel scaled by `2^16`),
/// the squares knocked down by `2^10` to stay in range.
pub open spec fn spec_scaled_dist(pv: Rgb, pr: int, pg: int, pb: int) -> int {
    let dr = pr - pv.r as int * 65536;
    let dg = pg - pv.g as int * 65536;
    let db = pb - pv.b as int * 65536;
    (dr * dr / 1024) * 299 + (dg * dg / 1024) * 587 + (db * db / 1024) * 114
}

/// Scan for the palette entry nearest to the corrected color, first of
/// equals winning.
pub open spec fn scaled_scan_upto(pal: Seq<Rgb>, pr: int, pg: int, pb: int, n: int) -> int
    decreases n,
{
    if n <= 1 {
        0
    } else {
        let prev = scaled_scan_upto(pal, pr, pg, pb, n - 1);
        if spec_scaled_dist(pal[n - 1], pr, pg, pb) < spec_scaled_dist(pal[prev], pr, pg, pb) {
            n - 1
        } else {
            prev
        }
    }
}

/// The palette index the diffusion step picks for a corrected color.
pub open spec fn spec_nearest_scaled(pal: Seq<Rgb>, pr: int, pg: int, pb: int) -> int {
    scaled_scan_upto(pal, pr, pg, pb, pal.len() as int)
}

/// The scan stays inside the scanned prefix.
pub proof fn lemma_scaled_scan_in_range(pal: Seq<Rgb>, pr: int, pg: int, pb: int, n: int)
    requires
        n >= 1,
    ensures
        0 <= scaled_scan_upto(pal, pr, pg, pb, n) < n,
    decreases n,
{
    if n > 1 {
        lemma_scaled_scan_in_range(pal, pr, pg, pb, n - 1);
    }
}

/// The scan is a true minimizer of the scaled weighted distance.
pub proof fn lemma_scaled_scan_is_min(pal: Seq<Rgb>, pr: int, pg: int, pb: int, n: int)
    requires
        n >= 1,
        n <= pal.len(),
    ensures
        forall|j: int|
            0 <= j < n ==> spec_scaled_dist(pal[scaled_scan_upto(pal, pr, pg, pb, n)], pr, pg, pb)
                <= spec_scaled_dist(#[trigger] pal[j], pr, pg, pb),
    decreases n,
{
    if n > 1 {
        lemma_scaled_scan_is_min(pal, pr, pg, pb, n - 1);
    }
}

/// Nearest palette index to a corrected color held in fixed point, by
/// luma-weighted squared distance.
fn nearest_scaled(pal: &Vec<Rgb>, pr: i64, pg: i64, pb: i64) -> (idx: usize)
    requires
        pal@.len() >= 1,
        0 <= pr <= 255 * 65536,
        0 <= pg <= 255 * 65536,
        0 <= pb <= 255 * 65536,
    ensures
        idx < pal@.len(),
        idx as int == spec_nearest_scaled(pal@, pr as int, pg as int, pb as int),
{
    let mut best: usize = 0;
    let mut best_d: i64 = scaled_dist(pal[0], pr, pg, pb);
    let mut i: usize = 1;
    while i < pal.len()
        invariant
            1 <= i <= pal@.len(),
            best < i,
            0 <= pr <= 255 * 65536,
            0 <= pg <= 255 * 65536,
            0 <= pb <= 255 * 65536,
            best as int == scaled_scan_upto(pal@, pr as int, pg as int, pb as int, i as int),
            best_d as int == spec_scaled_dist(pal@[best as int], pr as int, pg as int, pb as int),
        decreases pal@.len() - i,
    {
        let d = scaled_dist(pal[i], pr, pg, pb);
        if d < best_d {
            best = i;
            best_d = d;
        }
        i = i + 1;
    }
    best
}

/// Luma-weighted squared distance between a palette color and a
/// fixed-point corrected color, in scaled units.
fn scaled_dist(pv: Rgb, pr: i64, pg: i64, pb: i64) -> (d: i64)
    requires
        0 <= pr <= 255 * 65536,
        0 <= pg <= 255 * 65536,
        0 <= pb <= 255 * 65536,
    ensures
        d as int == spec_scaled_dist(pv, pr as int, pg as int, pb as int),
        d >= 0,
{
    let dr: i64 = pr - (pv.r as i64) * 65536;
    let dg: i64 = pg - (pv.g as i64) * 65536;
    let db: i64 = pb - (pv.b as i64) * 65536;
    proof {
        lemma_scaled_dist_bound(dr as int);
        lemma_scaled_dist_bound(dg as int);
        lemma_scaled_dist_bound(db as int);
    }
    (dr * dr / 1024) * 299 + (dg * dg / 1024) * 587 + (db * db / 1024) * 114
}

/// Clamp an accumulated error cell to the ring's ceiling; real runs
/// stay far below it.
pub open spec fn spec_clamp_err(v: int) -> int {
    if v > 0x100_0000_0000 {
        0x100_0000_0000
    } else if v < -0x100_0000_0000 {
        -0x100_0000_0000
    } else {
        v
    }
}

/// Clamp an accumulated error cell to the ring's ceiling.
fn clamp_err(v: i64) -> (r: i64)
    requires
        -0x200_0000_0000 <= v <= 0x200_0000_0000,
    ensures
        r as int == spec_clamp_err(v as int),
        -0x100_0000_0000 <= r <= 0x100_0000_0000,
{
    if v > 0x100_0000_0000 {
        0x100_0000_0000
    } else if v < -0x100_0000_0000 {
        -0x100_0000_0000
    } else {
        v
    }
}

/// A kernel share of a residual: the residual scaled by the entry's
/// fraction, the magnitude truncated.
pub open spec fn spec_share(e: int, num: int, den: int) -> int {
    if e >= 0 {
        e * num / den
    } else {
        -((-e) * num / den)
    }
}

/// One kernel share, computed on the magnitude so the truncation is
/// symmetric around zero.
fn share(e: i64, num: u32, den: u32) -> (r: i64)
    requires
        -0xFF_0000 <= e <= 0xFF_0000,
        1 <= num <= 8,
        1 <= den <= 48,
    ensures
        r as int == spec_share(e as int, num as int, den as int),
        -0x7F8_0000 <= r <= 0x7F8_0000,
{
    proof {
        let m: int = if e >= 0 {
            e as int
        } else {
            -(e as int)
        };
        assert(0 <= m * (num as int) <= 0x7F8_0000) by (nonlinear_arith)
            requires
                0 <= m <= 0xFF_0000,
                1 <= num as int <= 8,
        ;
        vstd::arithmetic::div_mod::lemma_div_pos_is_pos(m * (num as int), den as int);
        vstd::arithmetic::div_mod::lemma_div_is_ordered_by_denominator(
            m * (num as int),
            1,
            den as int,
        );
        vstd::arithmetic::div_mod::lemma_div_basics(m * (num as int));
    }
    if e >= 0 {
        let mag: u64 = (e as u64) * (num as u64) / (den as u64);
        mag as i64
    } else {
        let mag: u64 = ((-e) as u64) * (num as u64) / (den as u64);
        -(mag as i64)
    }
}

/// Add each channel's kernel share into one target cell triple of the
/// error ring, clamping at the ring's ceiling: the three target cells
/// become exactly the clamped sums, everything else is untouched.
fn spread_err(
    rows: &mut Vec<Vec<i64>>,
    dy: usize,
    nx: usize,
    err_r: i64,
    err_g: i64,
    err_b: i64,
    num: u32,
    den: u32,
)
    requires
        dy < old(rows)@.len(),
        forall|r: int| 0 <= r < old(rows)@.len() ==> nx + 3 <= (#[trigger] old(rows)@[r])@.len(),
        forall|r: int, k: int|
            0 <= r < old(rows)@.len() && 0 <= k < old(rows)@[r]@.len() ==> -0x100_0000_0000 <= (
            #[trigger] old(rows)@[r]@[k]) <= 0x100_0000_0000,
        -0xFF_0000 <= err_r <= 0xFF_0000,
        -0xFF_0000 <= err_g <= 0xFF_0000,
        -0xFF_0000 <= err_b <= 0xFF_0000,
        1 <= num <= 8,
        1 <= den <= 48,
    ensures
        final(rows)@.len() == old(rows)@.len(),
        forall|r: int|
            0 <= r < old(rows)@.len() ==> (#[trigger] final(rows)@[r])@.len() == old(
                rows,
            )@[r]@.len(),
        forall|r: int, k: int|
            0 <= r < old(rows)@.len() && 0 <= k < old(rows)@[r]@.len() ==> -0x100_0000_0000 <= (
            #[trigger] final(rows)@[r]@[k]) <= 0x100_0000_0000,
        forall|r: int, k: int|
            0 <= r < old(rows)@.len() && 0 <= k < old(rows)@[r]@.len() && !(r == dy && nx <= k < nx
                + 3) ==> #[trigger] final(rows)@[r]@[k] == old(rows)@[r]@[k],
        final(rows)@[dy as int]@[nx as int] as int == spec_clamp_err(
            old(rows)@[dy as int]@[nx as int] + spec_share(err_r as int, num as int, den as int),
        ),
        final(rows)@[dy as int]@[nx as int + 1] as int == spec_clamp_err(
            old(rows)@[dy as int]@[nx as int + 1] + spec_share(
                err_g as int,
                num as int,
                den as int,
            ),
        ),
        final(rows)@[dy as int]@[nx as int + 2] as int == spec_clamp_err(
            old(rows)@[dy as int]@[nx as int + 2] + spec_share(
                err_b as int,
                num as int,
                den as int,
            ),
        ),
{
    let dr: i64 = share(err_r, num, den);
    let dg: i64 = share(err_g, num, den);
    let db: i64 = share(err_b, num, den);
    let row = &mut rows[dy];
    let rl: usize = row.len();
    assert(nx + 3 <= rl as int);
    let v0 = row[nx];
    row.set(nx, clamp_err(v0 + dr));
    let v1 = row[nx + 1];
    row.set(nx + 1, clamp_err(v1 + dg));
    let v2 = row[nx + 2];
    row.set(nx + 2, clamp_err(v2 + db));
}

/// Error-diffusion dithering: row-major, each pixel is corrected by
/// its accumulated error, replaced in place by the nearest palette
/// color by luma-weighted distance, and the residual spread over the
/// kernel's targets; the row ring rotates at the end of each row.
/// Exactly `spec_diffused_pixel` per pixel, alpha untouched; a buffer
/// already holding only palette colors is left byte-for-byte unchanged
/// (every residual is zero).
#[verifier::rlimit(100)]
pub fn diffuse_dither_luma_mode(
    pixels: &mut Vec<u8>,
    width: usize,
    height: usize,
    palette: &Vec<Rgb>,
    model: DiffusionModel,
)
    requires
        old(pixels)@.len() == width * height * 4,
        palette@.len() >= 1,
    ensures
        final(pixels)@.len() == old(pixels)@.len(),
        palette_mapped(old(pixels)@, final(pixels)@, palette@),
        forall|p: int|
            0 <= p < width * height ==> #[trigger] rgb_at(final(pixels)@, p)
                == spec_diffused_pixel(old(pixels)@, width as int, palette@, model, p),
        (forall|p: int|
            0 <= p < old(pixels)@.len() / 4 ==> palette_has(
                palette@,
                #[trigger] rgb_at(old(pixels)@, p),
            )) ==> final(pixels)@ == old(pixels)@,
{
    let ghost orig = pixels@;
    let ghost allpal = forall|p: int|
        0 <= p < orig.len() / 4 ==> palette_has(palette@, #[trigger] rgb_at(orig, p));
    if width == 0 || height == 0 {
        assert(width * height == 0) by (nonlinear_arith)
            requires
                width == 0 || height == 0,
        ;
        return ;
    }
    let total: usize = pixels.len();
    proof {
        assert(width * 4 <= total && width * height <= total) by (nonlinear_arith)
            requires
                height >= 1,
                width >= 1,
                total == width * height * 4,
        ;
    }
    let offset = model.length_offset();
    let num_rows = model.num_rows();
    let den = model.den();
    let entries = model.entries();
    let stride: usize = (width + offset * 2) * 3;
    assert(stride + 12 <= usize::MAX);
    let mut rows: Vec<Vec<i64>> = Vec::new();
    let mut r: usize = 0;
    while r < num_rows
        invariant
            rows@.len() == r <= num_rows,
            forall|q: int| 0 <= q < r ==> (#[trigger] rows@[q])@.len() == stride,
            forall|q: int, k: int|
                0 <= q < r && 0 <= k < stride ==> #[trigger] rows@[q]@[k] == 0,
        decreases num_rows - r,
    {
        let mut row: Vec<i64> = Vec::new();
        let mut k: usize = 0;
        while k < stride
            invariant
                row@.len() == k <= stride,
                forall|j: int| 0 <= j < k ==> #[trigger] row@[j] == 0,
            decreases stride - k,
        {
            row.push(0);
            k = k + 1;
        }
        rows.push(row);
        r = r + 1;
    }
    let count: usize = pixels.len() / 4;
    assert(count == width * height);
    proof {
        assert(rows_ints(rows@) =~~= zero_err_rows(num_rows as int, stride as int));
        assert(rows_ints(rows@) == spec_rows_before(orig, width as int, palette@, model, 0));
    }
    let mut y: usize = 0;
    while y < height
        invariant
            palette@.len() >= 1,
            width >= 1,
            height >= 1,
            1 <= offset <= 2,
            2 <= num_rows <= 3,
            1 <= den <= 48,
            offset as int == model.spec_offset(),
            num_rows as int == model.spec_rows(),
            den as int == model.spec_den(),
            entries@ == model.spec_entries(),
            forall|i: int|
                0 <= i < entries@.len() ==> {
                    let e = #[trigger] entries@[i];
                    &&& -2 <= e.dx <= 2
                    &&& 0 <= e.dy <= 2
                    &&& 1 <= e.num <= 8
                },
            stride == (width + offset * 2) * 3,
            stride as int == spec_err_stride(width as int, model),
            stride + 12 <= usize::MAX,
            count == width * height,
            orig.len() == width * height * 4,
            pixels@.len() == orig.len(),
            y <= height,
            rows_wf(rows@, num_rows as int, stride as int),
            rows_ints(rows@) == spec_rows_before(
                orig,
                width as int,
                palette@,
                model,
                (y * width) as int,
            ),
            forall|q: int| y * width <= q < count ==> rgb_at(pixels@, q) == rgb_at(orig, q),
            forall|q: int|
                0 <= q < y * width ==> #[trigger] palette_has(palette@, rgb_at(pixels@, q)),
            forall|q: int|
                0 <= q < y * width ==> #[trigger] rgb_at(pixels@, q) == spec_diffused_pixel(
                    orig,
                    width as int,
                    palette@,
                    model,
                    q,
                ),
            forall|q: int| 0 <= q < count ==> #[trigger] alpha_at(pixels@, q) == alpha_at(orig, q),
            allpal == (forall|q: int|
                0 <= q < orig.len() / 4 ==> palette_has(palette@, #[trigger] rgb_at(orig, q))),
            allpal ==> pixels@ == orig && rows_zero(rows@),
        decreases height - y,
    {
        let mut x: usize = 0;
        proof {
            assert((y + 1) * width <= height * width && y * width + width == (y + 1) * width) by (
            nonlinear_arith)
                requires
                    y < height,
                    width >= 1,
            ;
            assert(height * width == width * height) by (nonlinear_arith);
        }
        while x < width
            invariant
                palette@.len() >= 1,
                width >= 1,
                height >= 1,
                1 <= offset <= 2,
                2 <= num_rows <= 3,
                1 <= den <= 48,
                offset as int == model.spec_offset(),
                num_rows as int == model.spec_rows(),
                den as int == model.spec_den(),
                entries@ == model.spec_entries(),
                forall|i: int|
                    0 <= i < entries@.len() ==> {
                        let e = #[trigger] entries@[i];
                        &&& -2 <= e.dx <= 2
                        &&& 0 <= e.dy <= 2
                        &&& 1 <= e.num <= 8
                    },
                stride == (width + offset * 2) * 3,
                stride as int == spec_err_stride(width as int, model),
                stride + 12 <= usize::MAX,
                count == width * height,
                orig.len() == width * height * 4,
                pixels@.len() == orig.len(),
                y < height,
                x <= width,
                y * width + width <= count,
                rows_wf(rows@, num_rows as int, stride as int),
                x < width ==> rows_ints(rows@) == spec_rows_before(
                    orig,
                    width as int,
                    palette@,
                    model,
                    (y * width + x) as int,
                ),
                x == width ==> rows_ints(rows@) == spec_rows_mid(
                    orig,
                    width as int,
                    palette@,
                    model,
                    (y * width + x) as int,
                ),
                forall|q: int|
                    y * width + x <= q < count ==> rgb_at(pixels@, q) == rgb_at(orig, q),
                forall|q: int|
                    0 <= q < y * width + x ==> #[trigger] palette_has(palette@, rgb_at(pixels@, q)),
                forall|q: int|
                    0 <= q < y * width + x ==> #[trigger] rgb_at(pixels@, q)
                        == spec_diffused_pixel(orig, width as int, palette@, model, q),
                forall|q: int|
                    0 <= q < count ==> #[trigger] alpha_at(pixels@, q) == alpha_at(orig, q),
                allpal == (forall|q: int|
                    0 <= q < orig.len() / 4 ==> palette_has(palette@, #[trigger] rgb_at(orig, q))),
                allpal ==> pixels@ == orig && rows_zero(rows@),
            decreases width - x,
        {
            let p: usize = y * width + x;
            let base: usize = (offset + x) * 3;
            assert(base + 3 <= stride);
            proof {
                assert((p as int) % (width as int) == x as int) by {
                    vstd::arithmetic::div_mod::lemma_fundamental_div_mod_converse(
                        p as int,
                        width as int,
                        y as int,
                        x as int,
                    );
                }
                assert(base as int == spec_err_base(width as int, model, p as int));
            }
            let ghost pre_pixel = rows_ints(rows@);
            let c = get_pixel_rgb(pixels, p);
            let er = rows[0][base];
            let eg = rows[0][base + 1];
            let eb = rows[0][base + 2];
            proof {
                assert(er as int == pre_pixel[0][base as int]);
                assert(eg as int == pre_pixel[0][base as int + 1]);
                assert(eb as int == pre_pixel[0][base as int + 2]);
            }
            let pr = clamp_scaled((c.r as i64) * 65536 + er);
            let pg = clamp_scaled((c.g as i64) * 65536 + eg);
            let pb = clamp_scaled((c.b as i64) * 65536 + eb);
            let best = nearest_scaled(palette, pr, pg, pb);
            let chosen = palette[best];
            proof {
                if allpal {
                    // With a zero error ring, the corrected color is the
                    // pixel itself, already a palette member, and the
                    // nearest scan returns exactly it.
                    assert(er == 0 && eg == 0 && eb == 0);
                    assert(pr == (c.r as i64) * 65536);
                    assert(pg == (c.g as i64) * 65536);
                    assert(pb == (c.b as i64) * 65536);
                    assert(c == rgb_at(orig, p as int));
                    assert(p < count);
                    assert(orig.len() / 4 == count as int);
                    assert(palette_has(palette@, rgb_at(orig, p as int)));
                    let j = choose|j: int| 0 <= j < palette@.len() && palette@[j] == c;
                    assert(palette@[j] == c);
                    assert(spec_scaled_dist(c, pr as int, pg as int, pb as int) == 0) by {
                        assert(pr as int - c.r as int * 65536 == 0);
                        assert(pg as int - c.g as int * 65536 == 0);
                        assert(pb as int - c.b as int * 65536 == 0);
                        assert((0int) * (0int) == 0) by (nonlinear_arith);
                        assert((0int) / 1024 == 0);
                    }
                    lemma_scaled_scan_is_min(
                        palette@,
                        pr as int,
                        pg as int,
                        pb as int,
                        palette@.len() as int,
                    );
                    lemma_scaled_dist_nonneg(
                        palette@[best as int],
                        pr as int,
                        pg as int,
                        pb as int,
                    );
                    lemma_scaled_zero_dist(palette@[best as int], c);
                    assert(chosen == c);
                }
            }
            let ghost before_set = pixels@;
            set_pixel_rgb(pixels, p, chosen);
            proof {
                assert(palette_has(palette@, rgb_at(pixels@, p as int)));
                assert(rgb_at(pixels@, p as int) == spec_diffused_pixel(
                    orig,
                    width as int,
                    palette@,
                    model,
                    p as int,
                ));
                if allpal {
                    assert forall|i: int| 0 <= i < orig.len() implies pixels@[i] == orig[i] by {
                        let q = i / 4;
                        let k = i % 4;
                        vstd::arithmetic::div_mod::lemma_fundamental_div_mod(i, 4);
                        if q == p as int {
                            assert(rgb_at(pixels@, q) == chosen);
                            assert(chosen == rgb_at(orig, q));
                            assert(alpha_at(pixels@, q) == alpha_at(orig, q));
                        } else {
                            assert(rgb_at(pixels@, q) == rgb_at(before_set, q));
                            assert(alpha_at(pixels@, q) == alpha_at(before_set, q));
                        }
                        if k == 0 {
                            assert(pixels@[4 * q] == orig[4 * q]);
                        } else if k == 1 {
                            assert(pixels@[4 * q + 1] == orig[4 * q + 1]);
                        } else if k == 2 {
                            assert(pixels@[4 * q + 2] == orig[4 * q + 2]);
                        } else {
                            assert(pixels@[4 * q + 3] == orig[4 * q + 3]);
                        }
                    }
                    assert(pixels@ =~= orig);
                }
            }
            let err_r: i64 = pr - (chosen.r as i64) * 65536;
            let err_g: i64 = pg - (chosen.g as i64) * 65536;
            let err_b: i64 = pb - (chosen.b as i64) * 65536;
            proof {
                if allpal {
                    assert(err_r == 0 && err_g == 0 && err_b == 0);
                }
            }
            if err_r != 0 || err_g != 0 || err_b != 0 {
                let mut e: usize = 0;
                while e < entries.len()
                    invariant
                        e <= entries@.len(),
                        1 <= den <= 48,
                        entries@ == model.spec_entries(),
                        den as int == model.spec_den(),
                        num_rows as int == model.spec_rows(),
                        forall|i: int|
                            0 <= i < entries@.len() ==> {
                                let en = #[trigger] entries@[i];
                                &&& -2 <= en.dx <= 2
                                &&& 0 <= en.dy <= 2
                                &&& 1 <= en.num <= 8
                            },
                        2 <= num_rows <= 3,
                        stride == (width + offset * 2) * 3,
                        stride + 12 <= usize::MAX,
                        base + 3 <= stride,
                        -0xFF_0000 <= err_r <= 0xFF_0000,
                        -0xFF_0000 <= err_g <= 0xFF_0000,
                        -0xFF_0000 <= err_b <= 0xFF_0000,
                        rows_wf(rows@, num_rows as int, stride as int),
                        rows_ints(rows@) == spec_apply_entries(
                            pre_pixel,
                            stride as int,
                            num_rows as int,
                            base as int,
                            entries@,
                            den as int,
                            err_r as int,
                            err_g as int,
                            err_b as int,
                            e as int,
                        ),
                    decreases entries@.len() - e,
                {
                    let en = entries[e];
                    assert(-2 <= en.dx <= 2 && en.num >= 1);
                    let dxo: usize = (en.dx + 2) as usize;
                    assert(dxo <= 4);
                    let tgt: usize = base + dxo * 3;
                    let ghost pre_entry = rows_ints(rows@);
                    proof {
                        assert(tgt as int == base as int + (en.dx as int + 2) * 3);
                    }
                    if tgt >= 6 && tgt - 6 + 3 <= stride && en.dy < num_rows {
                        let nx: usize = tgt - 6;
                        spread_err(&mut rows, en.dy, nx, err_r, err_g, err_b, en.num, den);
                        proof {
                            assert(rows_wf(rows@, num_rows as int, stride as int));
                            let target = spec_apply_entry(
                                pre_entry,
                                stride as int,
                                num_rows as int,
                                base as int,
                                en,
                                den as int,
                                err_r as int,
                                err_g as int,
                                err_b as int,
                            );
                            assert forall|r2: int|
                                0 <= r2 < rows_ints(rows@).len() implies rows_ints(rows@)[r2] =~= (
                            target[r2]) by {
                                assert forall|k2: int|
                                    0 <= k2 < stride implies rows_ints(rows@)[r2][k2] == (
                                target[r2][k2]) by {
                                    if r2 == en.dy as int && k2 == nx as int {
                                    } else if r2 == en.dy as int && k2 == nx as int + 1 {
                                    } else if r2 == en.dy as int && k2 == nx as int + 2 {
                                    } else {
                                        assert(rows@[r2]@[k2] == old_cell_of(pre_entry, r2, k2));
                                    }
                                }
                            }
                            assert(rows_ints(rows@) =~= target);
                        }
                    } else {
                        proof {
                            assert(rows_ints(rows@) == spec_apply_entry(
                                pre_entry,
                                stride as int,
                                num_rows as int,
                                base as int,
                                en,
                                den as int,
                                err_r as int,
                                err_g as int,
                                err_b as int,
                            ));
                        }
                    }
                    e = e + 1;
                }
            }
            proof {
                // The ring now matches the pixel step of the recurrence.
                assert(rows_ints(rows@) == spec_pixel_step(
                    pre_pixel,
                    palette@,
                    model,
                    stride as int,
                    base as int,
                    c,
                ));
                assert(rows_ints(rows@) == spec_rows_mid(
                    orig,
                    width as int,
                    palette@,
                    model,
                    (p + 1) as int,
                ));
                if x + 1 < width {
                    assert(((p + 1) as int) % (width as int) == x as int + 1) by {
                        vstd::arithmetic::div_mod::lemma_fundamental_div_mod_converse(
                            p as int + 1,
                            width as int,
                            y as int,
                            x as int + 1,
                        );
                    }
                }
            }
            x = x + 1;
        }
        // Rotate the ring: the finished row is cleared and reused.
        let ghost pre_rot = rows_ints(rows@);
        let mut first = rows.remove(0);
        let mut k: usize = 0;
        while k < first.len()
            invariant
                first@.len() == stride,
                k <= stride,
                forall|j: int| 0 <= j < k ==> #[trigger] first@[j] == 0,
                forall|j: int|
                    k <= j < stride ==> -0x100_0000_0000 <= #[trigger] first@[j]
                        <= 0x100_0000_0000,
            decreases stride - k,
        {
            first.set(k, 0);
            k = k + 1;
        }
        rows.push(first);
        proof {
            let target = spec_rotate_rows(pre_rot, stride as int);
            assert forall|r2: int|
                0 <= r2 < rows_ints(rows@).len() implies rows_ints(rows@)[r2] =~= (target[r2]) by {
                assert forall|k2: int|
                    0 <= k2 < stride implies rows_ints(rows@)[r2][k2] == (target[r2][k2]) by {
                    if r2 < num_rows as int - 1 {
                        assert(rows@[r2]@[k2] == old_cell_of(pre_rot, r2 + 1, k2));
                    } else {
                        assert(rows@[r2] == first);
                        assert(first@[k2] == 0);
                    }
                }
            }
            assert(rows_ints(rows@) =~= target);
            assert(((y + 1) * width) as int % (width as int) == 0) by {
                vstd::arithmetic::div_mod::lemma_mod_multiples_basic(
                    y as int + 1,
                    width as int,
                );
            }
            assert(rows_ints(rows@) == spec_rows_before(
                orig,
                width as int,
                palette@,
                model,
                ((y + 1) * width) as int,
            ));
            if allpal {
                assert forall|r2: int, k2: int|
                    0 <= r2 < rows@.len() && 0 <= k2 < rows@[r2]@.len() implies #[trigger] rows@[r2]@[k2]
                    == 0 by {
                    if r2 == rows@.len() - 1 {
                        assert(rows@[r2] == first);
                    }
                }
                assert(rows_zero(rows@));
            }
        }
        y = y + 1;
        proof {
            assert(forall|q: int|
                0 <= q < y * width ==> #[trigger] palette_has(palette@, rgb_at(pixels@, q)));
        }
    }
    proof {
        assert(height * width == width * height) by (nonlinear_arith);
    }
}

/// Clamp a corrected fixed-point channel into the byte range.
fn clamp_scaled(v: i64) -> (r: i64)
    requires
        -0x200_0000_0000 <= v <= 0x200_0000_0000,
    ensures
        r as int == spec_clamp_chan(v as int),
        0 <= r <= 255 * 65536,
{
    if v < 0 {
        0
    } else if v > 255 * 65536 {
        255 * 65536
    } else {
        v
    }
}

} // verus!
