//! Color arithmetic shared by the pipeline stages.
//!
//! All distances and lumas are exact integers: a luma is kept in
//! thousandths (the 0.299 / 0.587 / 0.114 weights scaled by 1000), and
//! the luma-weighted squared distance is likewise scaled by 1000.

use vstd::prelude::*;

verus! {

/// One RGB triple of a palette or of a pixel.
#[derive(Clone, Copy, Debug, PartialEq, Eq, Structural)]
pub struct Rgb {
    pub r: u8,
    pub g: u8,
    pub b: u8,
}

/// Luma of a color, scaled by 1000: `299*r + 587*g + 114*b`.
pub open spec fn spec_luma_milli(c: Rgb) -> int {
    299 * c.r as int + 587 * c.g as int + 114 * c.b as int
}

/// Luma in thousandths, at most `255_000`.
pub fn luma_milli(c: Rgb) -> (l: u32)
    ensures
        l as int == spec_luma_milli(c),
        l <= 255_000,
{
    299 * c.r as u32 + 587 * c.g as u32 + 114 * c.b as u32
}

/// Unweighted squared RGB distance.
pub open spec fn spec_sq_dist(a: Rgb, b: Rgb) -> int {
    let dr = a.r as int - b.r as int;
    let dg = a.g as int - b.g as int;
    let db = a.b as int - b.b as int;
    dr * dr + dg * dg + db * db
}

/// Unweighted squared RGB distance, at most `3 * 255 * 255`.
pub fn sq_dist(a: Rgb, b: Rgb) -> (d: u32)
    ensures
        d as int == spec_sq_dist(a, b),
        d <= 195_075,
{
    let dr: i32 = a.r as i32 - b.r as i32;
    let dg: i32 = a.g as i32 - b.g as i32;
    let db: i32 = a.b as i32 - b.b as i32;
    proof {
        lemma_sq_le_65025(dr as int);
        lemma_sq_le_65025(dg as int);
        lemma_sq_le_65025(db as int);
    }
    (dr * dr + dg * dg + db * db) as u32
}

/// Luma-weighted squared distance, scaled by 1000:
/// `299*dr^2 + 587*dg^2 + 114*db^2`.
pub open spec fn spec_wdist_milli(a: Rgb, b: Rgb) -> int {
    let dr = a.r as int - b.r as int;
    let dg = a.g as int - b.g as int;
    let db = a.b as int - b.b as int;
    299 * (dr * dr) + 587 * (dg * dg) + 114 * (db * db)
}

/// Luma-weighted squared distance in thousandths, at most `65_025_000`.
pub fn wdist_milli(a: Rgb, b: Rgb) -> (d: u32)
    ensures
        d as int == spec_wdist_milli(a, b),
        d <= 65_025_000,
{
    let dr: i32 = a.r as i32 - b.r as i32;
    let dg: i32 = a.g as i32 - b.g as i32;
    let db: i32 = a.b as i32 - b.b as i32;
    proof {
        lemma_sq_le_65025(dr as int);
        lemma_sq_le_65025(dg as int);
        lemma_sq_le_65025(db as int);
    }
    (299 * (dr * dr) + 587 * (dg * dg) + 114 * (db * db)) as u32
}

/// A luma-weighted squared distance lies between 0 and `65_025_000`.
pub proof fn lemma_wdist_bound(a: Rgb, b: Rgb)
    ensures
        0 <= spec_wdist_milli(a, b) <= 65_025_000,
{
    lemma_sq_le_65025(a.r as int - b.r as int);
    lemma_sq_le_65025(a.g as int - b.g as int);
    lemma_sq_le_65025(a.b as int - b.b as int);
}

/// The square of a channel delta is at most `255 * 255`.
proof fn lemma_sq_le_65025(d: int)
    requires
        -255 <= d <= 255,
    ensures
        0 <= d * d <= 65025,
{
    assert(0 <= d * d <= 65025) by (nonlinear_arith)
        requires
            -255 <= d <= 255,
    ;
}

} // verus!
