//! In-place dithering and palette reduction of an RGBA buffer: the
//! algorithm is chosen by name (case- and separator-insensitive); an
//! absent or unrecognized name falls back to the plain nearest mapping.
//!
//! Whatever the algorithm, every output pixel's RGB triple is an exact
//! member of the palette and its alpha byte is untouched; an empty
//! palette or an empty buffer leaves the buffer byte-for-byte unchanged.

use vstd::prelude::*;
use vstd::string::StrSliceExecFns;
use crate::color::Rgb;
use crate::diffusion::{diffuse_dither_luma_mode, DiffusionModel};
use crate::ordered::{ordered_bayer_luma, ordered_blue_luma_256, ordered_stark_luma,
    spec_ordered_bayer_pixel, spec_ordered_blue_pixel, spec_stark_pixel, BlueNoiseMask,
    OrderedMatrix};
use crate::quant::{naive_quantize, palette_has, palette_mapped, rgb_at, spec_naive_pixel};
use crate::yliluoma::{ordered_yliluoma1_luma, ordered_yliluoma2_luma, spec_yliluoma1_pixel,
    spec_yliluoma2_pixel};

verus! {

/// Character code under the name normalization: ASCII upper case maps
/// to lower case and a hyphen maps to an underscore.
pub open spec fn norm_code(c: char) -> int {
    let v = c as int;
    if 65 <= v <= 90 {
        v + 32
    } else if v == 45 {
        95
    } else {
        v
    }
}

/// The two names are equal up to ASCII case and hyphen/underscore.
pub open spec fn spec_name_matches(s: Seq<char>, t: Seq<char>) -> bool {
    s.len() == t.len() && forall|i: int| 0 <= i < s.len() ==> norm_code(s[i]) == norm_code(
        #[trigger] t[i],
    )
}

/// Normalized code of one character.
fn norm_char(c: char) -> (v: u32)
    ensures
        v as int == norm_code(c),
{
    let x = c as u32;
    if 65 <= x && x <= 90 {
        x + 32
    } else if x == 45 {
        95
    } else {
        x
    }
}

/// Case- and separator-insensitive name comparison.
fn name_matches(s: &str, t: &str) -> (r: bool)
    ensures
        r == spec_name_matches(s@, t@),
{
    let sl = s.unicode_len();
    let tl = t.unicode_len();
    if sl != tl {
        return false;
    }
    let mut i: usize = 0;
    while i < sl
        invariant
            sl == s@.len(),
            tl == t@.len(),
            sl == tl,
            i <= sl,
            forall|j: int| 0 <= j < i ==> norm_code(s@[j]) == norm_code(#[trigger] t@[j]),
        decreases sl - i,
    {
        let a = norm_char(s.get_char(i));
        let b = norm_char(t.get_char(i));
        if a != b {
            return false;
        }
        i = i + 1;
    }
    true
}

/// The error-diffusion kernel an algorithm name selects, if any.
pub open spec fn spec_resolve_model(s: Seq<char>) -> Option<DiffusionModel> {
    if spec_name_matches(s, "floyd_steinberg"@) || spec_name_matches(s, "fs"@) {
        Some(DiffusionModel::FloydSteinberg)
    } else if spec_name_matches(s, "jarvis_judice_ninke"@) {
        Some(DiffusionModel::JarvisJudiceNinke)
    } else if spec_name_matches(s, "stucki"@) {
        Some(DiffusionModel::Stucki)
    } else if spec_name_matches(s, "burkes"@) {
        Some(DiffusionModel::Burkes)
    } else if spec_name_matches(s, "sierra_3"@) {
        Some(DiffusionModel::Sierra3)
    } else if spec_name_matches(s, "sierra_2"@) {
        Some(DiffusionModel::Sierra2)
    } else if spec_name_matches(s, "sierra_1"@) || spec_name_matches(s, "sierra_lite"@) {
        Some(DiffusionModel::Sierra1)
    } else if spec_name_matches(s, "atkinson"@) {
        Some(DiffusionModel::Atkinson)
    } else if spec_name_matches(s, "reduced_atkinson"@) {
        Some(DiffusionModel::ReducedAtkinson)
    } else {
        None
    }
}

/// Resolve an error-diffusion kernel name ("sierra lite" is another
/// name of the smallest Sierra kernel).
fn resolve_model(name: &str) -> (r: Option<DiffusionModel>)
    ensures
        r == spec_resolve_model(name@),
{
    if name_matches(name, "floyd_steinberg") || name_matches(name, "fs") {
        Some(DiffusionModel::FloydSteinberg)
    } else if name_matches(name, "jarvis_judice_ninke") {
        Some(DiffusionModel::JarvisJudiceNinke)
    } else if name_matches(name, "stucki") {
        Some(DiffusionModel::Stucki)
    } else if name_matches(name, "burkes") {
        Some(DiffusionModel::Burkes)
    } else if name_matches(name, "sierra_3") {
        Some(DiffusionModel::Sierra3)
    } else if name_matches(name, "sierra_2") {
        Some(DiffusionModel::Sierra2)
    } else if name_matches(name, "sierra_1") || name_matches(name, "sierra_lite") {
        Some(DiffusionModel::Sierra1)
    } else if name_matches(name, "atkinson") {
        Some(DiffusionModel::Atkinson)
    } else if name_matches(name, "reduced_atkinson") {
        Some(DiffusionModel::ReducedAtkinson)
    } else {
        None
    }
}

/// The ordered (matrix) algorithms, each with its matrix dimension.
#[derive(Clone, Copy, Debug, PartialEq, Eq, Structural)]
pub enum OrderedKind {
    Bayer(OrderedMatrix),
    BlueNoise256,
    Stark(usize),
    Yliluoma1(usize),
    Yliluoma2(usize),
}

/// The ordered algorithm an algorithm name selects, if any.
pub open spec fn spec_resolve_ordered(s: Seq<char>) -> Option<OrderedKind> {
    if spec_name_matches(s, "ordered_bayer_2"@) || spec_name_matches(s, "bayer_2"@) {
        Some(OrderedKind::Bayer(OrderedMatrix::Bayer2))
    } else if spec_name_matches(s, "ordered_bayer_4"@) || spec_name_matches(s, "bayer_4"@) {
        Some(OrderedKind::Bayer(OrderedMatrix::Bayer4))
    } else if spec_name_matches(s, "ordered_bayer_8"@) || spec_name_matches(s, "bayer_8"@) {
        Some(OrderedKind::Bayer(OrderedMatrix::Bayer8))
    } else if spec_name_matches(s, "ordered_blue_256"@) || spec_name_matches(s, "blue_256"@)
        || spec_name_matches(s, "blue_noise_256"@) {
        Some(OrderedKind::BlueNoise256)
    } else if spec_name_matches(s, "stark"@) || spec_name_matches(s, "stark_8"@) {
        Some(OrderedKind::Stark(8))
    } else if spec_name_matches(s, "yliluoma1"@) || spec_name_matches(s, "yliluoma1_8"@) {
        Some(OrderedKind::Yliluoma1(8))
    } else if spec_name_matches(s, "yliluoma2"@) || spec_name_matches(s, "yliluoma2_8"@) {
        Some(OrderedKind::Yliluoma2(8))
    } else {
        None
    }
}

/// Resolve an ordered algorithm name.
pub fn resolve_ordered_algorithm(name: &str) -> (r: Option<OrderedKind>)
    ensures
        r == spec_resolve_ordered(name@),
{
    if name_matches(name, "ordered_bayer_2") || name_matches(name, "bayer_2") {
        Some(OrderedKind::Bayer(OrderedMatrix::Bayer2))
    } else if name_matches(name, "ordered_bayer_4") || name_matches(name, "bayer_4") {
        Some(OrderedKind::Bayer(OrderedMatrix::Bayer4))
    } else if name_matches(name, "ordered_bayer_8") || name_matches(name, "bayer_8") {
        Some(OrderedKind::Bayer(OrderedMatrix::Bayer8))
    } else if name_matches(name, "ordered_blue_256") || name_matches(name, "blue_256")
        || name_matches(name, "blue_noise_256") {
        Some(OrderedKind::BlueNoise256)
    } else if name_matches(name, "stark") || name_matches(name, "stark_8") {
        Some(OrderedKind::Stark(8))
    } else if name_matches(name, "yliluoma1") || name_matches(name, "yliluoma1_8") {
        Some(OrderedKind::Yliluoma1(8))
    } else if name_matches(name, "yliluoma2") || name_matches(name, "yliluoma2_8") {
        Some(OrderedKind::Yliluoma2(8))
    } else {
        None
    }
}

/// The algorithm name as a character sequence; an absent name is empty.
pub open spec fn spec_algo_name(algorithm: Option<&str>) -> Seq<char> {
    match algorithm {
        Some(a) => a@,
        None => Seq::empty(),
    }
}

/// Perform in-place dithering and palette reduction on an RGBA buffer.
///
/// The buffer holds `width * height` RGBA8 pixels. The palette is a
/// list of RGB triples; alpha is always taken from the source pixel.
/// The algorithm name is matched up to ASCII case and hyphens versus
/// underscores; an absent or unrecognized name performs the plain
/// nearest (luma) palette mapping without diffusion. The blue-noise
/// ordered algorithm reads the injected threshold mask and falls back
/// to the nearest mapping without one.
///
/// With a non-empty palette and buffer, every output pixel's RGB triple
/// is an exact palette member and its alpha is unchanged; an empty
/// palette or buffer is a no-op, byte for byte.
pub fn dither_image(
    pixels: &mut Vec<u8>,
    width: u32,
    height: u32,
    palette: &Vec<Rgb>,
    algorithm: Option<&str>,
    blue_mask: Option<&BlueNoiseMask>,
)
    requires
        old(pixels)@.len() == width as int * height as int * 4,
        blue_mask matches Some(m) ==> m.wf(),
    ensures
        final(pixels)@.len() == old(pixels)@.len(),
        palette@.len() == 0 || old(pixels)@.len() == 0 ==> final(pixels)@ == old(pixels)@,
        palette@.len() >= 1 ==> palette_mapped(old(pixels)@, final(pixels)@, palette@),
        palette@.len() >= 1 && spec_resolve_model(spec_algo_name(algorithm)) is None
            && spec_resolve_ordered(spec_algo_name(algorithm)) is None ==> forall|p: int|
            0 <= p < old(pixels)@.len() / 4 ==> rgb_at(final(pixels)@, p) == spec_naive_pixel(
                palette@,
                #[trigger] rgb_at(old(pixels)@, p),
            ),
        palette@.len() >= 1 && spec_resolve_model(spec_algo_name(algorithm)) is Some && (forall|
            p: int,
        |
            0 <= p < old(pixels)@.len() / 4 ==> palette_has(
                palette@,
                #[trigger] rgb_at(old(pixels)@, p),
            )) ==> final(pixels)@ == old(pixels)@,
        palette@.len() >= 1 ==> (spec_resolve_model(spec_algo_name(algorithm)) matches Some(m)
            ==> forall|p: int|
            0 <= p < width as int * height as int ==> #[trigger] rgb_at(final(pixels)@, p)
                == crate::diffusion::spec_diffused_pixel(
                old(pixels)@,
                width as int,
                palette@,
                m,
                p,
            )),
        palette@.len() >= 1 && spec_resolve_model(spec_algo_name(algorithm)) is None ==> (
        spec_resolve_ordered(spec_algo_name(algorithm)) matches Some(
            OrderedKind::Bayer(m),
        ) ==> forall|p: int|
            0 <= p < width as int * height as int ==> rgb_at(final(pixels)@, p)
                == spec_ordered_bayer_pixel(
                palette@,
                m,
                p % width as int,
                p / width as int,
                #[trigger] rgb_at(old(pixels)@, p),
            )),
        palette@.len() >= 1 && spec_resolve_model(spec_algo_name(algorithm)) is None
            && spec_resolve_ordered(spec_algo_name(algorithm)) == Some(OrderedKind::BlueNoise256)
            && blue_mask is None ==> forall|p: int|
            0 <= p < old(pixels)@.len() / 4 ==> rgb_at(final(pixels)@, p) == spec_naive_pixel(
                palette@,
                #[trigger] rgb_at(old(pixels)@, p),
            ),
        palette@.len() >= 1 && spec_resolve_model(spec_algo_name(algorithm)) is None
            && spec_resolve_ordered(spec_algo_name(algorithm)) == Some(OrderedKind::BlueNoise256)
            && (blue_mask matches Some(mask)) ==> forall|p: int|
            0 <= p < width as int * height as int ==> rgb_at(final(pixels)@, p)
                == spec_ordered_blue_pixel(
                palette@,
                (match blue_mask {
                    Some(mask) => mask.width as int,
                    None => 0,
                }),
                (match blue_mask {
                    Some(mask) => mask.height as int,
                    None => 0,
                }),
                (match blue_mask {
                    Some(mask) => mask.data@,
                    None => Seq::empty(),
                }),
                p % width as int,
                p / width as int,
                #[trigger] rgb_at(old(pixels)@, p),
            ),
        palette@.len() >= 1 && spec_resolve_model(spec_algo_name(algorithm)) is None ==> (
        spec_resolve_ordered(spec_algo_name(algorithm)) matches Some(
            OrderedKind::Stark(d),
        ) ==> forall|p: int|
            0 <= p < width as int * height as int ==> rgb_at(final(pixels)@, p) == spec_stark_pixel(
                palette@,
                d as int,
                p % width as int,
                p / width as int,
                #[trigger] rgb_at(old(pixels)@, p),
            )),
        palette@.len() >= 1 && spec_resolve_model(spec_algo_name(algorithm)) is None ==> (
        spec_resolve_ordered(spec_algo_name(algorithm)) matches Some(
            OrderedKind::Yliluoma1(d),
        ) ==> forall|p: int|
            0 <= p < width as int * height as int ==> rgb_at(final(pixels)@, p)
                == spec_yliluoma1_pixel(
                palette@,
                d as int,
                p % width as int,
                p / width as int,
                #[trigger] rgb_at(old(pixels)@, p),
            )),
        palette@.len() >= 1 && spec_resolve_model(spec_algo_name(algorithm)) is None ==> (
        spec_resolve_ordered(spec_algo_name(algorithm)) matches Some(
            OrderedKind::Yliluoma2(d),
        ) ==> forall|p: int|
            0 <= p < width as int * height as int ==> #[trigger] rgb_at(final(pixels)@, p)
                == spec_yliluoma2_pixel(
                palette@,
                d as int,
                p % width as int,
                p / width as int,
                rgb_at(old(pixels)@, p),
            )),
{
    if palette.len() == 0 || pixels.len() == 0 {
        return ;
    }
    let algo: &str = match algorithm {
        Some(a) => a,
        None => "",
    };
    proof {
        reveal_strlit("");
        assert(""@ =~= Seq::<char>::empty());
        assert(algo@ == spec_algo_name(algorithm));
    }
    let w: usize = width as usize;
    let h: usize = height as usize;
    if let Some(model) = resolve_model(algo) {
        diffuse_dither_luma_mode(pixels, w, h, palette, model);
        return ;
    }
    if let Some(kind) = resolve_ordered_algorithm(algo) {
        match kind {
            OrderedKind::Bayer(m) => ordered_bayer_luma(pixels, w, h, palette, m),
            OrderedKind::BlueNoise256 => {
                match blue_mask {
                    Some(mask) => ordered_blue_luma_256(pixels, w, h, palette, mask),
                    None => naive_quantize(pixels, palette),
                }
            },
            OrderedKind::Stark(dim) => ordered_stark_luma(pixels, w, h, palette, dim),
            OrderedKind::Yliluoma1(dim) => ordered_yliluoma1_luma(pixels, w, h, palette, dim),
            OrderedKind::Yliluoma2(dim) => ordered_yliluoma2_luma(pixels, w, h, palette, dim),
        }
        return ;
    }
    naive_quantize(pixels, palette);
}

} // verus!
