//! Trusted wrappers around the image crate: resampling and PNG
//! encoding. Each result is a pure function of its arguments and is
//! given a name; the geometry each call is documented to guarantee is
//! stated, and nothing more.

use vstd::prelude::*;
use crate::raster::RasterImage;

verus! {

/// Pixels of the aspect-preserving triangle-filter resize of a raster
/// into a bounding box ("contain").
pub uninterp spec fn triangle_contain_scaled(
    w: int,
    h: int,
    pixels: Seq<u8>,
    bw: int,
    bh: int,
) -> Seq<u8>;

/// Pixels of the aspect-preserving triangle-filter resize that fills a
/// box exactly, cropping the overflowing axis ("cover").
pub uninterp spec fn triangle_fill_scaled(
    w: int,
    h: int,
    pixels: Seq<u8>,
    bw: int,
    bh: int,
) -> Seq<u8>;

/// Pixels of the triangle-filter resize to exact dimensions.
pub uninterp spec fn triangle_exact_scaled(
    w: int,
    h: int,
    pixels: Seq<u8>,
    nw: int,
    nh: int,
) -> Seq<u8>;

/// The PNG stream encoding an RGBA raster.
pub uninterp spec fn png_encoded(w: int, h: int, pixels: Seq<u8>) -> Seq<u8>;

/// Whether the PNG encoder succeeds on an RGBA raster; like the stream
/// itself, a pure function of the dimensions and pixels.
pub uninterp spec fn png_ok(w: int, h: int, pixels: Seq<u8>) -> bool;

/// The error type of the image crate, carried through and mapped to the
/// library's own error by the encoder.
#[verifier::external_type_specification]
#[verifier::external_body]
pub struct ExImageError(image::ImageError);

/// Relies on image's `DynamicImage::resize` with the triangle filter:
/// the result preserves aspect ratio at the largest size that fits the
/// bounds, so it matches the bound on one axis and stays within it on
/// the other (`resize_dimensions` rounds the free axis and clamps it to
/// at least one pixel).
#[verifier::external_body]
pub fn resize_contain(img: &RasterImage, bw: u32, bh: u32) -> (r: RasterImage)
    requires
        img.wf(),
        img.width >= 1,
        img.height >= 1,
        bw >= 1,
        bh >= 1,
    ensures
        r.wf(),
        1 <= r.width <= bw,
        1 <= r.height <= bh,
        r.width == bw || r.height == bh,
        r.pixels@ == triangle_contain_scaled(
            img.width as int,
            img.height as int,
            img.pixels@,
            bw as int,
            bh as int,
        ),
{
    let buf = image::RgbaImage::from_raw(img.width, img.height, img.pixels.clone()).unwrap();
    let out = image::DynamicImage::ImageRgba8(buf).resize(
        bw,
        bh,
        image::imageops::FilterType::Triangle,
    );
    let w = out.width();
    let h = out.height();
    RasterImage { width: w, height: h, pixels: out.into_rgba8().into_raw() }
}

/// Relies on image's `DynamicImage::resize_to_fill` with the triangle
/// filter: the result is scaled to cover the box and cropped centrally
/// to exactly the box dimensions.
#[verifier::external_body]
pub fn resize_to_fill(img: &RasterImage, bw: u32, bh: u32) -> (r: RasterImage)
    requires
        img.wf(),
        img.width >= 1,
        img.height >= 1,
        bw >= 1,
        bh >= 1,
    ensures
        r.wf(),
        r.width == bw,
        r.height == bh,
        r.pixels@ == triangle_fill_scaled(
            img.width as int,
            img.height as int,
            img.pixels@,
            bw as int,
            bh as int,
        ),
{
    let buf = image::RgbaImage::from_raw(img.width, img.height, img.pixels.clone()).unwrap();
    let out = image::DynamicImage::ImageRgba8(buf).resize_to_fill(
        bw,
        bh,
        image::imageops::FilterType::Triangle,
    );
    let w = out.width();
    let h = out.height();
    RasterImage { width: w, height: h, pixels: out.into_rgba8().into_raw() }
}

/// Relies on image's `DynamicImage::resize_exact` with the triangle
/// filter: the result has exactly the requested dimensions.
#[verifier::external_body]
pub fn resize_exact(img: &RasterImage, nw: u32, nh: u32) -> (r: RasterImage)
    requires
        img.wf(),
        img.width >= 1,
        img.height >= 1,
    ensures
        r.wf(),
        r.width == nw,
        r.height == nh,
        r.pixels@ == triangle_exact_scaled(
            img.width as int,
            img.height as int,
            img.pixels@,
            nw as int,
            nh as int,
        ),
{
    let buf = image::RgbaImage::from_raw(img.width, img.height, img.pixels.clone()).unwrap();
    let out = image::DynamicImage::ImageRgba8(buf).resize_exact(
        nw,
        nh,
        image::imageops::FilterType::Triangle,
    );
    RasterImage { width: nw, height: nh, pixels: out.into_rgba8().into_raw() }
}

/// Relies on image's PNG encoder via `DynamicImage::write_to`: whether
/// it succeeds, and on success the bytes it produces, are pure
/// functions of the dimensions and pixel data.
#[verifier::external_body]
pub fn png_encode(img: &RasterImage) -> (r: Result<Vec<u8>, image::ImageError>)
    requires
        img.wf(),
    ensures
        r is Ok <==> png_ok(img.width as int, img.height as int, img.pixels@),
        r matches Ok(b) ==> b@ == png_encoded(img.width as int, img.height as int, img.pixels@),
{
    let buf = image::RgbaImage::from_raw(img.width, img.height, img.pixels.clone()).unwrap();
    let mut bytes: Vec<u8> = Vec::new();
    let res = image::DynamicImage::ImageRgba8(buf).write_to(
        &mut std::io::Cursor::new(&mut bytes),
        image::ImageFormat::Png,
    );
    match res {
        Ok(()) => Ok(bytes),
        Err(e) => Err(e),
    }
}

} // verus!
