use photoframe_core::adjust::apply_adjustments_fast;
use photoframe_core::encode::EncodeError;
use photoframe_core::pipeline::{raster_from_prepared, PreparedFrameImage};
use photoframe_core::color::Rgb;
use photoframe_core::config::{Adjustments, Orientation, OutputFormat, PhotoFrame, ScalingMode};
use photoframe_core::dither::dither_image;
use photoframe_core::encode::{encode_frame, EncodedFrame};
use photoframe_core::pipeline::{compose_and_adjust, derive_palette};
use photoframe_core::raster::{rotate270, rotate90, RasterImage};

fn rgb(r: u8, g: u8, b: u8) -> Rgb {
    Rgb { r, g, b }
}

fn frame_with_panel(w: u32, h: u32, scaling: ScalingMode) -> PhotoFrame {
    PhotoFrame {
        orientation: Some(Orientation::Landscape),
        scaling: Some(scaling),
        upload_endpoint: None,
        panel_width: Some(w),
        panel_height: Some(h),
        flip: None,
        output_format: Some(OutputFormat::Packed4bpp),
        upload_transport: None,
        source_ids: Vec::new(),
        dithering: Some(String::from("ordered_bayer_4")),
        supported_colors: Vec::new(),
        overscan: None,
        adjustments: None,
        timestamp: None,
        swap_nibbles: Some(false),
        reverse_rows: None,
        reverse_cols: None,
        dummy: false,
        paused: false,
    }
}

fn raster(w: u32, h: u32, f: impl Fn(u32, u32) -> [u8; 4]) -> RasterImage {
    let mut pixels = Vec::with_capacity((w * h * 4) as usize);
    for y in 0..h {
        for x in 0..w {
            let p = f(x, y);
            pixels.extend_from_slice(&p);
        }
    }
    RasterImage { width: w, height: h, pixels }
}

#[test]
fn rotation_round_trip_restores_the_image() {
    // A non-symmetric 3x2 pattern.
    let img = raster(3, 2, |x, y| [(x * 40) as u8, (y * 90) as u8, (x + y) as u8, 255]);
    let once = rotate90(&img);
    assert_eq!((once.width, once.height), (2, 3));
    let back = rotate270(&once);
    assert_eq!((back.width, back.height), (3, 2));
    assert_eq!(back.pixels, img.pixels);
}

#[test]
fn adjustments_neutrality_leaves_pixels_unchanged() {
    let mut img = raster(5, 3, |x, y| [(x * 31) as u8, (y * 57) as u8, 200, (x * y) as u8]);
    let before = img.pixels.clone();
    let adj = Adjustments { brightness: 0, contrast: 0, saturation: 0, sharpness: 0 };
    apply_adjustments_fast(&mut img, &adj);
    assert_eq!(img.pixels, before);
}

#[test]
fn brightness_adds_its_offset_exactly() {
    // Ten device units of brightness lift every channel by ten.
    let mut img = raster(1, 1, |_, _| [100, 50, 0, 255]);
    let adj = Adjustments { brightness: 10_000, contrast: 0, saturation: 0, sharpness: 0 };
    apply_adjustments_fast(&mut img, &adj);
    assert_eq!(&img.pixels[..], &[110, 60, 10, 255]);
}

#[test]
fn packed_output_is_half_a_byte_per_pixel() {
    // 4x2 panel, two colors: eight pixels pack into four bytes.
    let img = raster(4, 2, |x, _| {
        if x % 2 == 0 {
            [0, 0, 0, 255]
        } else {
            [255, 255, 255, 255]
        }
    });
    let palette = vec![rgb(0, 0, 0), rgb(255, 255, 255)];
    let f = encode_frame(
        &img,
        Some(4),
        Some(2),
        false,
        OutputFormat::Packed4bpp,
        &palette,
        false,
        false,
        false,
    )
    .unwrap();
    assert_eq!(f.bytes.len(), 4);
    // Black maps to device nibble 0x0 and white to 0x1.
    assert_eq!(f.bytes, vec![0x01, 0x01, 0x01, 0x01]);
}

#[test]
fn packed_odd_width_flushes_a_half_byte() {
    let img = raster(3, 1, |x, _| {
        if x == 1 {
            [255, 255, 255, 255]
        } else {
            [0, 0, 0, 255]
        }
    });
    let palette = vec![rgb(0, 0, 0), rgb(255, 255, 255)];
    let f = encode_frame(
        &img,
        Some(3),
        Some(1),
        false,
        OutputFormat::Packed4bpp,
        &palette,
        false,
        false,
        false,
    )
    .unwrap();
    // ceil(3/2) bytes per row: the pair 0x0,0x1 then the flushed 0x0.
    assert_eq!(f.bytes, vec![0x01, 0x00]);
    assert_eq!(f.bytes[1] & 0x0F, 0);
}

#[test]
fn packed_nibble_swap_packs_low_first() {
    let img = raster(2, 1, |x, _| {
        if x == 0 {
            [0, 0, 0, 255]
        } else {
            [255, 255, 255, 255]
        }
    });
    let palette = vec![rgb(0, 0, 0), rgb(255, 255, 255)];
    let f = encode_frame(
        &img,
        Some(2),
        Some(1),
        false,
        OutputFormat::Packed4bpp,
        &palette,
        true,
        false,
        false,
    )
    .unwrap();
    assert_eq!(f.bytes, vec![0x10]);
}

#[test]
fn device_nibbles_follow_the_known_color_table() {
    // One pixel per known device color, palette in the same order.
    let colors = [
        rgb(0, 0, 0),
        rgb(255, 255, 255),
        rgb(255, 255, 0),
        rgb(255, 0, 0),
        rgb(0, 0, 255),
        rgb(0, 255, 0),
    ];
    let img = raster(6, 1, |x, _| {
        let c = colors[x as usize];
        [c.r, c.g, c.b, 255]
    });
    let palette = colors.to_vec();
    let f = encode_frame(
        &img,
        Some(6),
        Some(1),
        false,
        OutputFormat::Packed4bpp,
        &palette,
        false,
        false,
        false,
    )
    .unwrap();
    assert_eq!(f.bytes, vec![0x01, 0x23, 0x56]);
}

#[test]
fn reversed_rows_emit_the_bottom_row_first() {
    let img = raster(2, 2, |_, y| {
        if y == 0 {
            [0, 0, 0, 255]
        } else {
            [255, 255, 255, 255]
        }
    });
    let palette = vec![rgb(0, 0, 0), rgb(255, 255, 255)];
    let forward = encode_frame(
        &img,
        Some(2),
        Some(2),
        false,
        OutputFormat::Packed4bpp,
        &palette,
        false,
        false,
        false,
    )
    .unwrap();
    let reversed = encode_frame(
        &img,
        Some(2),
        Some(2),
        false,
        OutputFormat::Packed4bpp,
        &palette,
        false,
        true,
        false,
    )
    .unwrap();
    assert_eq!(forward.bytes, vec![0x00, 0x11]);
    assert_eq!(reversed.bytes, vec![0x11, 0x00]);
}

#[test]
fn png_output_carries_the_png_signature() {
    let img = raster(2, 2, |x, y| [(x * 100) as u8, (y * 100) as u8, 30, 255]);
    let palette: Vec<Rgb> = Vec::new();
    let f: EncodedFrame = encode_frame(
        &img,
        Some(2),
        Some(2),
        false,
        OutputFormat::Png,
        &palette,
        false,
        false,
        false,
    )
    .unwrap();
    assert_eq!(&f.bytes[0..8], &[0x89, b'P', b'N', b'G', 0x0D, 0x0A, 0x1A, 0x0A]);
    assert_eq!(f.content_type(), "image/png");
    assert_eq!(f.suggested_filename(), "image.png");
}

#[test]
fn contain_composition_letterboxes_inside_the_panel() {
    // A square photo on a wide panel: contain meets the inner height.
    let base = raster(100, 100, |_, _| [10, 200, 30, 255]);
    let frame = frame_with_panel(200, 100, ScalingMode::Contain);
    let (img, rect, plan) = compose_and_adjust(&frame, &base, None);
    assert_eq!((img.width, img.height), (200, 100));
    assert!(plan.is_none());
    assert_eq!(rect.height, 100);
    assert!(rect.width <= 200);
    assert!(rect.x + rect.width <= img.width);
    assert!(rect.y + rect.height <= img.height);
}

#[test]
fn derive_palette_drops_unparsed_entries() {
    let parsed = vec![Some(rgb(1, 2, 3)), None, Some(rgb(9, 8, 7))];
    let pal = derive_palette(&parsed).unwrap();
    assert_eq!(pal.len(), 2);
    assert_eq!(pal[0], rgb(1, 2, 3));
    assert_eq!(pal[1], rgb(9, 8, 7));
    assert!(derive_palette(&vec![None, None]).is_none());
    assert!(derive_palette(&Vec::new()).is_none());
}

#[test]
fn cover_scenario_fills_the_panel_and_packs_to_size() {
    // A large landscape photo, an 800x480 panel, cover scaling, the six
    // named primaries, ordered Bayer dithering, packed output.
    let base = raster(2048, 1536, |x, y| {
        [(x % 256) as u8, (y % 256) as u8, ((x + y) % 256) as u8, 255]
    });
    let frame = frame_with_panel(800, 480, ScalingMode::Cover);
    let (img, rect, plan) = compose_and_adjust(&frame, &base, None);
    assert!(plan.is_none());
    assert_eq!((img.width, img.height), (800, 480));
    // Cover fills the whole canvas: no white border.
    assert_eq!((rect.x, rect.y, rect.width, rect.height), (0, 0, 800, 480));
    let palette = vec![
        rgb(0, 0, 0),
        rgb(255, 255, 255),
        rgb(255, 255, 0),
        rgb(255, 0, 0),
        rgb(0, 0, 255),
        rgb(0, 255, 0),
    ];
    let mut pixels = img.pixels;
    dither_image(&mut pixels, 800, 480, &palette, Some("ordered_bayer_4"), None);
    for px in pixels.chunks_exact(4) {
        assert!(palette.iter().any(|c| c.r == px[0] && c.g == px[1] && c.b == px[2]));
    }
    let dithered = RasterImage { width: 800, height: 480, pixels };
    let f = encode_frame(
        &dithered,
        Some(800),
        Some(480),
        false,
        OutputFormat::Packed4bpp,
        &palette,
        false,
        false,
        false,
    )
    .unwrap();
    assert_eq!(f.bytes.len(), 192_000);
    assert_eq!(f.content_type(), "application/octet-stream");
    assert_eq!(f.suggested_filename(), "image.bin");
}

#[test]
fn flip_composes_a_half_turn() {
    // With matching native dimensions and the flip flag, the encoder
    // rotates a half turn: the single black pixel moves to the other end.
    let img = raster(2, 1, |x, _| {
        if x == 0 {
            [0, 0, 0, 255]
        } else {
            [255, 255, 255, 255]
        }
    });
    let palette = vec![rgb(0, 0, 0), rgb(255, 255, 255)];
    let f = encode_frame(
        &img,
        Some(2),
        Some(1),
        true,
        OutputFormat::Packed4bpp,
        &palette,
        false,
        false,
        false,
    )
    .unwrap();
    assert_eq!(f.bytes, vec![0x10]);
}

#[test]
fn sierra_lite_is_another_name_for_the_smallest_sierra() {
    let palette = vec![rgb(0, 0, 0), rgb(255, 255, 255), rgb(128, 128, 128)];
    let mut a = vec![0u8; 8 * 8 * 4];
    for (i, v) in a.iter_mut().enumerate() {
        *v = ((i * 53) % 251) as u8;
    }
    let mut b = a.clone();
    dither_image(&mut a, 8, 8, &palette, Some("sierra_1"), None);
    dither_image(&mut b, 8, 8, &palette, Some("sierra_lite"), None);
    assert_eq!(a, b);
}

#[test]
fn rotate90_moves_the_corner_pixel() {
    // 2x1: [A B] turns clockwise into a 1x2 column [A; B].
    let img = raster(2, 1, |x, _| if x == 0 { [1, 2, 3, 4] } else { [5, 6, 7, 8] });
    let r = rotate90(&img);
    assert_eq!((r.width, r.height), (1, 2));
    assert_eq!(&r.pixels[0..4], &[1, 2, 3, 4]);
    assert_eq!(&r.pixels[4..8], &[5, 6, 7, 8]);
}

#[test]
fn png_bytes_decode_back_to_the_same_pixels() {
    let img = raster(3, 2, |x, y| [(x * 80) as u8, (y * 120) as u8, 200, 255]);
    let palette: Vec<Rgb> = Vec::new();
    let f = encode_frame(
        &img,
        Some(3),
        Some(2),
        false,
        OutputFormat::Png,
        &palette,
        false,
        false,
        false,
    )
    .unwrap();
    let decoded = image::load_from_memory(&f.bytes).unwrap().to_rgba8();
    assert_eq!(decoded.dimensions(), (3, 2));
    assert_eq!(decoded.into_raw(), img.pixels);
}

#[test]
fn bayer_two_thresholds_mid_gray_exactly() {
    // Mid gray under the 2x2 matrix with a two-color palette: cell 0
    // pushes the channels down to 26 (nearer black), cell 2 pushes them
    // up to 162 (nearer white), with the fixed-point cube root of two
    // and half-to-even rounding.
    let mut img = vec![128u8, 128, 128, 255, 128, 128, 128, 255];
    let palette = vec![rgb(0, 0, 0), rgb(255, 255, 255)];
    dither_image(&mut img, 2, 1, &palette, Some("bayer_2"), None);
    assert_eq!(img, vec![0, 0, 0, 255, 255, 255, 255, 255]);
}

#[test]
fn maximal_contrast_spreads_around_mid_gray() {
    // At the contrast limit the slope is 129.5: one step above 128
    // saturates to 255, one below to 0, and 128 stays put.
    let mut img = raster(1, 1, |_, _| [129, 127, 128, 9]);
    let adj = Adjustments { brightness: 0, contrast: 255_000, saturation: 0, sharpness: 0 };
    apply_adjustments_fast(&mut img, &adj);
    assert_eq!(&img.pixels[..], &[255, 0, 128, 9]);
}

#[test]
fn full_saturation_doubles_the_luma_distance() {
    // Saturation 0.25 scales by four to the mix factor two: each channel
    // moves twice as far from the luma 124.2.
    let mut img = raster(1, 1, |_, _| [200, 100, 50, 255]);
    let adj = Adjustments { brightness: 0, contrast: 0, saturation: 250, sharpness: 0 };
    apply_adjustments_fast(&mut img, &adj);
    assert_eq!(&img.pixels[..], &[255, 75, 0, 255]);
}

#[test]
fn mismatched_buffer_is_an_invalid_buffer_error() {
    let bad = PreparedFrameImage { width: 2, height: 2, pixels: vec![0u8; 12] };
    assert_eq!(raster_from_prepared(bad).err(), Some(EncodeError::InvalidBuffer));
    let good = PreparedFrameImage { width: 2, height: 2, pixels: vec![0u8; 16] };
    assert!(raster_from_prepared(good).is_ok());
}
