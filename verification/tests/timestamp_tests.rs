use photoframe_core::api::{color_hex, ImageMeta, SourceData, SourceStats};
use photoframe_core::color::Rgb;
use photoframe_core::config::{Orientation, Overscan, Timestamp, TimestampPosition};
use photoframe_core::raster::RasterImage;
use photoframe_core::timestamp::{calculate_text_position, render_timestamp, resolve_stroke,
    timestamp_text, DateTimeParts, GlyphRaster, LayoutArea, TextLayout};

fn default_timestamp() -> Timestamp {
    Timestamp {
        enabled: true,
        format: None,
        font_size: None,
        position: None,
        color: None,
        stroke_enabled: false,
        stroke_width: None,
        stroke_color: None,
        full_width_banner: false,
        banner_height: None,
        padding_horizontal: None,
        padding_vertical: None,
    }
}

fn white_raster(w: u32, h: u32) -> RasterImage {
    RasterImage { width: w, height: h, pixels: vec![255u8; (w * h * 4) as usize] }
}

fn square_layout() -> TextLayout {
    // One 4x4 fully-covered glyph.
    TextLayout {
        glyphs: vec![GlyphRaster { left: 0, top: -4, width: 4, height: 4, coverage: vec![
            255u8;
            16
        ] }],
        width_trunc: 4,
        width_ceil: 4,
        height_trunc: 4,
        height_ceil: 4,
        ascent_ceil: 4,
    }
}

#[test]
fn text_position_honours_padding_and_anchors() {
    let mut area = LayoutArea {
        position: TimestampPosition::TopLeft,
        text_width: 20,
        text_height: 10,
        area_width: 100,
        area_height: 50,
        area_y_offset: 0,
        overscan: None,
        padding_horizontal: 16,
        padding_vertical: 16,
    };
    assert_eq!(calculate_text_position(&area), (16, 16));
    area.position = TimestampPosition::BottomRight;
    assert_eq!(calculate_text_position(&area), (64, 24));
    area.position = TimestampPosition::TopCenter;
    assert_eq!(calculate_text_position(&area), (40, 16));
    // Overscan shifts the effective area inward.
    area.position = TimestampPosition::TopLeft;
    area.overscan = Some(Overscan { left: 5, right: 3, top: 2, bottom: 0 });
    assert_eq!(calculate_text_position(&area), (21, 18));
}

#[test]
fn timestamp_text_formats_the_default_date() {
    let cfg = default_timestamp();
    let date = DateTimeParts { year: 2024, month: 1, day: 15, hour: 12, minute: 30, second: 5 };
    let text = timestamp_text(&cfg, Some(&date)).unwrap();
    assert_eq!(text, "2024-01-15");
    let mut custom = default_timestamp();
    custom.format = Some(String::from("%d.%m.%Y"));
    assert_eq!(timestamp_text(&custom, Some(&date)).unwrap(), "15.01.2024");
    let mut disabled = default_timestamp();
    disabled.enabled = false;
    assert!(timestamp_text(&disabled, Some(&date)).is_none());
    assert!(timestamp_text(&cfg, None).is_none());
    // An impossible date renders nothing.
    let bad = DateTimeParts { year: 2024, month: 13, day: 1, hour: 0, minute: 0, second: 0 };
    assert!(timestamp_text(&cfg, Some(&bad)).is_none());
}

#[test]
fn disabled_timestamp_passes_the_image_through() {
    let img = white_raster(10, 10);
    let mut cfg = default_timestamp();
    cfg.enabled = false;
    let out = render_timestamp(&img, &cfg, None, Some(&square_layout()), None);
    assert_eq!(out.pixels, img.pixels);
    // No rasterized text behaves the same.
    let out2 = render_timestamp(&img, &default_timestamp(), None, None, None);
    assert_eq!(out2.pixels, img.pixels);
}

#[test]
fn overlay_timestamp_darkens_covered_pixels() {
    let img = white_raster(16, 16);
    let mut cfg = default_timestamp();
    cfg.position = Some(TimestampPosition::TopLeft);
    cfg.color = Some(photoframe_core::config::TimestampColor::TransparentBlackText);
    cfg.padding_horizontal = Some(0);
    cfg.padding_vertical = Some(0);
    let layout = square_layout();
    let out = render_timestamp(&img, &cfg, None, Some(&layout), None);
    assert_eq!((out.width, out.height), (16, 16));
    // The glyph sits just above the baseline at (0, ascent): rows 0..4.
    let mut black_pixels = 0;
    for px in out.pixels.chunks_exact(4) {
        if px[0] == 0 && px[1] == 0 && px[2] == 0 {
            black_pixels += 1;
        }
        assert_eq!(px[3], 255);
    }
    assert_eq!(black_pixels, 16);
}

#[test]
fn banner_timestamp_reserves_its_strip() {
    let img = white_raster(20, 30);
    let mut cfg = default_timestamp();
    cfg.full_width_banner = true;
    cfg.banner_height = Some(10);
    cfg.position = Some(TimestampPosition::BottomCenter);
    cfg.color = Some(photoframe_core::config::TimestampColor::BlackBackground);
    let out = render_timestamp(&img, &cfg, None, Some(&square_layout()), None);
    assert_eq!((out.width, out.height), (20, 40));
    // The strip at the bottom is the black banner (away from the text).
    let idx = ((35 * 20) + 1) * 4;
    assert_eq!(&out.pixels[idx..idx + 4], &[0, 0, 0, 255]);
}

#[test]
fn stroke_width_is_clamped_to_the_font_size() {
    let mut cfg = default_timestamp();
    cfg.stroke_enabled = true;
    cfg.stroke_width = Some(40);
    cfg.font_size = Some(20);
    let (enabled, width, color) = resolve_stroke(&cfg, Rgb { r: 255, g: 255, b: 255 });
    assert!(enabled);
    // 30 percent of 20 rounds to 6.
    assert_eq!(width, 6);
    // A bright fill takes a black outline.
    assert_eq!(color, Rgb { r: 0, g: 0, b: 0 });
}

#[test]
fn source_stats_count_orientations() {
    let entries = vec![
        ImageMeta {
            data: SourceData::Path(String::from("a.jpg")),
            orientation: Orientation::Landscape,
            id: None,
        },
        ImageMeta {
            data: SourceData::Bytes(vec![1, 2, 3]),
            orientation: Orientation::Portrait,
            id: Some(String::from("b")),
        },
        ImageMeta {
            data: SourceData::Path(String::from("c.png")),
            orientation: Orientation::Landscape,
            id: None,
        },
    ];
    let stats = SourceStats::from_entries(&entries);
    assert_eq!(stats.total, 3);
    assert_eq!(stats.landscape, 2);
    assert_eq!(stats.portrait, 1);
    assert_eq!(Orientation::from_dims(800, 480), Orientation::Landscape);
    assert_eq!(Orientation::from_dims(480, 800), Orientation::Portrait);
    assert_eq!(Orientation::from_dims(500, 500), Orientation::Portrait);
}

#[test]
fn colors_render_as_lowercase_hex() {
    assert_eq!(color_hex(Rgb { r: 255, g: 0, b: 171 }), "#ff00ab");
    assert_eq!(color_hex(Rgb { r: 0, g: 0, b: 0 }), "#000000");
    assert_eq!(color_hex(Rgb { r: 18, g: 52, b: 86 }), "#123456");
}

#[test]
fn banner_with_reduced_height_scales_the_photo_down() {
    // Four solid rows; the banner reserves a strip and the photo area
    // shrinks to two rows, so the first photo row is a blend of the top
    // two source rows rather than the pure first row.
    let mut pixels = Vec::new();
    let rows: [[u8; 4]; 4] = [
        [250, 0, 0, 255],
        [0, 250, 0, 255],
        [0, 0, 250, 255],
        [250, 250, 0, 255],
    ];
    for row in rows {
        for _ in 0..2 {
            pixels.extend_from_slice(&row);
        }
    }
    let img = RasterImage { width: 2, height: 4, pixels };
    let mut cfg = default_timestamp();
    cfg.full_width_banner = true;
    cfg.banner_height = Some(2);
    cfg.position = Some(TimestampPosition::TopLeft);
    cfg.color = Some(photoframe_core::config::TimestampColor::WhiteBackground);
    let out = render_timestamp(&img, &cfg, Some(2), Some(&square_layout()), None);
    assert_eq!((out.width, out.height), (2, 4));
    // Row 2 is the first photo row of the downscaled image: a blend, not
    // the pure first source row.
    let idx = (2 * 2) * 4;
    let px = &out.pixels[idx..idx + 4];
    assert_ne!(&px[0..3], &[250, 0, 0]);
    assert!(px[1] > 0, "the blended row must carry some of the second source row");
}
