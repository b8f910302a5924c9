//! Per-panel configuration: dimensions, orientation, scaling, overscan,
//! tonal adjustments, timestamp settings, palette and output encoding.
//!
//! The fractional settings of the configuration file (brightness,
//! contrast, saturation, sharpness) are held in thousandths, so that
//! the whole pipeline works on exact integers.

use vstd::prelude::*;

verus! {

/// Logical orientation of the panel's view canvas.
#[derive(Clone, Copy, Debug, PartialEq, Eq, Structural)]
pub enum Orientation {
    Landscape,
    Portrait,
}

impl Orientation {
    /// Orientation suggested by a raster's dimensions: wider than tall
    /// is landscape, anything else portrait.
    pub fn from_dims(w: u32, h: u32) -> (o: Self)
        ensures
            o == (if w > h {
                Orientation::Landscape
            } else {
                Orientation::Portrait
            }),
    {
        if w > h {
            Orientation::Landscape
        } else {
            Orientation::Portrait
        }
    }
}

impl Default for Orientation {
    /// The panel is assumed landscape when the configuration says nothing.
    fn default() -> (o: Self)
        ensures
            o == Orientation::Landscape,
    {
        Orientation::Landscape
    }
}

/// How the source photo is fitted into the panel's inner rectangle.
#[derive(Clone, Copy, Debug, PartialEq, Eq, Structural)]
pub enum ScalingMode {
    /// Preserve aspect ratio and letterbox with white.
    Contain,
    /// Crop so the photo fills the inner rectangle exactly.
    Cover,
}

impl Default for ScalingMode {
    fn default() -> (m: Self)
        ensures
            m == ScalingMode::Contain,
    {
        ScalingMode::Contain
    }
}

/// Output encoding used when pushing to the device.
#[derive(Clone, Copy, Debug, PartialEq, Eq, Structural)]
pub enum OutputFormat {
    /// Encode and upload as PNG (default).
    Png,
    /// Raw packed 4 bits-per-pixel, two pixels per byte.
    Packed4bpp,
}

impl Default for OutputFormat {
    fn default() -> (f: Self)
        ensures
            f == OutputFormat::Png,
    {
        OutputFormat::Png
    }
}

/// HTTP body transport used for the device upload.
#[derive(Clone, Copy, Debug, PartialEq, Eq, Structural)]
pub enum UploadTransport {
    /// Raw bytes in the HTTP body with the frame's content type (default).
    Raw,
    /// multipart/form-data with a single file part named "file".
    Multipart,
}

impl Default for UploadTransport {
    fn default() -> (t: Self)
        ensures
            t == UploadTransport::Raw,
    {
        UploadTransport::Raw
    }
}

/// Order in which a source hands out images.
#[derive(Clone, Copy, Debug, PartialEq, Eq, Structural)]
pub enum OrderKind {
    Random,
    Sequential,
}

impl Default for OrderKind {
    fn default() -> (k: Self)
        ensures
            k == OrderKind::Random,
    {
        OrderKind::Random
    }
}

/// Per-edge inset, in pixels, subtracted from the visible canvas before
/// content is placed. Negative configured values count as zero.
#[derive(Clone, Copy, Debug, PartialEq, Eq, Structural)]
pub struct Overscan {
    pub left: i32,
    pub right: i32,
    pub top: i32,
    pub bottom: i32,
}

impl Default for Overscan {
    fn default() -> (o: Self)
        ensures
            o.left == 0 && o.right == 0 && o.top == 0 && o.bottom == 0,
    {
        Overscan { left: 0, right: 0, top: 0, bottom: 0 }
    }
}

/// Tonal adjustments, each stored in thousandths of the configured unit:
/// brightness and contrast over the device range of about -255..=255
/// (so -255_000..=255_000 here), saturation over roughly -0.25..=0.25
/// (-250..=250 here, scaled by four and clamped to one inside the stage),
/// and sharpness over -5..=5 (-5_000..=5_000 here).
#[derive(Clone, Copy, Debug, PartialEq, Eq, Structural)]
pub struct Adjustments {
    pub brightness: i32,
    pub contrast: i32,
    pub saturation: i32,
    pub sharpness: i32,
}

impl Adjustments {
    /// All four adjustments are zero: the stage must not change a pixel.
    pub open spec fn spec_is_neutral(&self) -> bool {
        self.brightness == 0 && self.contrast == 0 && self.saturation == 0
            && self.sharpness == 0
    }

    pub fn is_neutral(&self) -> (r: bool)
        ensures
            r == self.spec_is_neutral(),
    {
        self.brightness == 0 && self.contrast == 0 && self.saturation == 0
            && self.sharpness == 0
    }
}

impl Default for Adjustments {
    fn default() -> (a: Self)
        ensures
            a.spec_is_neutral(),
    {
        Adjustments { brightness: 0, contrast: 0, saturation: 0, sharpness: 0 }
    }
}

/// Where the timestamp is anchored on the canvas.
#[derive(Clone, Copy, Debug, PartialEq, Eq, Structural)]
pub enum TimestampPosition {
    TopLeft,
    TopCenter,
    TopRight,
    BottomLeft,
    BottomCenter,
    BottomRight,
}

impl Default for TimestampPosition {
    fn default() -> (p: Self)
        ensures
            p == TimestampPosition::BottomRight,
    {
        TimestampPosition::BottomRight
    }
}

/// Color mode of the timestamp: solid background box with contrasting
/// text, or transparent text in white, black, or automatic contrast.
#[derive(Clone, Copy, Debug, PartialEq, Eq, Structural)]
pub enum TimestampColor {
    WhiteBackground,
    BlackBackground,
    TransparentWhiteText,
    TransparentBlackText,
    TransparentAutoText,
}

impl Default for TimestampColor {
    fn default() -> (c: Self)
        ensures
            c == TimestampColor::TransparentAutoText,
    {
        TimestampColor::TransparentAutoText
    }
}

/// Color of the optional text outline.
#[derive(Clone, Copy, Debug, PartialEq, Eq, Structural)]
pub enum TimestampStrokeColor {
    Auto,
    White,
    Black,
}

/// Timestamp overlay settings. The font size is in whole pixels.
#[derive(Clone, Debug)]
pub struct Timestamp {
    pub enabled: bool,
    pub format: Option<String>,
    pub font_size: Option<u32>,
    pub position: Option<TimestampPosition>,
    pub color: Option<TimestampColor>,
    pub stroke_enabled: bool,
    pub stroke_width: Option<u32>,
    pub stroke_color: Option<TimestampStrokeColor>,
    pub full_width_banner: bool,
    pub banner_height: Option<u32>,
    pub padding_horizontal: Option<u32>,
    pub padding_vertical: Option<u32>,
}

impl Default for Timestamp {
    fn default() -> (t: Self)
        ensures
            !t.enabled,
            !t.full_width_banner,
            !t.stroke_enabled,
    {
        Timestamp {
            enabled: false,
            format: None,
            font_size: None,
            position: None,
            color: None,
            stroke_enabled: false,
            stroke_width: None,
            stroke_color: None,
            full_width_banner: false,
            banner_height: None,
            padding_horizontal: None,
            padding_vertical: None,
        }
    }
}

/// One physical display device: its dimensions, orientation, supported
/// palette, output encoding, and rendering settings.
#[derive(Clone, Debug)]
pub struct PhotoFrame {
    pub orientation: Option<Orientation>,
    pub scaling: Option<ScalingMode>,
    pub upload_endpoint: Option<String>,
    pub panel_width: Option<u32>,
    pub panel_height: Option<u32>,
    /// Flip the image 180 degrees relative to the default orientation
    /// handling.
    pub flip: Option<bool>,
    pub output_format: Option<OutputFormat>,
    pub upload_transport: Option<UploadTransport>,
    pub source_ids: Vec<String>,
    pub dithering: Option<String>,
    /// CSS color strings naming the panel's supported palette, in the
    /// order that defines the packed nibble mapping.
    pub supported_colors: Vec<String>,
    pub overscan: Option<Overscan>,
    pub adjustments: Option<Adjustments>,
    pub timestamp: Option<Timestamp>,
    /// Pack low-nibble first (left pixel) when true; default false.
    pub swap_nibbles: Option<bool>,
    /// Bottom-to-top row order when packing raw streams.
    pub reverse_rows: Option<bool>,
    /// Right-to-left column order when packing raw streams.
    pub reverse_cols: Option<bool>,
    pub dummy: bool,
    pub paused: bool,
}

/// Optional global limits for base image dimensions.
#[derive(Clone, Copy, Debug, PartialEq, Eq, Structural)]
pub struct ImageLimits {
    pub max_width: Option<u32>,
    pub max_height: Option<u32>,
}

/// Server binding configuration.
#[derive(Clone, Debug)]
pub struct Server {
    pub bind_address: Option<String>,
    pub public_url: Option<String>,
}

/// Logging filter configuration.
#[derive(Clone, Debug)]
pub struct Logging {
    pub filter: Option<String>,
}

/// A filesystem image source: a glob pattern and a pick order.
#[derive(Clone, Debug)]
pub struct FilesystemSource {
    pub glob: Option<String>,
    pub order: Option<OrderKind>,
}

} // verus!
