//! The plain data types the HTTP layer and the sources hand around:
//! image source metadata and statistics, response payloads, and the
//! palette report with its hex rendering.

use vstd::prelude::*;
use vstd::string::StringExecFns;
use crate::color::Rgb;
use crate::config::{Adjustments, Orientation, Overscan};

verus! {

/// Where a source image lives: a path on disk, or bytes already fetched.
#[derive(Clone, Debug)]
pub enum SourceData {
    Path(String),
    Bytes(Vec<u8>),
}

/// What a source knows about one image: its data, its orientation, and
/// an optional identifier.
#[derive(Clone, Debug)]
pub struct ImageMeta {
    pub data: SourceData,
    pub orientation: Orientation,
    pub id: Option<String>,
}

/// Basic statistics of a source's images.
#[derive(Clone, Copy, Debug, PartialEq, Eq, Structural)]
pub struct SourceStats {
    pub total: usize,
    pub landscape: usize,
    pub portrait: usize,
}

impl Default for SourceStats {
    fn default() -> (r: Self)
        ensures
            r.total == 0 && r.landscape == 0 && r.portrait == 0,
    {
        SourceStats { total: 0, landscape: 0, portrait: 0 }
    }
}

/// How many of the first `n` entries are landscape.
pub open spec fn count_landscape(s: Seq<ImageMeta>, n: int) -> int
    decreases n,
{
    if n <= 0 {
        0
    } else {
        count_landscape(s, n - 1) + if s[n - 1].orientation == Orientation::Landscape {
            1int
        } else {
            0int
        }
    }
}

impl SourceStats {
    /// Count a source's entries by orientation: the total, and how many
    /// are landscape and portrait (each entry is one or the other).
    pub fn from_entries(entries: &Vec<ImageMeta>) -> (r: Self)
        ensures
            r.total == entries@.len(),
            r.landscape as int == count_landscape(entries@, entries@.len() as int),
            r.landscape + r.portrait == r.total,
    {
        let total = entries.len();
        let mut landscape: usize = 0;
        let mut portrait: usize = 0;
        let mut i: usize = 0;
        while i < total
            invariant
                total == entries@.len(),
                i <= total,
                landscape as int == count_landscape(entries@, i as int),
                landscape + portrait == i,
            decreases total - i,
        {
            match entries[i].orientation {
                Orientation::Landscape => {
                    landscape = landscape + 1;
                },
                Orientation::Portrait => {
                    portrait = portrait + 1;
                },
            }
            i = i + 1;
        }
        SourceStats { total, landscape, portrait }
    }
}

/// One frame's settings as the HTTP layer reports them.
#[derive(Clone, Debug)]
pub struct FrameResponse {
    pub id: String,
    pub dithering: Option<String>,
    pub adjustments: Option<Adjustments>,
    pub overscan: Option<Overscan>,
    pub paused: bool,
    pub dummy: bool,
    pub flip: bool,
}

/// Reply to a direct image upload.
#[derive(Clone, Debug)]
pub struct UploadResponse {
    pub frame_id: String,
    pub width: u32,
    pub height: u32,
}

/// Credentials for a photo-library source.
#[derive(Clone, Debug)]
pub struct ImmichCredsPayload {
    pub base_url: String,
    pub api_key: String,
}

/// One resolved palette color: the configured string, its hex form, and
/// the RGB triple.
#[derive(Clone, Debug)]
pub struct FramePaletteEntry {
    pub input: String,
    pub hex: String,
    pub rgb: [u8; 3],
}

/// The resolved palette of one frame.
#[derive(Clone, Debug)]
pub struct FramePaletteResponse {
    pub frame_id: String,
    pub palette: Vec<FramePaletteEntry>,
}

/// The lower-case hex digits.
pub open spec fn hex_digit(v: int) -> char {
    if v == 0 {
        '0'
    } else if v == 1 {
        '1'
    } else if v == 2 {
        '2'
    } else if v == 3 {
        '3'
    } else if v == 4 {
        '4'
    } else if v == 5 {
        '5'
    } else if v == 6 {
        '6'
    } else if v == 7 {
        '7'
    } else if v == 8 {
        '8'
    } else if v == 9 {
        '9'
    } else if v == 10 {
        'a'
    } else if v == 11 {
        'b'
    } else if v == 12 {
        'c'
    } else if v == 13 {
        'd'
    } else if v == 14 {
        'e'
    } else {
        'f'
    }
}

/// The `#rrggbb` rendering of a color, lower case.
pub open spec fn spec_color_hex(c: Rgb) -> Seq<char> {
    seq![
        '#',
        hex_digit(c.r as int / 16),
        hex_digit(c.r as int % 16),
        hex_digit(c.g as int / 16),
        hex_digit(c.g as int % 16),
        hex_digit(c.b as int / 16),
        hex_digit(c.b as int % 16),
    ]
}

/// One hex digit, as a one-character string.
fn hex_str(v: u8) -> (r: &'static str)
    requires
        v < 16,
    ensures
        r@ =~= seq![hex_digit(v as int)],
{
    proof {
        reveal_strlit("0");
        reveal_strlit("1");
        reveal_strlit("2");
        reveal_strlit("3");
        reveal_strlit("4");
        reveal_strlit("5");
        reveal_strlit("6");
        reveal_strlit("7");
        reveal_strlit("8");
        reveal_strlit("9");
        reveal_strlit("a");
        reveal_strlit("b");
        reveal_strlit("c");
        reveal_strlit("d");
        reveal_strlit("e");
        reveal_strlit("f");
    }
    if v == 0 {
        "0"
    } else if v == 1 {
        "1"
    } else if v == 2 {
        "2"
    } else if v == 3 {
        "3"
    } else if v == 4 {
        "4"
    } else if v == 5 {
        "5"
    } else if v == 6 {
        "6"
    } else if v == 7 {
        "7"
    } else if v == 8 {
        "8"
    } else if v == 9 {
        "9"
    } else if v == 10 {
        "a"
    } else if v == 11 {
        "b"
    } else if v == 12 {
        "c"
    } else if v == 13 {
        "d"
    } else if v == 14 {
        "e"
    } else {
        "f"
    }
}

/// Render a color as `#rrggbb`, lower case.
pub fn color_hex(c: Rgb) -> (r: String)
    ensures
        r@ == spec_color_hex(c),
{
    proof {
        reveal_strlit("#");
    }
    let mut out = String::from_str("#");
    out.append(hex_str(c.r / 16));
    out.append(hex_str(c.r % 16));
    out.append(hex_str(c.g / 16));
    out.append(hex_str(c.g % 16));
    out.append(hex_str(c.b / 16));
    out.append(hex_str(c.b % 16));
    proof {
        assert(out@ =~= spec_color_hex(c));
    }
    out
}

} // verus!
