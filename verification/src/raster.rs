//! Gray pages, and the PWG / CUPS raster stream that they come from.

use vstd::prelude::*;
use vstd::slice::slice_subrange;

use crate::text::{dec, owned, push_dec};

pub mod laws;
pub mod pages;
pub mod pixel_laws;
pub mod stream;

pub use self::pages::{decode, inspect};

verus! {

/// One decoded page. `data` is row-major, `width * height` bytes, 0 = black, 255 = white.
#[derive(Debug, Clone, PartialEq, Eq)]
pub struct GrayPage {
    pub width: u32,
    pub height: u32,
    /// Horizontal resolution in dpi (203 for native tape, 406 for supersampled).
    pub dpi: u32,
    pub data: Vec<u8>,
}

impl GrayPage {
    /// The page has a positive size, and a byte for every pixel.
    pub open spec fn valid(self) -> bool {
        self.width > 0 && self.height > 0 && self.data@.len() == self.width * self.height
    }

    /// An all-white page.
    pub fn new_white(width: u32, height: u32, dpi: u32) -> (r: Self)
        requires
            width * height <= usize::MAX,
        ensures
            r.width == width,
            r.height == height,
            r.dpi == dpi,
            r.data@ == Seq::new((width * height) as nat, |i: int| 255u8),
    {
        let data = white_bytes((width as u64 * height as u64) as usize);
        GrayPage { width, height, dpi, data }
    }

    /// Row `y`.
    pub fn row(&self, y: u32) -> (r: &[u8])
        requires
            self.data@.len() == self.width * self.height,
            y < self.height,
        ensures
            r@ == self.data@.subrange(y * self.width, (y + 1) * self.width),
    {
        let w: usize = self.width as usize;
        assert(y * self.width + self.width <= self.width * self.height && (y + 1) * self.width == y
            * self.width + self.width && 0 <= y * self.width) by (nonlinear_arith)
            requires
                y + 1 <= self.height,
        ;
        assert(self.data@.len() == self.data.len());
        let from: usize = y as usize * w;
        slice_subrange(self.data.as_slice(), from, from + w)
    }

    /// Whether the page is at most `mm` millimetres wide; a page of unknown resolution is.
    pub fn at_most_mm_wide(&self, mm: u32) -> (r: bool)
        ensures
            r == (self.dpi == 0 || 254 * self.width <= 10 * mm * self.dpi),
    {
        if self.dpi == 0 {
            return true;
        }
        assert(10 * mm * self.dpi <= 10 * 0xffff_ffff * 0xffff_ffff) by (nonlinear_arith)
            requires
                mm <= 0xffff_ffff,
                self.dpi <= 0xffff_ffff,
        ;
        254 * (self.width as u128) <= 10 * (mm as u128) * (self.dpi as u128)
    }
}

/// `n` white pixels.
pub(crate) fn white_bytes(n: usize) -> (r: Vec<u8>)
    ensures
        r@ == Seq::new(n as nat, |i: int| 255u8),
{
    let mut r: Vec<u8> = Vec::new();
    let mut i: usize = 0;
    while i < n
        invariant
            i <= n,
            r@ == Seq::new(i as nat, |j: int| 255u8),
        decreases n - i,
    {
        r.push(255);
        i += 1;
        assert(r@ =~= Seq::new(i as nat, |j: int| 255u8));
    }
    r
}

/// Byte order of the stream (sync word).
#[derive(Debug, Clone, Copy, PartialEq, Eq, Structural)]
pub enum Sync {
    /// "RaS2": version 2 big-endian, run-length compressed (this is PWG raster).
    V2BigEndian,
    /// "2SaR": version 2 little-endian, run-length compressed (CUPS raster on little-endian hosts).
    V2LittleEndian,
    /// "RaS3": version 3, uncompressed.
    V3BigEndian,
    /// "3SaR": version 3, uncompressed.
    V3LittleEndian,
}

/// The part of a page header that is used.
#[derive(Debug, PartialEq, Eq)]
pub struct PwgHeader {
    pub sync: Sync,
    pub media_type: String,
    pub output_type: String,
    pub hw_resolution: (u32, u32),
    pub num_copies: u32,
    pub orientation: u32,
    pub page_size_pt: (u32, u32),
    pub width: u32,
    pub height: u32,
    pub bits_per_color: u32,
    pub bits_per_pixel: u32,
    pub bytes_per_line: u32,
    pub color_order: u32,
    pub color_space: u32,
    pub compression: u32,
    /// Total page count, and the two transforms.
    pub total_page_count: u32,
    pub cross_feed_transform: i32,
    pub feed_transform: i32,
    /// Page size name, such as "custom_cat-tape_48x297mm" or "48x297mm".
    pub page_size_name: String,
}

/// Safety limits applied before allocating.
#[derive(Debug, Clone, Copy)]
pub struct Limits {
    pub max_pages: u32,
    pub max_width: u32,
    pub max_height: u32,
    pub max_pixels_total: u64,
}

impl Default for Limits {
    fn default() -> (r: Self)
        ensures
            r.max_pages == 32,
            r.max_width == 8192,
            r.max_height == 65535,
            r.max_pixels_total == 400_000_000,
    {
        Limits { max_pages: 32, max_width: 8192, max_height: 65535, max_pixels_total: 400_000_000 }
    }
}

/// What can be wrong with a raster stream.
#[derive(Debug)]
pub enum RasterError {
    BadSync,
    Truncated { page: u32, line: u32 },
    Unsupported { cspace: u32, bpp: u32, order: u32 },
    BadHeader(String),
    TooLarge(String),
}

impl RasterError {
    /// The error's text.
    pub open spec fn text(self) -> Seq<char> {
        match self {
            RasterError::BadSync => "not a PWG/CUPS raster stream (bad sync word)"@,
            RasterError::Truncated { page, line } => "truncated raster stream at page "@ + dec(
                page as nat,
            ) + ", line "@ + dec(line as nat),
            RasterError::Unsupported { cspace, bpp, order } => "unsupported raster format: colorspace "@
                + dec(cspace as nat) + ", "@ + dec(bpp as nat) + " bpp, order "@ + dec(order as nat),
            RasterError::BadHeader(s) => "raster header inconsistent: "@ + s@,
            RasterError::TooLarge(s) => "raster exceeds limits: "@ + s@,
        }
    }

    /// The error's text.
    pub fn message(&self) -> (r: String)
        ensures
            r@ == self.text(),
    {
        match self {
            RasterError::BadSync => owned("not a PWG/CUPS raster stream (bad sync word)"),
            RasterError::Truncated { page, line } => {
                let mut r = owned("truncated raster stream at page ");
                push_dec(&mut r, *page as u64);
                r.push_str(", line ");
                push_dec(&mut r, *line as u64);
                r
            },
            RasterError::Unsupported { cspace, bpp, order } => {
                let mut r = owned("unsupported raster format: colorspace ");
                push_dec(&mut r, *cspace as u64);
                r.push_str(", ");
                push_dec(&mut r, *bpp as u64);
                r.push_str(" bpp, order ");
                push_dec(&mut r, *order as u64);
                r
            },
            RasterError::BadHeader(s) => {
                let mut r = owned("raster header inconsistent: ");
                r.push_str(s.as_str());
                r
            },
            RasterError::TooLarge(s) => {
                let mut r = owned("raster exceeds limits: ");
                r.push_str(s.as_str());
                r
            },
        }
    }
}

/// The raster page header is always this size.
pub const HEADER_LEN: usize = 1796;

/// The byte order that a sync word announces.
pub open spec fn spec_sync(b: Seq<u8>) -> Option<Sync> {
    if b.len() < 4 {
        None
    } else if b[0] == 0x52 && b[1] == 0x61 && b[2] == 0x53 && b[3] == 0x32 {
        Some(Sync::V2BigEndian)
    } else if b[0] == 0x32 && b[1] == 0x53 && b[2] == 0x61 && b[3] == 0x52 {
        Some(Sync::V2LittleEndian)
    } else if b[0] == 0x52 && b[1] == 0x61 && b[2] == 0x53 && b[3] == 0x33 {
        Some(Sync::V3BigEndian)
    } else if b[0] == 0x33 && b[1] == 0x53 && b[2] == 0x61 && b[3] == 0x52 {
        Some(Sync::V3LittleEndian)
    } else {
        None
    }
}

/// The byte order that the buffer's sync word announces.
pub fn sync_of(b: &[u8]) -> (r: Option<Sync>)
    ensures
        r == spec_sync(b@),
{
    if b.len() < 4 {
        None
    } else if b[0] == 0x52 && b[1] == 0x61 && b[2] == 0x53 && b[3] == 0x32 {
        Some(Sync::V2BigEndian)
    } else if b[0] == 0x32 && b[1] == 0x53 && b[2] == 0x61 && b[3] == 0x52 {
        Some(Sync::V2LittleEndian)
    } else if b[0] == 0x52 && b[1] == 0x61 && b[2] == 0x53 && b[3] == 0x33 {
        Some(Sync::V3BigEndian)
    } else if b[0] == 0x33 && b[1] == 0x53 && b[2] == 0x61 && b[3] == 0x52 {
        Some(Sync::V3LittleEndian)
    } else {
        None
    }
}

/// Whether the buffer starts with a raster sync word ("RaS2", "2SaR", "RaS3" or "3SaR").
pub fn is_raster(bytes: &[u8]) -> (r: bool)
    ensures
        r == (spec_sync(bytes@) is Some),
{
    sync_of(bytes).is_some()
}

} // verus!
