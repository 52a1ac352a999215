//! Image pipeline: gray pages, to a trimmed and fitted strip, to packed rows.
//!
//! Two stages, so that the job engine can decode and validate a document before the printer is
//! found, and pack for the detected model afterwards:
//!   `prepare(pages, opts)` gives a `GrayStrip` (trim, fit width, sharpen, join, length cap);
//!   `pack(strip, opts, mode, width)` gives a `Packed` (tone, rotate, segment, pack).
//! The kernels that work in floating point (sharpening, Floyd-Steinberg, the thermal curve) are
//! arguments of the stage that uses them.

use vstd::prelude::*;

use crate::text::{chars_of, dec, is_text, lower, lower_chars, owned, push_dec, trim, trim_chars};

pub mod dither;
pub mod dither_laws;

pub mod fit;
pub mod image_laws;
pub mod imagein;
pub mod laws;
pub mod pack_laws;
pub mod packing;
pub mod print_laws;
pub mod strip;
pub mod strip_laws;

pub use self::fit::{fit_width, lines_to_mm};
pub use self::packing::{
    binarize, is_packable, mode_for, pack, pack_padded, preview_png_bytes, Packed, Segment,
};
pub use self::strip::{is_preparable, prepare, GrayStrip};

verus! {

/// Style presets, selected from IPP print-quality or the command line.
#[derive(Debug, Clone, Copy, PartialEq, Eq, Structural)]
pub enum Preset {
    /// Floyd-Steinberg, intensity 0x5D, trim, sharpen, gray dither (print-quality 4, Normal).
    Default,
    /// Floyd-Steinberg, intensity 0x78, trim, sharpen, gray dither (print-quality 5, High).
    Picture,
    /// Threshold, intensity 0x68, trim, no sharpening (print-quality 3, Draft).
    Text,
    /// Threshold, intensity 0x68, no trim (whole sheet miniature), sharpen.
    Document,
}

impl Preset {
    /// The preset of a name or alias, white space and case aside.
    pub open spec fn named(name: Seq<char>) -> Option<Preset> {
        let t = lower(trim(name));
        if t == "default"@ || t == "auto"@ || t == "normal"@ {
            Some(Preset::Default)
        } else if t == "picture"@ || t == "photo"@ || t == "graphics"@ || t == "high"@ {
            Some(Preset::Picture)
        } else if t == "text"@ || t == "draft"@ {
            Some(Preset::Text)
        } else if t == "document"@ || t == "doc"@ {
            Some(Preset::Document)
        } else {
            None
        }
    }

    /// The preset of a name or alias (auto and normal for default; photo, graphics and high for
    /// picture; draft for text; doc for document). Case-insensitive.
    pub fn parse(name: &str) -> (r: Option<Preset>)
        ensures
            r == Preset::named(name@),
    {
        let cs = chars_of(name);
        let low = lower_chars(trim_chars(cs.as_slice()));
        let t = low.as_slice();
        if is_text(t, "default") || is_text(t, "auto") || is_text(t, "normal") {
            Some(Preset::Default)
        } else if is_text(t, "picture") || is_text(t, "photo") || is_text(t, "graphics") || is_text(
            t,
            "high",
        ) {
            Some(Preset::Picture)
        } else if is_text(t, "text") || is_text(t, "draft") {
            Some(Preset::Text)
        } else if is_text(t, "document") || is_text(t, "doc") {
            Some(Preset::Document)
        } else {
            None
        }
    }

    /// The binarization of the preset.
    pub open spec fn spec_dither(self) -> Dither {
        match self {
            Preset::Default | Preset::Picture => Dither::FloydSteinberg,
            Preset::Text | Preset::Document => Dither::Threshold,
        }
    }

    /// The binarization of the preset.
    pub fn dither(self) -> (r: Dither)
        ensures
            r == self.spec_dither(),
    {
        match self {
            Preset::Default => Dither::FloydSteinberg,
            Preset::Picture => Dither::FloydSteinberg,
            Preset::Text => Dither::Threshold,
            Preset::Document => Dither::Threshold,
        }
    }

    /// The burn intensity of the preset.
    pub open spec fn spec_intensity(self) -> u8 {
        match self {
            Preset::Default => 0x5D,
            Preset::Picture => 0x78,
            Preset::Text | Preset::Document => 0x68,
        }
    }

    /// The burn intensity of the preset.
    pub fn intensity(self) -> (r: u8)
        ensures
            r == self.spec_intensity(),
    {
        match self {
            Preset::Default => 0x5D,
            Preset::Picture => 0x78,
            Preset::Text => 0x68,
            Preset::Document => 0x68,
        }
    }

    /// Whether white margins are trimmed on tape.
    pub fn trim(self) -> (r: bool)
        ensures
            r == (self != Preset::Document),
    {
        self != Preset::Document
    }

    /// Whether pages are sharpened after fitting.
    pub fn unsharp(self) -> (r: bool)
        ensures
            r == (self != Preset::Text),
    {
        self != Preset::Text
    }

    /// Whether grayscale tone dithers over the 16 levels (true) or just quantizes (false).
    pub fn gray_dither(self) -> (r: bool)
        ensures
            r == (self == Preset::Default || self == Preset::Picture),
    {
        self == Preset::Default || self == Preset::Picture
    }

    /// The preset's name.
    pub open spec fn text(self) -> &'static str {
        match self {
            Preset::Default => "default",
            Preset::Picture => "picture",
            Preset::Text => "text",
            Preset::Document => "document",
        }
    }

    /// The preset's name.
    pub fn name(self) -> (r: &'static str)
        ensures
            r == self.text(),
    {
        match self {
            Preset::Default => "default",
            Preset::Picture => "picture",
            Preset::Text => "text",
            Preset::Document => "document",
        }
    }
}

/// Tone axis: 1-bit, or 16-level grayscale (only on models with 4 bits per pixel).
#[derive(Debug, Clone, Copy, PartialEq, Eq, Structural)]
pub enum Tone {
    BlackWhite,
    Grayscale,
}

/// `_`, space and `-` are left out of tone names.
pub open spec fn is_joiner(c: char) -> bool {
    c == '_' || c == ' ' || c == '-'
}

/// `s` without its `_`, spaces and `-`.
pub open spec fn without_joiners(s: Seq<char>) -> Seq<char>
    decreases s.len(),
{
    if s.len() == 0 {
        Seq::empty()
    } else if is_joiner(s.last()) {
        without_joiners(s.drop_last())
    } else {
        without_joiners(s.drop_last()).push(s.last())
    }
}

fn drop_joiners(s: &[char]) -> (r: Vec<char>)
    ensures
        r@ == without_joiners(s@),
{
    let mut r: Vec<char> = Vec::new();
    let mut i: usize = 0;
    while i < s.len()
        invariant
            i <= s.len(),
            r@ == without_joiners(s@.take(i as int)),
        decreases s.len() - i,
    {
        let c = s[i];
        assert(s@.take(i as int + 1).drop_last() == s@.take(i as int));
        if !(c == '_' || c == ' ' || c == '-') {
            r.push(c);
        }
        i += 1;
    }
    assert(s@.take(s@.len() as int) == s@);
    r
}

impl Tone {
    /// The tone of a name or alias; case, joiners and outer white space aside.
    pub open spec fn named(name: Seq<char>) -> Option<Tone> {
        let t = without_joiners(lower(trim(name)));
        if t == "blackwhite"@ || t == "bw"@ || t == "blackandwhite"@ || t == "mono"@ || t
            == "monochrome"@ || t == "bilevel"@ {
            Some(Tone::BlackWhite)
        } else if t == "grayscale"@ || t == "gray"@ || t == "grey"@ || t == "greyscale"@ {
            Some(Tone::Grayscale)
        } else {
            None
        }
    }

    /// The tone of a name or alias (bw, mono, monochrome, bilevel, gray, grey, greyscale).
    pub fn parse(name: &str) -> (r: Option<Tone>)
        ensures
            r == Tone::named(name@),
    {
        let cs = chars_of(name);
        let low = lower_chars(trim_chars(cs.as_slice()));
        let bare = drop_joiners(low.as_slice());
        let t = bare.as_slice();
        if is_text(t, "blackwhite") || is_text(t, "bw") || is_text(t, "blackandwhite") || is_text(
            t,
            "mono",
        ) || is_text(t, "monochrome") || is_text(t, "bilevel") {
            Some(Tone::BlackWhite)
        } else if is_text(t, "grayscale") || is_text(t, "gray") || is_text(t, "grey") || is_text(
            t,
            "greyscale",
        ) {
            Some(Tone::Grayscale)
        } else {
            None
        }
    }

    /// The tone's name.
    pub open spec fn text(self) -> &'static str {
        match self {
            Tone::BlackWhite => "blackwhite",
            Tone::Grayscale => "grayscale",
        }
    }

    /// The tone's name.
    pub fn name(self) -> (r: &'static str)
        ensures
            r == self.text(),
    {
        match self {
            Tone::BlackWhite => "blackwhite",
            Tone::Grayscale => "grayscale",
        }
    }
}

/// 1-bit binarization method.
#[derive(Debug, Clone, Copy, PartialEq, Eq, Structural)]
pub enum Dither {
    FloydSteinberg,
    Atkinson,
    /// gray < 180 is black
    Threshold,
    /// gray < mean is black
    Mean,
    /// gray < 128 is black
    Plain,
}

/// `s` with every `_` turned into `-`.
pub open spec fn dashed(s: Seq<char>) -> Seq<char> {
    Seq::new(
        s.len(),
        |i: int|
            if s[i] == '_' {
                '-'
            } else {
                s[i]
            },
    )
}

fn dash_chars(s: &[char]) -> (r: Vec<char>)
    ensures
        r@ == dashed(s@),
{
    let mut r: Vec<char> = Vec::new();
    let mut i: usize = 0;
    while i < s.len()
        invariant
            i <= s.len(),
            r@ == dashed(s@.take(i as int)),
        decreases s.len() - i,
    {
        r.push(
            if s[i] == '_' {
                '-'
            } else {
                s[i]
            },
        );
        i += 1;
        assert(r@ =~= dashed(s@.take(i as int)));
    }
    assert(s@.take(s@.len() as int) == s@);
    r
}

impl Dither {
    /// The method of a name; case, outer white space and `_` for `-` aside.
    pub open spec fn named(name: Seq<char>) -> Option<Dither> {
        let t = dashed(lower(trim(name)));
        if t == "floyd-steinberg"@ || t == "fs"@ || t == "floydsteinberg"@ {
            Some(Dither::FloydSteinberg)
        } else if t == "atkinson"@ {
            Some(Dither::Atkinson)
        } else if t == "threshold"@ {
            Some(Dither::Threshold)
        } else if t == "mean-threshold"@ || t == "mean"@ {
            Some(Dither::Mean)
        } else if t == "none"@ {
            Some(Dither::Plain)
        } else {
            None
        }
    }

    /// The method of a name.
    pub fn parse(name: &str) -> (r: Option<Dither>)
        ensures
            r == Dither::named(name@),
    {
        let cs = chars_of(name);
        let low = lower_chars(trim_chars(cs.as_slice()));
        let bare = dash_chars(low.as_slice());
        let t = bare.as_slice();
        if is_text(t, "floyd-steinberg") || is_text(t, "fs") || is_text(t, "floydsteinberg") {
            Some(Dither::FloydSteinberg)
        } else if is_text(t, "atkinson") {
            Some(Dither::Atkinson)
        } else if is_text(t, "threshold") {
            Some(Dither::Threshold)
        } else if is_text(t, "mean-threshold") || is_text(t, "mean") {
            Some(Dither::Mean)
        } else if is_text(t, "none") {
            Some(Dither::Plain)
        } else {
            None
        }
    }

    /// The method's name.
    pub open spec fn text(self) -> &'static str {
        match self {
            Dither::FloydSteinberg => "floyd-steinberg",
            Dither::Atkinson => "atkinson",
            Dither::Threshold => "threshold",
            Dither::Mean => "mean-threshold",
            Dither::Plain => "none",
        }
    }

    /// The method's name.
    pub fn name(self) -> (r: &'static str)
        ensures
            r == self.text(),
    {
        match self {
            Dither::FloydSteinberg => "floyd-steinberg",
            Dither::Atkinson => "atkinson",
            Dither::Threshold => "threshold",
            Dither::Mean => "mean-threshold",
            Dither::Plain => "none",
        }
    }
}

/// How to lay pages out on the tape.
#[derive(Debug, Clone, Copy, PartialEq, Eq, Structural)]
pub enum Layout {
    /// Decide from the page: at most 60 mm wide is tape, else a sheet.
    Auto,
    /// Trim white on all sides, then fit the width (drawings, text on the roll).
    Tape,
    /// No trim, shrink the whole page to the head width (A4 / Letter miniature).
    Sheet,
}

/// How a document is rendered.
#[derive(Debug, Clone, Copy)]
pub struct RenderOptions {
    pub preset: Preset,
    pub tone: Tone,
    pub layout: Layout,
    pub dither_override: Option<Dither>,
    pub trim_override: Option<bool>,
    pub intensity_override: Option<u8>,
    /// Rotate the whole strip by half a turn before packing (the head prints "upside down").
    pub rotate_180: bool,
    /// Head width that the strip is prepared for (384 for every known model).
    pub width_px: u32,
    /// Hard cap on the total strip length; exceeding it is an error, never a truncation.
    pub max_lines_total: u32,
    /// Most lines per print request.
    pub max_lines_per_request: u32,
    /// White lines inserted between pages.
    pub page_gap_lines: u32,
}

impl Default for RenderOptions {
    fn default() -> (r: Self)
        ensures
            r.preset == Preset::Default,
            r.tone == Tone::BlackWhite,
            r.layout == Layout::Auto,
            r.dither_override is None,
            r.trim_override is None,
            r.intensity_override is None,
            r.rotate_180,
            r.width_px == 384,
            r.max_lines_total == 8000,
            r.max_lines_per_request == 4000,
            r.page_gap_lines == 24,
    {
        RenderOptions {
            preset: Preset::Default,
            tone: Tone::BlackWhite,
            layout: Layout::Auto,
            dither_override: None,
            trim_override: None,
            intensity_override: None,
            rotate_180: true,
            width_px: 384,
            max_lines_total: 8000,
            max_lines_per_request: 4000,
            page_gap_lines: 24,
        }
    }
}

impl RenderOptions {
    /// The burn intensity: the override, or that of the preset.
    pub open spec fn spec_intensity(self) -> u8 {
        match self.intensity_override {
            Some(i) => i,
            None => self.preset.spec_intensity(),
        }
    }

    /// The burn intensity: the override, or that of the preset.
    pub fn intensity(&self) -> (r: u8)
        ensures
            r == self.spec_intensity(),
    {
        match self.intensity_override {
            Some(i) => i,
            None => self.preset.intensity(),
        }
    }
}

/// What can go wrong in rendering.
#[derive(Debug)]
pub enum RenderError {
    Empty,
    TooLong { lines: u32, mm: u32, max_lines: u32, max_mm: u32 },
    Image(String),
    Internal(String),
}

/// The contents of a [`RenderError`].
pub enum RenderErrorView {
    Empty,
    TooLong { lines: u32, mm: u32, max_lines: u32, max_mm: u32 },
    Image(Seq<char>),
    Internal(Seq<char>),
}

impl View for RenderError {
    type V = RenderErrorView;

    open spec fn view(&self) -> RenderErrorView {
        match self {
            RenderError::Empty => RenderErrorView::Empty,
            RenderError::TooLong { lines, mm, max_lines, max_mm } => RenderErrorView::TooLong {
                lines: *lines,
                mm: *mm,
                max_lines: *max_lines,
                max_mm: *max_mm,
            },
            RenderError::Image(s) => RenderErrorView::Image(s@),
            RenderError::Internal(s) => RenderErrorView::Internal(s@),
        }
    }
}

impl RenderErrorView {
    /// The error's text.
    pub open spec fn text(self) -> Seq<char> {
        match self {
            RenderErrorView::Empty => "nothing to print (no pages)"@,
            RenderErrorView::TooLong { lines, mm, max_lines, max_mm } => "print would be "@ + dec(
                lines as nat,
            ) + " lines ("@ + dec(mm as nat) + " mm) long; limit is "@ + dec(max_lines as nat)
                + " lines ("@ + dec(max_mm as nat)
                + " mm) — split the document or pick a shorter page size"@,
            RenderErrorView::Image(s) => "unsupported image: "@ + s,
            RenderErrorView::Internal(s) => "internal render error: "@ + s,
        }
    }
}

impl RenderError {
    /// The error's text.
    pub fn message(&self) -> (r: String)
        ensures
            r@ == self@.text(),
    {
        match self {
            RenderError::Empty => owned("nothing to print (no pages)"),
            RenderError::TooLong { lines, mm, max_lines, max_mm } => {
                let mut r = owned("print would be ");
                push_dec(&mut r, *lines as u64);
                r.push_str(" lines (");
                push_dec(&mut r, *mm as u64);
                r.push_str(" mm) long; limit is ");
                push_dec(&mut r, *max_lines as u64);
                r.push_str(" lines (");
                push_dec(&mut r, *max_mm as u64);
                r.push_str(" mm) — split the document or pick a shorter page size");
                r
            },
            RenderError::Image(s) => {
                let mut r = owned("unsupported image: ");
                r.push_str(s.as_str());
                r
            },
            RenderError::Internal(s) => {
                let mut r = owned("internal render error: ");
                r.push_str(s.as_str());
                r
            },
        }
    }
}

/// Pixels darker than this count as ink.
pub const TRIM_WHITE: u8 = 245;

/// White kept around the ink at 203 dpi.
pub const TRIM_PAD: u32 = 8;

/// A page whose width is at most this many millimetres is tape (roll) media.
pub const TAPE_MAX_WIDTH_MM: u32 = 60;

/// Minimum print length in lines of the MXW01 protocol.
pub const MIN_LINES: u32 = 90;

/// Hard protocol limit on lines per print request (the line count is 16 bits).
pub const MAX_LINES_PER_REQUEST_HW: u32 = 65535;

/// Row count of the strip produced for an all-white document.
pub const BLANK_STRIP_LINES: u32 = 16;

} // verus!
