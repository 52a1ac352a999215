//! `print`: how a file is rendered, and what is said of it.

use vstd::prelude::*;

use crate::config::PrintArgs;
use crate::printer::PrintReport;
use crate::render::{Dither, Layout, Preset, RenderOptions, Tone};
use crate::text::{
    chars_of, dec, is_text, lower, lower_chars, owned, push_dec, trim, trim_chars,
};

verus! {

/// The preset and tone of a quality.
pub open spec fn quality_style(quality: Seq<char>) -> (Preset, Tone) {
    let q = lower(trim(quality));
    if q == "draft"@ || q == "text"@ {
        (Preset::Text, Tone::BlackWhite)
    } else if q == "high"@ || q == "picture"@ || q == "photo"@ {
        (Preset::Picture, Tone::Grayscale)
    } else {
        (Preset::Default, Tone::BlackWhite)
    }
}

fn style_of(quality: &str) -> (r: (Preset, Tone))
    ensures
        r == quality_style(quality@),
{
    let cs = chars_of(quality);
    let low = lower_chars(trim_chars(cs.as_slice()));
    let q = low.as_slice();
    if is_text(q, "draft") || is_text(q, "text") {
        (Preset::Text, Tone::BlackWhite)
    } else if is_text(q, "high") || is_text(q, "picture") || is_text(q, "photo") {
        (Preset::Picture, Tone::Grayscale)
    } else {
        (Preset::Default, Tone::BlackWhite)
    }
}

/// How a file is rendered.
pub open spec fn spec_options(a: PrintArgs, is_image: bool) -> RenderOptions {
    let (preset, tone) = quality_style(a.quality@);
    RenderOptions {
        preset,
        tone: if a.bi_level {
            Tone::BlackWhite
        } else {
            tone
        },
        layout: if a.sheet {
            Layout::Sheet
        } else if is_image {
            Layout::Tape
        } else {
            Layout::Auto
        },
        dither_override: match a.dither {
            Some(d) => Dither::named(d@),
            None => None,
        },
        trim_override: None,
        intensity_override: a.intensity,
        rotate_180: !a.top_first,
        width_px: 384,
        max_lines_total: a.max_lines,
        max_lines_per_request: 4000,
        page_gap_lines: 24,
    }
}

/// How a file is rendered. `is_image`: it is a picture, and no raster.
pub fn print_options(a: &PrintArgs, is_image: bool) -> (r: RenderOptions)
    ensures
        r == spec_options(*a, is_image),
{
    let (preset, tone) = style_of(a.quality.as_str());
    let mut o = RenderOptions::default();
    o.preset = preset;
    o.tone = if a.bi_level {
        Tone::BlackWhite
    } else {
        tone
    };
    o.layout = if a.sheet {
        Layout::Sheet
    } else if is_image {
        Layout::Tape
    } else {
        Layout::Auto
    };
    o.dither_override = match &a.dither {
        Some(d) => Dither::parse(d.as_str()),
        None => None,
    };
    o.intensity_override = a.intensity;
    o.rotate_180 = !a.top_first;
    o.max_lines_total = a.max_lines;
    o
}

/// What is said of a print.
pub open spec fn printed_text(rep: PrintReport) -> Seq<char> {
    "printed on "@ + rep.model@ + " ("@ + dec(rep.lines as nat) + " lines, MTU "@ + dec(
        (match rep.mtu {
            Some(m) => m as nat,
            None => 0,
        }),
    ) + (if rep.complete_confirmed {
        ""@
    } else {
        ", unconfirmed"@
    }) + ")"@
}

/// What is said of a print.
pub fn printed_line(rep: &PrintReport) -> (r: String)
    ensures
        r@ == printed_text(*rep),
{
    let mut r = owned("printed on ");
    r.push_str(rep.model.as_str());
    r.push_str(" (");
    push_dec(&mut r, rep.lines as u64);
    r.push_str(" lines, MTU ");
    push_dec(
        &mut r,
        match rep.mtu {
            Some(m) => m as u64,
            None => 0,
        },
    );
    r.push_str(
        if rep.complete_confirmed {
            ""
        } else {
            ", unconfirmed"
        },
    );
    r.push_str(")");
    r
}

} // verus!
