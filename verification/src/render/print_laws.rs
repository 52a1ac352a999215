//! From the pixels of a strip to the dots that are burnt.

use vstd::prelude::*;

use crate::protocol::{pow2, PrintMode};
use crate::render::dither_laws::{lemma_dots_burn, lemma_levels_split_grays, lemma_thresholds};
use crate::render::pack_laws::{full_request, lemma_packed_pixels};
use crate::render::packing::{
    are_levels, bit_levels, dither_of, is_binarized, is_pack_of, pack_error, packs_via, request_limit, Packed,
};
use crate::render::{Dither, GrayStrip, Preset, RenderErrorView, RenderOptions};

verus! {

/// Text in black and white burns where it is darker than 180, and nowhere else: what is sent for column x of line t
/// is set exactly where the strip is that dark there, or, upside down, at the opposite place.
pub proof fn lemma_text_burns_where_dark<
    F: Fn(&[u8], usize, usize) -> Vec<bool>,
    C: Fn(&[u8], Preset) -> Vec<u8>,
    S: Fn(&[u8], usize, usize) -> Vec<u8>,
>(
    strip: GrayStrip,
    opts: RenderOptions,
    width_px: u32,
    pad: bool,
    floyd_steinberg: F,
    curve: C,
    serpentine: S,
    p: Packed,
    t: int,
    x: int,
)
    requires
        is_pack_of(
            strip,
            opts,
            PrintMode::Mono,
            width_px,
            pad,
            floyd_steinberg,
            curve,
            serpentine,
            p,
        ),
        strip.width == width_px,
        strip.data@.len() == strip.width * strip.height,
        opts.dither_override is None,
        opts.preset == Preset::Text || opts.preset == Preset::Document,
        0 <= t < strip.height,
        0 <= x < width_px,
    ensures
        ({
            let max = request_limit(opts);
            let row = t / max * (full_request(max, pad) * p.row_bytes) + t % max * p.row_bytes;
            let gray = if opts.rotate_180 {
                strip.data@[width_px * strip.height - 1 - (t * width_px + x)]
            } else {
                strip.data@[t * width_px + x]
            };
            &&& 0 <= row + x / 8 < p.data@.len()
            &&& ((p.data@[row + x / 8] as int / pow2(x % 8)) % 2 == 1) == (gray < 180)
        }),
{
    let w = width_px as usize;
    let h = strip.height as int;
    let (gray, levels) = choose|gray: Seq<u8>, levels: Seq<u8>| #[trigger]
        packs_via(
            strip,
            opts,
            PrintMode::Mono,
            width_px,
            pad,
            floyd_steinberg,
            curve,
            serpentine,
            p,
            gray,
            levels,
        );
    assert(gray == strip.data@);
    let bits = choose|bits: Seq<bool>| #[trigger]
        is_binarized(gray, w, h as usize, dither_of(opts), floyd_steinberg, bits) && levels == bit_levels(bits);
    assert(dither_of(opts) == Dither::Threshold);
    let at = t * width_px + x;
    assert(0 <= at < width_px * h) by (nonlinear_arith)
        requires
            at == t * width_px + x,
            0 <= t < h,
            0 <= x < width_px,
    ;
    let i = if opts.rotate_180 {
        width_px * h - 1 - at
    } else {
        at
    };
    lemma_thresholds(gray, w, h as usize, floyd_steinberg, bits, i);
    lemma_dots_burn(bits, i);
    assert forall|k: int| 0 <= k < levels.len() implies #[trigger] levels[k] <= 15 by {
        lemma_dots_burn(bits, k);
    }
    lemma_packed_pixels(p, levels, h, opts, PrintMode::Mono, width_px, pad, t, x);
}

/// In gray, pictures and the default go through the dither over sixteen levels; text and documents do not: each
/// pixel burns by how dark the curve makes it.
pub proof fn lemma_gray_levels<
    F: Fn(&[u8], usize, usize) -> Vec<bool>,
    C: Fn(&[u8], Preset) -> Vec<u8>,
    S: Fn(&[u8], usize, usize) -> Vec<u8>,
>(
    gray: Seq<u8>,
    w: usize,
    h: usize,
    opts: RenderOptions,
    floyd_steinberg: F,
    curve: C,
    serpentine: S,
    levels: Seq<u8>,
)
    requires
        are_levels(gray, w, h, opts, PrintMode::Gray4, floyd_steinberg, curve, serpentine, levels),
    ensures
        opts.preset == Preset::Text || opts.preset == Preset::Document ==> exists|s: &[u8], c: Vec<u8>| #[trigger]
            curve.ensures((s, opts.preset), c) && s@ == gray && levels.len() == c@.len() && forall|i: int|
            0 <= i < levels.len() ==> #[trigger] levels[i] == (255 - c@[i]) / 16,
        opts.preset == Preset::Default || opts.preset == Preset::Picture ==> exists|c: &[u8], v: Vec<u8>| #[trigger]
            serpentine.ensures((c, w, h), v) && v@ == levels,
{
    let (s, c) = choose|s: &[u8], c: Vec<u8>| #[trigger]
        curve.ensures((s, opts.preset), c) && s@ == gray && if opts.preset == Preset::Default || opts.preset
            == Preset::Picture {
            exists|d: &[u8], v: Vec<u8>| #[trigger] serpentine.ensures((d, w, h), v) && d@ == c@ && v@ == levels
        } else {
            levels == crate::render::dither::spec_quantize_16(c@)
        };
    assert(curve.ensures((s, opts.preset), c));
    if opts.preset == Preset::Text || opts.preset == Preset::Document {
        assert forall|i: int| 0 <= i < levels.len() implies #[trigger] levels[i] == (255 - c@[i]) / 16 by {
            lemma_levels_split_grays(c@, i);
        }
    }
}

/// A strip can be packed where it has pixels, as many as its size says, and the head has a width.
pub proof fn lemma_packable_strips(strip: GrayStrip, width_px: u32)
    ensures
        pack_error(strip, width_px) is None <==> strip.width > 0 && strip.height > 0 && width_px > 0
            && strip.data@.len() == strip.width * strip.height,
        strip.height == 0 ==> pack_error(strip, width_px) == Some(RenderErrorView::Empty),
{
}

} // verus!
