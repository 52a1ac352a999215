//! Stage two: a gray strip to packed rows for a print head.

use std::ops::Range;

use vstd::prelude::*;
use vstd::slice::slice_subrange;

use crate::protocol::{pack_bits, spec_pack_bits, PrintMode};
use crate::raster::GrayPage;
use crate::render::dither::{
    atkinson, mean_threshold, quantize_16, spec_atkinson, spec_mean_threshold, spec_quantize_16,
    spec_threshold, threshold,
};
use crate::render::fit::{can_fit, fit_height, fit_width, fits, height_for, is_fit};
use crate::render::strip::GrayStrip;
use crate::render::{
    Dither, Preset, RenderError, RenderErrorView, RenderOptions, Tone, MAX_LINES_PER_REQUEST_HW,
    MIN_LINES,
};
use crate::text::owned;

verus! {

/// One print request worth of packed rows.
#[derive(Debug, PartialEq, Eq)]
pub struct Segment {
    pub lines: u32,
    /// Byte range into `Packed::data` (already padded to the family minimum, whole rows).
    pub bytes: Range<usize>,
}

/// Packed image data ready for a model driver.
///
/// `segments` are in the order of sending: the strip is rotated as a whole, then cut into
/// consecutive slices of the rotated buffer. Sending them one after another reproduces exactly the
/// row order of a single request.
#[derive(Debug, PartialEq, Eq)]
pub struct Packed {
    pub mode: PrintMode,
    pub width: u32,
    pub lines: u32,
    pub row_bytes: usize,
    pub data: Vec<u8>,
    /// The first element is sent first.
    pub segments: Vec<Segment>,
    /// What will come out of the printer, unrotated (0 black, 255 white).
    pub preview: GrayPage,
}

/// The wire mode of a tone on a model.
pub open spec fn spec_mode_for(tone: Tone, grayscale_4bpp: bool) -> PrintMode {
    if tone == Tone::Grayscale && grayscale_4bpp {
        PrintMode::Gray4
    } else {
        PrintMode::Mono
    }
}

/// Chooses the wire mode from the tone and the model's capability.
pub fn mode_for(tone: Tone, grayscale_4bpp: bool) -> (r: PrintMode)
    ensures
        r == spec_mode_for(tone, grayscale_4bpp),
{
    if tone == Tone::Grayscale && grayscale_4bpp {
        PrintMode::Gray4
    } else {
        PrintMode::Mono
    }
}

// ------------------------------------------------------------------ tone

/// `out` is a binarization of the image by method `d`; `true` = black.
pub open spec fn is_binarized<F: Fn(&[u8], usize, usize) -> Vec<bool>>(
    gray: Seq<u8>,
    w: usize,
    h: usize,
    d: Dither,
    floyd_steinberg: F,
    out: Seq<bool>,
) -> bool {
    match d {
        Dither::FloydSteinberg => exists|s: &[u8], v: Vec<bool>| #[trigger]
            floyd_steinberg.ensures((s, w, h), v) && s@ == gray && v@ == out,
        Dither::Atkinson => out == spec_atkinson(gray, w as int, h as int),
        Dither::Threshold => out == spec_threshold(gray, 180),
        Dither::Mean => out == spec_mean_threshold(gray),
        Dither::Plain => out == spec_threshold(gray, 128),
    }
}

/// Turns gray into black and white; `true` = black. `floyd_steinberg` is the error-diffusion kernel.
pub fn binarize<F: Fn(&[u8], usize, usize) -> Vec<bool>>(
    gray: &[u8],
    width: usize,
    height: usize,
    d: Dither,
    floyd_steinberg: F,
) -> (r: Vec<bool>)
    requires
        gray@.len() == width * height,
        floyd_steinberg.requires((gray, width, height)),
    ensures
        is_binarized(gray@, width, height, d, floyd_steinberg, r@),
{
    match d {
        Dither::FloydSteinberg => {
            let r = floyd_steinberg(gray, width, height);
            assert(floyd_steinberg.ensures((gray, width, height), r));
            r
        },
        Dither::Atkinson => atkinson(gray, width, height),
        Dither::Threshold => threshold(gray, 180),
        Dither::Mean => mean_threshold(gray),
        Dither::Plain => threshold(gray, 128),
    }
}

/// Black and white as burn levels: 15 for black, 0 for white.
pub open spec fn bit_levels(bits: Seq<bool>) -> Seq<u8> {
    Seq::new(
        bits.len(),
        |i: int|
            if bits[i] {
                15u8
            } else {
                0u8
            },
    )
}

/// What the burn levels look like on paper: level 15 is black (0), level 0 white (255).
pub open spec fn level_grays(levels: Seq<u8>) -> Seq<u8> {
    Seq::new(levels.len(), |i: int| (255 - 17 * levels[i]) as u8)
}

/// The binarization in force: the override, or that of the preset.
pub open spec fn dither_of(opts: RenderOptions) -> Dither {
    match opts.dither_override {
        Some(d) => d,
        None => opts.preset.spec_dither(),
    }
}

/// `levels` are burn levels (0 white to 15 black) of the gray image for a wire mode.
pub open spec fn are_levels<
    F: Fn(&[u8], usize, usize) -> Vec<bool>,
    C: Fn(&[u8], Preset) -> Vec<u8>,
    S: Fn(&[u8], usize, usize) -> Vec<u8>,
>(
    gray: Seq<u8>,
    w: usize,
    h: usize,
    opts: RenderOptions,
    mode: PrintMode,
    floyd_steinberg: F,
    curve: C,
    serpentine: S,
    levels: Seq<u8>,
) -> bool {
    match mode {
        PrintMode::Mono => exists|bits: Seq<bool>| #[trigger]
            is_binarized(
                gray,
                w,
                h,
                dither_of(opts),
                floyd_steinberg,
                bits,
            ) && levels == bit_levels(bits),
        PrintMode::Gray4 => exists|s: &[u8], curved: Vec<u8>| #[trigger]
            curve.ensures((s, opts.preset), curved) && s@ == gray && if opts.preset
                == Preset::Default || opts.preset == Preset::Picture {
                exists|c: &[u8], v: Vec<u8>| #[trigger]
                    serpentine.ensures((c, w, h), v) && c@ == curved@ && v@ == levels
            } else {
                levels == spec_quantize_16(curved@)
            },
    }
}

/// The kernels accept every image, and keep its size; the dither over 16 levels gives levels.
pub open spec fn kernels_ok<
    F: Fn(&[u8], usize, usize) -> Vec<bool>,
    C: Fn(&[u8], Preset) -> Vec<u8>,
    S: Fn(&[u8], usize, usize) -> Vec<u8>,
>(floyd_steinberg: F, curve: C, serpentine: S) -> bool {
    &&& forall|s: &[u8], w: usize, h: usize|
        s@.len() == w * h ==> #[trigger] floyd_steinberg.requires((s, w, h))
    &&& forall|s: &[u8], p: Preset| #[trigger] curve.requires((s, p))
    &&& forall|s: &[u8], w: usize, h: usize|
        s@.len() == w * h ==> #[trigger] serpentine.requires((s, w, h))
    &&& forall|s: &[u8], w: usize, h: usize, v: Vec<bool>|
        s@.len() == w * h && #[trigger] floyd_steinberg.ensures((s, w, h), v) ==> v@.len()
            == s@.len()
    &&& forall|s: &[u8], p: Preset, v: Vec<u8>| #[trigger]
        curve.ensures((s, p), v) ==> v@.len() == s@.len()
    &&& forall|s: &[u8], w: usize, h: usize, v: Vec<u8>|
        s@.len() == w * h && #[trigger] serpentine.ensures((s, w, h), v) ==> v@.len() == s@.len()
            && forall|i: int| 0 <= i < v@.len() ==> #[trigger] v@[i] <= 15
}

fn to_levels(bits: &Vec<bool>) -> (r: Vec<u8>)
    ensures
        r@ == bit_levels(bits@),
{
    let mut r: Vec<u8> = Vec::new();
    let mut i: usize = 0;
    while i < bits.len()
        invariant
            i <= bits.len(),
            r@ == bit_levels(bits@.take(i as int)),
        decreases bits.len() - i,
    {
        r.push(
            if bits[i] {
                15
            } else {
                0
            },
        );
        i += 1;
        assert(r@ =~= bit_levels(bits@.take(i as int)));
    }
    assert(bits@.take(bits@.len() as int) == bits@);
    r
}

fn to_grays(levels: &Vec<u8>) -> (r: Vec<u8>)
    requires
        forall|i: int| 0 <= i < levels@.len() ==> #[trigger] levels@[i] <= 15,
    ensures
        r@ == level_grays(levels@),
{
    let mut r: Vec<u8> = Vec::new();
    let mut i: usize = 0;
    while i < levels.len()
        invariant
            i <= levels.len(),
            forall|i: int| 0 <= i < levels@.len() ==> #[trigger] levels@[i] <= 15,
            r@ == level_grays(levels@.take(i as int)),
        decreases levels.len() - i,
    {
        assert(levels@[i as int] <= 15);
        r.push(255 - 17 * levels[i]);
        i += 1;
        assert(r@ =~= level_grays(levels@.take(i as int)));
    }
    assert(levels@.take(levels@.len() as int) == levels@);
    r
}

fn make_levels<
    F: Fn(&[u8], usize, usize) -> Vec<bool>,
    C: Fn(&[u8], Preset) -> Vec<u8>,
    S: Fn(&[u8], usize, usize) -> Vec<u8>,
>(
    gray: &Vec<u8>,
    w: usize,
    h: usize,
    opts: &RenderOptions,
    mode: PrintMode,
    floyd_steinberg: F,
    curve: C,
    serpentine: S,
) -> (r: Vec<u8>)
    requires
        gray@.len() == w * h,
        kernels_ok(floyd_steinberg, curve, serpentine),
    ensures
        are_levels(gray@, w, h, *opts, mode, floyd_steinberg, curve, serpentine, r@),
        r@.len() == gray@.len(),
        forall|i: int| 0 <= i < r@.len() ==> #[trigger] r@[i] <= 15,
{
    match mode {
        PrintMode::Mono => {
            let d = match opts.dither_override {
                Some(d) => d,
                None => opts.preset.dither(),
            };
            let bits = binarize(gray.as_slice(), w, h, d, floyd_steinberg);
            assert(bits@.len() == gray@.len());
            to_levels(&bits)
        },
        PrintMode::Gray4 => {
            let g: &[u8] = gray.as_slice();
            let curved = curve(g, opts.preset);
            assert(curve.ensures((g, opts.preset), curved));
            let c: &[u8] = curved.as_slice();
            if opts.preset.gray_dither() {
                let levels = serpentine(c, w, h);
                assert(serpentine.ensures((c, w, h), levels));
                levels
            } else {
                quantize_16(c)
            }
        },
    }
}

// ------------------------------------------------------------------ rows

/// A row of burn levels as bytes: 1 bit per pixel, set from level 8 up, the leftmost pixel lowest; or
/// 4 bits per pixel, even columns high.
pub open spec fn row_bytes_of(mode: PrintMode, row: Seq<u8>) -> Seq<u8> {
    match mode {
        PrintMode::Mono => spec_pack_bits(Seq::new(row.len(), |x: int| row[x] >= 8)),
        PrintMode::Gray4 => Seq::new(
            ((row.len() + 1) / 2) as nat,
            |k: int|
                (16 * (row[2 * k] % 16) + if 2 * k + 1 < row.len() {
                    (row[2 * k + 1] % 16) as int
                } else {
                    0
                }) as u8,
        ),
    }
}

fn pack_row(mode: PrintMode, row: &[u8], out: &mut Vec<u8>)
    ensures
        final(out)@ == old(out)@ + row_bytes_of(mode, row@),
{
    match mode {
        PrintMode::Mono => {
            let mut bits: Vec<bool> = Vec::new();
            let mut x: usize = 0;
            while x < row.len()
                invariant
                    x <= row.len(),
                    bits@ == Seq::new(x as nat, |x: int| row@[x] >= 8),
                decreases row.len() - x,
            {
                bits.push(row[x] >= 8);
                x += 1;
                assert(bits@ =~= Seq::new(x as nat, |x: int| row@[x] >= 8));
            }
            let mut packed = pack_bits(bits.as_slice());
            out.append(&mut packed);
        },
        PrintMode::Gray4 => {
            let n: usize = row.len() / 2 + row.len() % 2;
            let mut k: usize = 0;
            while k < n
                invariant
                    k <= n,
                    n == row.len() / 2 + row.len() % 2,
                    out@ == old(out)@ + row_bytes_of(mode, row@).take(k as int),
                    mode == PrintMode::Gray4,
                decreases n - k,
            {
                let hi: u8 = row[2 * k] % 16;
                let lo: u8 = if k < row.len() / 2 {
                    row[2 * k + 1] % 16
                } else {
                    0
                };
                out.push(16 * hi + lo);
                assert(row_bytes_of(mode, row@)[k as int] == 16 * hi + lo);
                assert(out@ =~= old(out)@ + row_bytes_of(mode, row@).take(k as int + 1));
                k += 1;
            }
            assert(row_bytes_of(mode, row@).take(n as int) =~= row_bytes_of(mode, row@));
        },
    }
}

/// Rows `y` to `y + n - 1` of a `w` wide image of levels, as bytes.
pub open spec fn rows_bytes(mode: PrintMode, levels: Seq<u8>, w: int, y: int, n: nat) -> Seq<u8>
    decreases n,
{
    if n == 0 {
        Seq::empty()
    } else {
        rows_bytes(mode, levels, w, y, (n - 1) as nat) + row_bytes_of(
            mode,
            levels.subrange((y + n - 1) * w, (y + n - 1) * w + w),
        )
    }
}

/// Every row takes the same number of bytes.
pub proof fn lemma_rows_len(mode: PrintMode, levels: Seq<u8>, w: int, y: int, n: nat)
    requires
        0 <= w,
        0 <= y,
        (y + n) * w <= levels.len(),
    ensures
        rows_bytes(mode, levels, w, y, n).len() == n * mode.spec_bytes_per_row(w),
    decreases n,
{
    if n > 0 {
        assert((y + n) * w == (y + n - 1) * w + w && 0 <= (y + n - 1) * w) by (nonlinear_arith)
            requires
                0 <= w,
                0 <= y,
                n > 0,
        ;
        lemma_rows_len(mode, levels, w, y, (n - 1) as nat);
        let rb = mode.spec_bytes_per_row(w);
        assert((n - 1) * rb + rb == n * rb) by (nonlinear_arith);
    } else {
        assert(0 * mode.spec_bytes_per_row(w) == 0) by (nonlinear_arith);
    }
}

/// The lines of the request that starts at line `y`.
pub open spec fn take_at(h: int, max: int, y: int) -> int {
    if h - y < max {
        h - y
    } else {
        max
    }
}

/// The lines of a request of `take` lines after padding.
pub open spec fn request_lines(take: int, pad: bool) -> int {
    if pad && take < MIN_LINES {
        MIN_LINES as int
    } else {
        take
    }
}

/// `n` zero bytes.
pub open spec fn zeros(n: int) -> Seq<u8> {
    Seq::new(n as nat, |i: int| 0u8)
}

/// The bytes of all requests from line `y` on, each filled up with white lines to the minimum.
pub open spec fn packed_bytes(
    mode: PrintMode,
    levels: Seq<u8>,
    w: int,
    h: int,
    max: int,
    pad: bool,
    y: int,
) -> Seq<u8>
    decreases h - y,
{
    if y >= h || max < 1 {
        Seq::empty()
    } else {
        let take = take_at(h, max, y);
        rows_bytes(mode, levels, w, y, take as nat) + zeros(
            (request_lines(take, pad) - take) * mode.spec_bytes_per_row(w),
        ) + packed_bytes(mode, levels, w, h, max, pad, y + take)
    }
}

/// The requests from line `y` on, whose bytes start at `start`: lines, start and end of each.
pub open spec fn packed_segments(
    row_bytes: int,
    h: int,
    max: int,
    pad: bool,
    y: int,
    start: int,
) -> Seq<(int, int, int)>
    decreases h - y,
{
    if y >= h || max < 1 {
        Seq::empty()
    } else {
        let take = take_at(h, max, y);
        let lines = request_lines(take, pad);
        seq![(lines, start, start + lines * row_bytes)] + packed_segments(
            row_bytes,
            h,
            max,
            pad,
            y + take,
            start + lines * row_bytes,
        )
    }
}

/// The lines of all requests from line `y` on.
pub open spec fn packed_lines(h: int, max: int, pad: bool, y: int) -> int
    decreases h - y,
{
    if y >= h || max < 1 {
        0
    } else {
        let take = take_at(h, max, y);
        request_lines(take, pad) + packed_lines(h, max, pad, y + take)
    }
}

/// The lines of the requests from a later line on are no more.
proof fn lemma_packed_lines(h: int, max: int, pad: bool, y: int)
    ensures
        packed_lines(h, max, pad, y) >= 0,
    decreases h - y,
{
    if y < h && max >= 1 {
        lemma_packed_lines(h, max, pad, y + take_at(h, max, y));
    }
}

/// The lines of all requests.
pub fn count_lines(h: u32, max: u32, pad: bool) -> (r: u64)
    requires
        max >= 1,
    ensures
        r == packed_lines(h as int, max as int, pad, 0),
{
    let mut y: u32 = 0;
    let mut n: u64 = 0;
    while y < h
        invariant
            y <= h,
            max >= 1,
            n <= 90 * y,
            n + packed_lines(h as int, max as int, pad, y as int) == packed_lines(
                h as int,
                max as int,
                pad,
                0,
            ),
        decreases h - y,
    {
        let left: u32 = h - y;
        let take: u32 = if left < max {
            left
        } else {
            max
        };
        assert(take == take_at(h as int, max as int, y as int));
        n = n + if pad && take < MIN_LINES {
            MIN_LINES as u64
        } else {
            take as u64
        };
        y = y + take;
    }
    n
}

/// The plain values of a list of segments.
pub open spec fn segment_views(v: Seq<Segment>) -> Seq<(int, int, int)> {
    Seq::new(v.len(), |i: int| (v[i].lines as int, v[i].bytes.start as int, v[i].bytes.end as int))
}

/// The limit on lines per request that is in force.
pub open spec fn request_limit(opts: RenderOptions) -> int {
    if opts.max_lines_per_request < 1 {
        1
    } else if opts.max_lines_per_request > MAX_LINES_PER_REQUEST_HW {
        MAX_LINES_PER_REQUEST_HW as int
    } else {
        opts.max_lines_per_request as int
    }
}

/// The levels in the order of sending.
pub open spec fn send_order(levels: Seq<u8>, rotate_180: bool) -> Seq<u8> {
    if rotate_180 {
        levels.reverse()
    } else {
        levels
    }
}

/// Why a strip cannot be packed.
pub open spec fn pack_error(strip: GrayStrip, width_px: u32) -> Option<RenderErrorView> {
    if strip.width == 0 || strip.height == 0 || width_px == 0 {
        Some(RenderErrorView::Empty)
    } else if strip.data@.len() != strip.width * strip.height {
        Some(RenderErrorView::Internal("strip buffer size mismatch"@))
    } else {
        None
    }
}

/// The strip can be packed: where it is whole, it can be brought to the head's width, and its lines can be
/// counted.
pub open spec fn can_pack(strip: GrayStrip, opts: RenderOptions, width_px: u32, pad: bool) -> bool {
    pack_error(strip, width_px) is None ==> {
        &&& strip.width == width_px || can_fit(
            strip.width as int,
            strip.height as int,
            width_px as int,
        )
        &&& packed_lines(packed_height(strip, width_px), request_limit(opts), pad, 0) <= u32::MAX
    }
}

fn limit_of(opts: &RenderOptions) -> (r: u32)
    ensures
        r == request_limit(*opts),
        r >= 1,
{
    if opts.max_lines_per_request < 1 {
        1
    } else if opts.max_lines_per_request > MAX_LINES_PER_REQUEST_HW {
        MAX_LINES_PER_REQUEST_HW
    } else {
        opts.max_lines_per_request
    }
}

/// Whether the strip can be packed.
pub fn is_packable(strip: &GrayStrip, opts: &RenderOptions, width_px: u32, pad: bool) -> (r: bool)
    ensures
        r == can_pack(*strip, *opts, width_px, pad),
{
    if check_strip(strip, width_px).is_some() {
        return true;
    }
    if strip.width != width_px && !fits(strip.width, strip.height, width_px) {
        return false;
    }
    let h: u32 = height_for(strip.width, strip.height, width_px);
    count_lines(h, limit_of(opts), pad) <= u32::MAX as u64
}

fn check_strip(strip: &GrayStrip, width_px: u32) -> (r: Option<RenderError>)
    ensures
        match r {
            Some(e) => pack_error(*strip, width_px) == Some(e@),
            None => pack_error(*strip, width_px) is None,
        },
{
    if strip.width == 0 || strip.height == 0 || width_px == 0 {
        return Some(RenderError::Empty);
    }
    assert(strip.width * strip.height <= 0xffff_ffff * 0xffff_ffff) by (nonlinear_arith)
        requires
            strip.width <= 0xffff_ffff,
            strip.height <= 0xffff_ffff,
    ;
    if strip.data.len() as u64 != strip.width as u64 * strip.height as u64 {
        return Some(RenderError::Internal(owned("strip buffer size mismatch")));
    }
    None
}

/// The height of a strip on a head `width_px` wide.
pub open spec fn packed_height(strip: GrayStrip, width_px: u32) -> int {
    fit_height(strip.width as int, strip.height as int, width_px as int)
}

/// `p` is `levels` packed: rotated where asked for, cut into requests, each padded where `pad`.
pub open spec fn is_packed(
    p: Packed,
    levels: Seq<u8>,
    h: int,
    opts: RenderOptions,
    mode: PrintMode,
    width_px: u32,
    pad: bool,
) -> bool {
    let max = request_limit(opts);
    let rb = mode.spec_bytes_per_row(width_px as int);
    &&& p.mode == mode
    &&& p.width == width_px
    &&& p.row_bytes == rb
    &&& p.lines == packed_lines(h, max, pad, 0)
    &&& p.data@ == packed_bytes(
        mode,
        send_order(levels, opts.rotate_180),
        width_px as int,
        h,
        max,
        pad,
        0,
    )
    &&& segment_views(p.segments@) == packed_segments(rb, h, max, pad, 0, 0)
    &&& p.preview.width == width_px
    &&& p.preview.height == h
    &&& p.preview.dpi == 203
    &&& p.preview.data@ == level_grays(levels)
}

/// `p` is packed from `levels`, which are the levels of `gray`, which is the strip at the head's
/// width.
pub open spec fn packs_via<
    F: Fn(&[u8], usize, usize) -> Vec<bool>,
    C: Fn(&[u8], Preset) -> Vec<u8>,
    S: Fn(&[u8], usize, usize) -> Vec<u8>,
>(
    strip: GrayStrip,
    opts: RenderOptions,
    mode: PrintMode,
    width_px: u32,
    pad: bool,
    floyd_steinberg: F,
    curve: C,
    serpentine: S,
    p: Packed,
    gray: Seq<u8>,
    levels: Seq<u8>,
) -> bool {
    let h = packed_height(strip, width_px);
    &&& is_fit(strip.width as int, strip.height as int, strip.data@, width_px as int, gray)
    &&& levels.len() == gray.len()
    &&& are_levels(
        gray,
        width_px as usize,
        h as usize,
        opts,
        mode,
        floyd_steinberg,
        curve,
        serpentine,
        levels,
    )
    &&& is_packed(p, levels, h, opts, mode, width_px, pad)
}

/// `p` is the strip packed for a head `width_px` wide.
pub open spec fn is_pack_of<
    F: Fn(&[u8], usize, usize) -> Vec<bool>,
    C: Fn(&[u8], Preset) -> Vec<u8>,
    S: Fn(&[u8], usize, usize) -> Vec<u8>,
>(
    strip: GrayStrip,
    opts: RenderOptions,
    mode: PrintMode,
    width_px: u32,
    pad: bool,
    floyd_steinberg: F,
    curve: C,
    serpentine: S,
    p: Packed,
) -> bool {
    exists|gray: Seq<u8>, levels: Seq<u8>| #[trigger]
        packs_via(
            strip,
            opts,
            mode,
            width_px,
            pad,
            floyd_steinberg,
            curve,
            serpentine,
            p,
            gray,
            levels,
        )
}

fn reversed(v: Vec<u8>) -> (r: Vec<u8>)
    ensures
        r@ == v@.reverse(),
{
    let mut r: Vec<u8> = Vec::new();
    let n: usize = v.len();
    let mut i: usize = 0;
    while i < n
        invariant
            i <= n,
            n == v@.len(),
            r@.len() == i,
            forall|j: int| 0 <= j < i ==> #[trigger] r@[j] == v@[n - 1 - j],
        decreases n - i,
    {
        r.push(v[n - 1 - i]);
        i += 1;
    }
    assert(r@ =~= v@.reverse());
    r
}

fn push_zeros(out: &mut Vec<u8>, n: usize)
    ensures
        final(out)@ == old(out)@ + zeros(n as int),
{
    let mut i: usize = 0;
    while i < n
        invariant
            i <= n,
            out@ == old(out)@ + zeros(i as int),
        decreases n - i,
    {
        out.push(0);
        i += 1;
        assert(out@ =~= old(out)@ + zeros(i as int));
    }
}

/// Packs levels that are already in the order of sending.
fn pack_levels(mode: PrintMode, levels: &Vec<u8>, w: u32, h: u32, max: u32, pad: bool) -> (r: (
    Vec<u8>,
    Vec<Segment>,
    u32,
))
    requires
        levels@.len() == w * h,
        1 <= max,
        packed_lines(h as int, max as int, pad, 0) <= u32::MAX,
    ensures
        ({
            let (data, segs, lines) = r;
            &&& data@ == packed_bytes(mode, levels@, w as int, h as int, max as int, pad, 0)
            &&& segment_views(segs@) == packed_segments(
                mode.spec_bytes_per_row(w as int),
                h as int,
                max as int,
                pad,
                0,
                0,
            )
            &&& lines == packed_lines(h as int, max as int, pad, 0)
        }),
{
    let wu: usize = w as usize;
    let rb: usize = mode.bytes_per_row(wu);
    let mut data: Vec<u8> = Vec::new();
    let mut segs: Vec<Segment> = Vec::new();
    let mut lines: u32 = 0;
    let mut y: u32 = 0;
    let ghost all = packed_bytes(mode, levels@, w as int, h as int, max as int, pad, 0);
    let ghost all_segs = packed_segments(rb as int, h as int, max as int, pad, 0, 0);
    assert(segment_views(segs@) + all_segs =~= all_segs);
    assert(data@ + all =~= all);
    while y < h
        invariant
            y <= h,
            wu == w,
            1 <= max,
            levels@.len() == w * h,
            rb == mode.spec_bytes_per_row(w as int),
            rb <= 0xffff_ffff,
            packed_lines(h as int, max as int, pad, 0) <= u32::MAX,
            lines + packed_lines(h as int, max as int, pad, y as int) == packed_lines(
                h as int,
                max as int,
                pad,
                0,
            ),
            all == packed_bytes(mode, levels@, w as int, h as int, max as int, pad, 0),
            all_segs == packed_segments(rb as int, h as int, max as int, pad, 0, 0),
            all == data@ + packed_bytes(
                mode,
                levels@,
                w as int,
                h as int,
                max as int,
                pad,
                y as int,
            ),
            all_segs == segment_views(segs@) + packed_segments(
                rb as int,
                h as int,
                max as int,
                pad,
                y as int,
                data@.len() as int,
            ),
        decreases h - y,
    {
        let take: u32 = if h - y < max {
            h - y
        } else {
            max
        };
        let ghost before = data@;
        let ghost before_segs = segs@;
        let start: usize = data.len();
        let mut k: u32 = 0;
        assert(before + rows_bytes(mode, levels@, w as int, y as int, 0) =~= before);
        while k < take
            invariant
                k <= take,
                take <= h - y,
                wu == w,
                levels@.len() == w * h,
                data@ == before + rows_bytes(mode, levels@, w as int, y as int, k as nat),
            decreases take - k,
        {
            let ghost row = (y + k) as int;
            assert(0 <= row * w && row * w + w <= w * h) by (nonlinear_arith)
                requires
                    0 <= row,
                    row + 1 <= h,
            ;
            assert(levels@.len() == levels.len());
            let from: usize = (y + k) as usize * wu;
            let part = slice_subrange(levels.as_slice(), from, from + wu);
            assert(part@ == levels@.subrange(row * w, row * w + w));
            pack_row(mode, part, &mut data);
            assert(data@ =~= before + rows_bytes(
                mode,
                levels@,
                w as int,
                y as int,
                (k + 1) as nat,
            ));
            k += 1;
        }
        let want: u32 = if pad && take < MIN_LINES {
            MIN_LINES
        } else {
            take
        };
        proof {
            lemma_packed_lines(h as int, max as int, pad, y + take);
            assert((y + take) * w <= w * h) by (nonlinear_arith)
                requires
                    y + take <= h,
            ;
            lemma_rows_len(mode, levels@, w as int, y as int, take as nat);
        }
        if take < want {
            let missing: u32 = want - take;
            assert(missing * rb <= 90 * 0xffff_ffff && 0 <= missing * rb) by (nonlinear_arith)
                requires
                    0 <= missing <= 90,
                    rb <= 0xffff_ffff,
            ;
            let mut left: u32 = missing;
            let ghost base = data@;
            assert(base + zeros(0) =~= base);
            assert((missing - left) * rb == 0) by (nonlinear_arith)
                requires
                    missing == left,
            ;
            while left > 0
                invariant
                    left <= missing,
                    data@ == base + zeros((missing - left) * rb),
                decreases left,
            {
                let ghost done = (missing - left) * rb;
                assert(done >= 0) by (nonlinear_arith)
                    requires
                        done == (missing - left) * rb,
                        left <= missing,
                ;
                push_zeros(&mut data, rb);
                assert((missing - (left - 1)) * rb == done + rb) by (nonlinear_arith)
                    requires
                        done == (missing - left) * rb,
                ;
                assert(data@ =~= base + zeros((missing - (left - 1)) * rb));
                left -= 1;
            }
            assert((missing - 0) * rb == (want - take) * rb);
        } else {
            assert((want - take) * rb == 0) by (nonlinear_arith)
                requires
                    want == take,
            ;
            assert(data@ + zeros(0) =~= data@);
        }
        let end: usize = data.len();
        assert(data@ =~= before + rows_bytes(mode, levels@, w as int, y as int, take as nat)
            + zeros((want - take) * rb));
        assert(end == start + want * rb) by {
            assert((want - take) * rb + take * rb == want * rb) by (nonlinear_arith);
            assert((want - take) * rb >= 0) by (nonlinear_arith)
                requires
                    want >= take,
            ;
        }
        segs.push(Segment { lines: want, bytes: Range { start, end } });
        lines = lines + want;
        proof {
            let rest = packed_bytes(
                mode,
                levels@,
                w as int,
                h as int,
                max as int,
                pad,
                y + take,
            );
            assert(before + (rows_bytes(mode, levels@, w as int, y as int, take as nat) + zeros(
                (want - take) * rb,
            ) + rest) =~= data@ + rest);
            let rest_segs = packed_segments(
                rb as int,
                h as int,
                max as int,
                pad,
                y + take,
                end as int,
            );
            assert(segment_views(segs@) =~= segment_views(before_segs).push(
                (want as int, start as int, end as int),
            ));
            assert(segment_views(before_segs) + (seq![(want as int, start as int, end as int)]
                + rest_segs) =~= segment_views(segs@) + rest_segs);
        }
        y += take;
    }
    assert(data@ + Seq::<u8>::empty() =~= data@);
    assert(segment_views(segs@) + Seq::<(int, int, int)>::empty() =~= segment_views(segs@));
    (data, segs, lines)
}

/// Stage two: tone for `mode`, rotate, cut into requests, pack for a head `width_px` wide (scaling
/// if the strip's width differs). With `pad` every request is filled up to the 90-line minimum. Strips on
/// which the scaler might panic are left out: `is_packable` tells.
///
/// `floyd_steinberg`, `curve` and `serpentine` are the kernels that work in floating point:
/// binarization, the thermal curve of a preset, and the dither over 16 levels.
pub fn pack_padded<
    F: Fn(&[u8], usize, usize) -> Vec<bool>,
    C: Fn(&[u8], Preset) -> Vec<u8>,
    S: Fn(&[u8], usize, usize) -> Vec<u8>,
>(
    strip: &GrayStrip,
    opts: &RenderOptions,
    mode: PrintMode,
    width_px: u32,
    pad: bool,
    floyd_steinberg: F,
    curve: C,
    serpentine: S,
) -> (r: Result<Packed, RenderError>)
    requires
        kernels_ok(floyd_steinberg, curve, serpentine),
        can_pack(*strip, *opts, width_px, pad),
    ensures
        match r {
            Err(e) => pack_error(*strip, width_px) == Some(e@),
            Ok(p) => pack_error(*strip, width_px) is None && is_pack_of(
                *strip,
                *opts,
                mode,
                width_px,
                pad,
                floyd_steinberg,
                curve,
                serpentine,
                p,
            ),
        },
{
    if let Some(e) = check_strip(strip, width_px) {
        return Err(e);
    }
    let (w, h, gray) = if strip.width == width_px {
        let mut gray: Vec<u8> = Vec::new();
        gray.extend_from_slice(strip.data.as_slice());
        assert(gray@ =~= strip.data@);
        (strip.width, strip.height, gray)
    } else {
        fit_width(strip.width, strip.height, strip.data.as_slice(), width_px)
    };
    let levels = make_levels(
        &gray,
        w as usize,
        h as usize,
        opts,
        mode,
        floyd_steinberg,
        curve,
        serpentine,
    );
    let ghost toned = levels@;
    let shown = to_grays(&levels);
    let preview = GrayPage { width: w, height: h, dpi: 203, data: shown };
    let ordered = if opts.rotate_180 {
        reversed(levels)
    } else {
        levels
    };
    let (data, segments, lines) = pack_levels(mode, &ordered, w, h, limit_of(opts), pad);
    let p = Packed {
        mode,
        width: w,
        lines,
        row_bytes: mode.bytes_per_row(w as usize),
        data,
        segments,
        preview,
    };
    assert(is_packed(p, toned, h as int, *opts, mode, width_px, pad));
    assert(packs_via(
        *strip,
        *opts,
        mode,
        width_px,
        pad,
        floyd_steinberg,
        curve,
        serpentine,
        p,
        gray@,
        toned,
    ));
    Ok(p)
}

/// Stage two with every request filled up to the 90-line minimum.
pub fn pack<
    F: Fn(&[u8], usize, usize) -> Vec<bool>,
    C: Fn(&[u8], Preset) -> Vec<u8>,
    S: Fn(&[u8], usize, usize) -> Vec<u8>,
>(
    strip: &GrayStrip,
    opts: &RenderOptions,
    mode: PrintMode,
    width_px: u32,
    floyd_steinberg: F,
    curve: C,
    serpentine: S,
) -> (r: Result<Packed, RenderError>)
    requires
        kernels_ok(floyd_steinberg, curve, serpentine),
        can_pack(*strip, *opts, width_px, true),
    ensures
        match r {
            Err(e) => pack_error(*strip, width_px) == Some(e@),
            Ok(p) => pack_error(*strip, width_px) is None && is_pack_of(
                *strip,
                *opts,
                mode,
                width_px,
                true,
                floyd_steinberg,
                curve,
                serpentine,
                p,
            ),
        },
{
    pack_padded(strip, opts, mode, width_px, true, floyd_steinberg, curve, serpentine)
}

// ------------------------------------------------------------------ laws

/// Rotating by half a turn twice changes nothing.
pub proof fn lemma_rotate_twice(levels: Seq<u8>)
    ensures
        send_order(send_order(levels, true), true) == levels,
{
    assert(levels.reverse().reverse() =~= levels);
}

/// The rotated image at row `y`, column `x` is the image at the opposite place.
pub proof fn lemma_rotate_pixel(levels: Seq<u8>, w: int, h: int, y: int, x: int)
    requires
        levels.len() == w * h,
        0 <= y < h,
        0 <= x < w,
    ensures
        send_order(levels, true)[y * w + x] == levels[(h - 1 - y) * w + (w - 1 - x)],
{
    assert(0 <= y * w + x < w * h && w * h - 1 - (y * w + x) == (h - 1 - y) * w + (w - 1 - x))
        by (nonlinear_arith)
        requires
            0 <= y < h,
            0 <= x < w,
    ;
}

/// The requests lie one after the other from byte 0, each of whole rows, and together they are all
/// of the data.
pub proof fn lemma_segments_cover(row_bytes: int, h: int, max: int, pad: bool, y: int, start: int)
    requires
        max >= 1,
        0 <= y <= h,
    ensures
        ({
            let s = packed_segments(row_bytes, h, max, pad, y, start);
            &&& forall|i: int|
                0 <= i < s.len() ==> (#[trigger] s[i]).2 == s[i].1 + s[i].0 * row_bytes
            &&& forall|i: int| 0 <= i < s.len() - 1 ==> (#[trigger] s[i]).2 == s[i + 1].1
            &&& s.len() > 0 ==> s[0].1 == start && s.last().2 == start + packed_lines(
                h,
                max,
                pad,
                y,
            ) * row_bytes
            &&& s.len() == 0 ==> y == h
        }),
    decreases h - y,
{
    if y < h {
        let take = take_at(h, max, y);
        let lines = request_lines(take, pad);
        let rest = packed_segments(row_bytes, h, max, pad, y + take, start + lines * row_bytes);
        lemma_segments_cover(row_bytes, h, max, pad, y + take, start + lines * row_bytes);
        let s = packed_segments(row_bytes, h, max, pad, y, start);
        assert(s[0] == (lines, start, start + lines * row_bytes));
        assert forall|i: int| 0 < i < s.len() implies s[i] == rest[i - 1] by {}
        assert((lines + packed_lines(h, max, pad, y + take)) * row_bytes == lines * row_bytes
            + packed_lines(h, max, pad, y + take) * row_bytes) by (nonlinear_arith);
        if rest.len() > 0 {
            assert(s.last() == rest.last());
        } else {
            assert(packed_lines(h, max, pad, y + take) == 0);
            assert(packed_lines(h, max, pad, y + take) * row_bytes == 0) by (nonlinear_arith)
                requires
                    packed_lines(h, max, pad, y + take) == 0,
            ;
        }
    }
}

/// No row is lost or moved: without padding the requests together are the rows of the image, in
/// order.
pub proof fn lemma_unpadded_is_all_rows(
    mode: PrintMode,
    levels: Seq<u8>,
    w: int,
    h: int,
    max: int,
    y: int,
)
    requires
        max >= 1,
        0 <= y <= h,
    ensures
        rows_bytes(mode, levels, w, 0, y as nat) + packed_bytes(
            mode,
            levels,
            w,
            h,
            max,
            false,
            y,
        ) == rows_bytes(mode, levels, w, 0, h as nat),
    decreases h - y,
{
    if y < h {
        let take = take_at(h, max, y);
        lemma_unpadded_is_all_rows(mode, levels, w, h, max, y + take);
        lemma_rows_split(mode, levels, w, y as nat, take as nat);
        assert((request_lines(take, false) - take) * mode.spec_bytes_per_row(w) == 0)
            by (nonlinear_arith)
            requires
                request_lines(take, false) == take,
        ;
        let a = rows_bytes(mode, levels, w, 0, y as nat);
        let b = rows_bytes(mode, levels, w, y, take as nat);
        let c = packed_bytes(mode, levels, w, h, max, false, y + take);
        assert(a + (b + zeros(0) + c) =~= (a + b) + c);
    } else {
        assert(rows_bytes(mode, levels, w, 0, y as nat) + Seq::<u8>::empty() =~= rows_bytes(
            mode,
            levels,
            w,
            0,
            y as nat,
        ));
    }
}

proof fn lemma_rows_split(mode: PrintMode, levels: Seq<u8>, w: int, y: nat, n: nat)
    ensures
        rows_bytes(mode, levels, w, 0, y) + rows_bytes(mode, levels, w, y as int, n) == rows_bytes(
            mode,
            levels,
            w,
            0,
            y + n,
        ),
    decreases n,
{
    if n > 0 {
        lemma_rows_split(mode, levels, w, y, (n - 1) as nat);
        let a = rows_bytes(mode, levels, w, 0, y);
        let b = rows_bytes(mode, levels, w, y as int, (n - 1) as nat);
        let r = row_bytes_of(mode, levels.subrange((y + n - 1) * w, (y + n - 1) * w + w));
        assert(a + (b + r) =~= (a + b) + r);
    } else {
        assert(rows_bytes(mode, levels, w, 0, y) + Seq::<u8>::empty() =~= rows_bytes(
            mode,
            levels,
            w,
            0,
            y,
        ));
    }
}

// ------------------------------------------------------------------ previews

/// What `image::GrayImage::write_to` writes in the PNG format for a gray image, or what it says where it
/// fails.
pub uninterp spec fn png_bytes(width: u32, height: u32, data: Seq<u8>) -> Result<Seq<u8>, Seq<char>>;

/// `image::GrayImage::from_raw` and `write_to` in the PNG format, over a buffer that holds the
/// whole image: the result is a function of the image alone.
#[verifier::external_body]
fn encode_png(width: u32, height: u32, data: &[u8]) -> (r: Result<Vec<u8>, String>)
    requires
        data@.len() >= width * height,
    ensures
        match r {
            Ok(b) => png_bytes(width, height, data@) == Ok::<_, Seq<char>>(b@),
            Err(e) => png_bytes(width, height, data@) == Err::<Seq<u8>, _>(e@),
        },
{
    let img = image::GrayImage::from_raw(width, height, data.to_vec()).unwrap();
    let mut buf = std::io::Cursor::new(Vec::new());
    match img.write_to(&mut buf, image::ImageFormat::Png) {
        Ok(()) => Ok(buf.into_inner()),
        Err(e) => Err(e.to_string()),
    }
}

/// Encodes a gray page as PNG bytes.
pub fn preview_png_bytes(page: &GrayPage) -> (r: Result<Vec<u8>, RenderError>)
    ensures
        match r {
            Ok(b) => page.data@.len() >= page.width * page.height && png_bytes(
                page.width,
                page.height,
                page.data@,
            ) == Ok::<_, Seq<char>>(b@),
            Err(e) => if page.data@.len() < page.width * page.height {
                e@ == RenderErrorView::Internal("preview buffer size mismatch"@)
            } else {
                png_bytes(page.width, page.height, page.data@) matches Err(t) && e@
                    == RenderErrorView::Internal("png encode: "@ + t)
            },
        },
{
    assert(page.width * page.height <= 0xffff_ffff * 0xffff_ffff) by (nonlinear_arith)
        requires
            page.width <= 0xffff_ffff,
            page.height <= 0xffff_ffff,
    ;
    if (page.data.len() as u64) < page.width as u64 * page.height as u64 {
        return Err(RenderError::Internal(owned("preview buffer size mismatch")));
    }
    match encode_png(page.width, page.height, page.data.as_slice()) {
        Ok(b) => Ok(b),
        Err(m) => {
            let mut t = owned("png encode: ");
            t.push_str(m.as_str());
            Err(RenderError::Internal(t))
        },
    }
}

} // verus!
