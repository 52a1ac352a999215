//! Where the pixels of an image stand in the bytes that are sent.

use vstd::prelude::*;

use crate::protocol::{lemma_pack_bits, pixel, pow2, PrintMode};
use crate::render::packing::{
    dither_of, is_packed, lemma_rows_len, packed_bytes, packed_lines, packed_segments, request_limit, request_lines,
    row_bytes_of, rows_bytes, segment_views, send_order, take_at, zeros, Packed,
};
use crate::render::{Dither, Preset, RenderOptions, Tone};

verus! {

// ------------------------------------------------------------------ a row

/// A row takes a bit per pixel, eight to a byte, the leftmost pixel in the lowest bit, set where it burns from
/// level 8 up; or four bits per pixel, the left one of a pair in the upper half.
pub proof fn lemma_row_pixels(mode: PrintMode, row: Seq<u8>, x: int)
    requires
        0 <= x < row.len(),
        row[x] <= 15,
    ensures
        mode == PrintMode::Mono ==> {
            &&& row_bytes_of(mode, row).len() == (row.len() + 7) / 8
            &&& ((row_bytes_of(mode, row)[x / 8] as int / pow2(x % 8)) % 2 == 1) == (row[x] >= 8)
        },
        mode == PrintMode::Gray4 ==> {
            &&& row_bytes_of(mode, row).len() == (row.len() + 1) / 2
            &&& x % 2 == 0 ==> row_bytes_of(mode, row)[x / 2] / 16 == row[x]
            &&& x % 2 == 1 ==> row_bytes_of(mode, row)[x / 2] % 16 == row[x]
        },
{
    match mode {
        PrintMode::Mono => {
            let bits = Seq::new(row.len(), |i: int| row[i] >= 8);
            lemma_pack_bits(bits, x / 8, x % 8);
            assert(8 * (x / 8) + x % 8 == x);
            assert(pixel(bits, x) == bits[x]);
        },
        PrintMode::Gray4 => {
            let k = x / 2;
            assert(row_bytes_of(mode, row)[k] as int == 16 * (row[2 * k] % 16) + if 2 * k + 1
                < row.len() {
                (row[2 * k + 1] % 16) as int
            } else {
                0
            });
        },
    }
}

/// The bits of a byte count 1, 2, 4 and so on, from the lowest.
pub proof fn lemma_bit_values(j: int)
    requires
        0 <= j < 7,
    ensures
        pow2(0) == 1,
        pow2(j + 1) == 2 * pow2(j),
{
    assert(j == 0 || j == 1 || j == 2 || j == 3 || j == 4 || j == 5 || j == 6);
}

// ------------------------------------------------------------------ requests

/// The lines of a full request.
pub open spec fn full_request(max: int, pad: bool) -> int {
    if pad && max < 90 {
        90
    } else {
        max
    }
}

/// Requests hold as many lines as they may, one after the other, until all are sent; each stands in the bytes
/// right behind the one before, and one that is padded has at least 90 lines.
pub proof fn lemma_requests(rb: int, h: int, max: int, pad: bool, y: int, start: int, q: int)
    requires
        max >= 1,
        rb >= 0,
        0 <= y,
        0 <= q,
        y + q * max < h,
    ensures
        ({
            let s = packed_segments(rb, h, max, pad, y, start);
            let left = h - y - q * max;
            let lines = if left < max {
                if pad && left < 90 {
                    90
                } else {
                    left
                }
            } else {
                full_request(max, pad)
            };
            &&& q < s.len()
            &&& s[q] == (
                lines,
                start + q * (full_request(max, pad) * rb),
                start + q * (full_request(max, pad) * rb) + lines * rb,
            )
            &&& y + (q + 1) * max >= h ==> s.len() == q + 1
        }),
    decreases q,
{
    let f = full_request(max, pad) * rb;
    let take = take_at(h, max, y);
    assert((q + 1) * max == q * max + max) by (nonlinear_arith);
    assert(0 * f == 0 && 0 * max == 0) by (nonlinear_arith);
    assert(q * max >= 0) by (nonlinear_arith)
        requires
            q >= 0,
            max >= 1,
    ;
    let lines = request_lines(take, pad);
    let s = packed_segments(rb, h, max, pad, y, start);
    let rest = packed_segments(rb, h, max, pad, y + take, start + lines * rb);
    assert(s == seq![(lines, start, start + lines * rb)] + rest);
    if q > 0 {
        assert(q * max == (q - 1) * max + max && q * f == (q - 1) * f + f) by (nonlinear_arith);
        assert((q - 1) * max >= 0) by (nonlinear_arith)
            requires
                q >= 1,
                max >= 1,
        ;
        assert(take == max);
        lemma_requests(rb, h, max, pad, y + max, start + lines * rb, q - 1);
        assert(s[q] == rest[q - 1]);
    } else {
        if y + max >= h {
            assert(rest.len() == 0);
        }
    }
}

/// The lines of all requests are those of the last and of the full ones before it.
pub proof fn lemma_lines_of_requests(h: int, max: int, pad: bool, y: int, q: int)
    requires
        max >= 1,
        0 <= y,
        0 <= q,
        y + q * max < h <= y + (q + 1) * max,
    ensures
        packed_lines(h, max, pad, y) == q * full_request(max, pad) + if pad && h - y - q * max < 90 {
            90
        } else {
            h - y - q * max
        },
    decreases q,
{
    let f = full_request(max, pad);
    assert((q + 1) * max == q * max + max && 0 * f == 0 && 0 * max == 0) by (nonlinear_arith);
    if q > 0 {
        assert(q * max == (q - 1) * max + max && q * f == (q - 1) * f + f) by (nonlinear_arith);
        assert((q - 1) * max >= 0) by (nonlinear_arith)
            requires
                q >= 1,
                max >= 1,
        ;
        lemma_lines_of_requests(h, max, pad, y + max, q - 1);
    } else {
        assert(packed_lines(h, max, pad, y + take_at(h, max, y)) == 0);
    }
}

// ------------------------------------------------------------------ rows in requests

proof fn lemma_row_at(mode: PrintMode, levels: Seq<u8>, w: int, y: int, n: nat, r: int, j: int)
    requires
        0 <= w,
        0 <= y,
        0 <= r < n,
        (y + n) * w <= levels.len(),
        0 <= j < mode.spec_bytes_per_row(w),
    ensures
        ({
            let rb = mode.spec_bytes_per_row(w);
            let row = levels.subrange((y + r) * w, (y + r) * w + w);
            &&& 0 <= r * rb + j < n * rb
            &&& rows_bytes(mode, levels, w, y, n).len() == n * rb
            &&& rows_bytes(mode, levels, w, y, n)[r * rb + j] == row_bytes_of(mode, row)[j]
        }),
    decreases n,
{
    let rb = mode.spec_bytes_per_row(w);
    let m = (n - 1) as nat;
    assert(0 <= r * rb + j < n * rb && n * rb == m * rb + rb && (y + n) * w == (y + m) * w + w && 0 <= (y
        + m) * w) by (nonlinear_arith)
        requires
            0 <= r < n,
            0 <= j < rb,
            n == m + 1,
            0 <= y,
            0 <= w,
            m >= 0,
    ;
    lemma_rows_len(mode, levels, w, y, n);
    lemma_rows_len(mode, levels, w, y, m);
    if r < m {
        lemma_row_at(mode, levels, w, y, m, r, j);
        assert(r * rb + j < m * rb) by (nonlinear_arith)
            requires
                r < m,
                0 <= j < rb,
        ;
    }
}

/// Line `t` of an image stands in request `t / max`, behind the lines of that request before it; the lines that
/// a request is filled up with are white.
pub proof fn lemma_rows_in_requests(
    mode: PrintMode,
    levels: Seq<u8>,
    w: int,
    h: int,
    max: int,
    pad: bool,
    y: int,
    q: int,
    r: int,
    j: int,
)
    requires
        max >= 1,
        0 < w,
        0 <= y,
        0 <= q,
        0 <= r < request_lines(take_at(h, max, y + q * max), pad),
        y + q * max < h,
        h * w <= levels.len(),
        0 <= j < mode.spec_bytes_per_row(w),
    ensures
        ({
            let rb = mode.spec_bytes_per_row(w);
            let at = q * (full_request(max, pad) * rb) + r * rb + j;
            let b = packed_bytes(mode, levels, w, h, max, pad, y);
            let t = y + q * max + r;
            &&& 0 <= at < b.len()
            &&& r < max && t < h ==> b[at] == row_bytes_of(mode, levels.subrange(t * w, t * w + w))[j]
            &&& r >= max || t >= h ==> b[at] == 0
        }),
    decreases q,
{
    let rb = mode.spec_bytes_per_row(w);
    let f = full_request(max, pad) * rb;
    let take = take_at(h, max, y);
    let lines = request_lines(take, pad);
    assert(0 * f == 0 && 0 * max == 0) by (nonlinear_arith);
    assert(q * max >= 0) by (nonlinear_arith)
        requires
            q >= 0,
            max >= 1,
    ;
    assert(0 < take && y + take <= h);
    assert((y + take) * w <= h * w) by (nonlinear_arith)
        requires
            y + take <= h,
            0 < w,
    ;
    let rows = rows_bytes(mode, levels, w, y, take as nat);
    lemma_rows_len(mode, levels, w, y, take as nat);
    let fill = zeros((lines - take) * rb);
    let rest = packed_bytes(mode, levels, w, h, max, pad, y + take);
    let b = packed_bytes(mode, levels, w, h, max, pad, y);
    assert(b == rows + fill + rest);
    assert((lines - take) * rb >= 0 && take * rb + (lines - take) * rb == lines * rb) by (nonlinear_arith)
        requires
            lines >= take,
            rb >= 0,
    ;
    if q > 0 {
        assert(q * max == (q - 1) * max + max && q * f == (q - 1) * f + f) by (nonlinear_arith);
        assert((q - 1) * max >= 0) by (nonlinear_arith)
            requires
                q >= 1,
                max >= 1,
        ;
        assert(take == max && lines * rb == f);
        lemma_rows_in_requests(mode, levels, w, h, max, pad, y + max, q - 1, r, j);
        let at = q * f + r * rb + j;
        assert((q - 1) * f >= 0 && r * rb >= 0) by (nonlinear_arith)
            requires
                q >= 1,
                f >= 0,
                r >= 0,
                rb >= 0,
        ;
        assert(b[at] == rest[at - f]);
    } else {
        assert(r * rb + j < lines * rb && r * rb >= 0) by (nonlinear_arith)
            requires
                0 <= r < lines,
                0 <= j < rb,
        ;
        if r < take {
            lemma_row_at(mode, levels, w, y, take as nat, r, j);
        } else {
            assert(take * rb <= r * rb) by (nonlinear_arith)
                requires
                    take <= r,
                    rb >= 0,
            ;
            assert(b[r * rb + j] == fill[r * rb + j - take * rb]);
        }
    }
}

/// A packed image holds every pixel at its place: the byte of row `t` and column `x`, in the order of sending,
/// holds the level of that pixel; upside down, of the one opposite to it. Nothing else that is sent burns.
pub proof fn lemma_packed_pixels(
    p: Packed,
    levels: Seq<u8>,
    h: int,
    opts: RenderOptions,
    mode: PrintMode,
    width_px: u32,
    pad: bool,
    t: int,
    x: int,
)
    requires
        is_packed(p, levels, h, opts, mode, width_px, pad),
        levels.len() == width_px * h,
        forall|i: int| 0 <= i < levels.len() ==> #[trigger] levels[i] <= 15,
        0 <= t < h,
        0 <= x < width_px,
    ensures
        ({
            let max = request_limit(opts);
            let row = t / max * (full_request(max, pad) * p.row_bytes) + t % max * p.row_bytes;
            let l = if opts.rotate_180 {
                levels[width_px * h - 1 - (t * width_px + x)]
            } else {
                levels[t * width_px + x]
            };
            &&& mode == PrintMode::Mono ==> 0 <= row + x / 8 < p.data@.len() && ((p.data@[row + x / 8] as int
                / pow2(x % 8)) % 2 == 1) == (l >= 8)
            &&& mode == PrintMode::Gray4 && x % 2 == 0 ==> 0 <= row + x / 2 < p.data@.len() && p.data@[row + x
                / 2] / 16 == l
            &&& mode == PrintMode::Gray4 && x % 2 == 1 ==> 0 <= row + x / 2 < p.data@.len() && p.data@[row + x
                / 2] % 16 == l
        }),
{
    let max = request_limit(opts);
    let w = width_px as int;
    let rb = mode.spec_bytes_per_row(w);
    let s = send_order(levels, opts.rotate_180);
    let (q, r) = (t / max, t % max);
    assert(t == q * max + r && 0 <= r < max && 0 <= q) by (nonlinear_arith)
        requires
            q == t / max,
            r == t % max,
            max >= 1,
            t >= 0,
    ;
    assert(0 <= t * w + x < w * h && t * w + w <= w * h && 0 <= t * w && h * w == w * h) by (nonlinear_arith)
        requires
            0 <= t < h,
            0 <= x < w,
    ;
    let j = if mode == PrintMode::Mono {
        x / 8
    } else {
        x / 2
    };
    assert(0 <= j < rb);
    lemma_rows_in_requests(mode, s, w, h, max, pad, 0, q, r, j);
    let row = s.subrange(t * w, t * w + w);
    assert(row[x] == s[t * w + x]);
    assert(s[t * w + x] <= 15);
    lemma_row_pixels(mode, row, x);
}

// ------------------------------------------------------------------ what a style means

/// What the styles mean: pictures and the default are dithered, text and documents cut at a threshold; pictures burn
/// hottest and the default least.
pub proof fn lemma_styles(p: Preset)
    ensures
        p.spec_dither() == Dither::FloydSteinberg <==> p == Preset::Default || p == Preset::Picture,
        p.spec_dither() == Dither::Threshold <==> p == Preset::Text || p == Preset::Document,
        Preset::Default.spec_intensity() == 0x5D,
        Preset::Picture.spec_intensity() == 0x78,
        Preset::Text.spec_intensity() == 0x68,
        Preset::Document.spec_intensity() == 0x68,
{
}

/// Sixteen levels are sent where gray is asked for and the model has it, and at no other time.
pub proof fn lemma_modes(tone: Tone, grayscale_4bpp: bool)
    ensures
        crate::render::packing::spec_mode_for(tone, grayscale_4bpp) == PrintMode::Gray4 <==> tone
            == Tone::Grayscale && grayscale_4bpp,
        crate::render::packing::spec_mode_for(tone, grayscale_4bpp) == PrintMode::Mono <==> tone
            == Tone::BlackWhite || !grayscale_4bpp,
{
}

/// A request has at least one line, at most as many as the options say, and at most as many as its count can
/// tell.
pub proof fn lemma_request_limit(opts: RenderOptions)
    ensures
        1 <= request_limit(opts) <= 65535,
        1 <= opts.max_lines_per_request <= 65535 ==> request_limit(opts) == opts.max_lines_per_request,
        opts.max_lines_per_request > 65535 ==> request_limit(opts) == 65535,
{
}

/// What is asked for of burning and dithering wins over the style.
pub proof fn lemma_overrides(opts: RenderOptions)
    ensures
        opts.intensity_override matches Some(i) ==> opts.spec_intensity() == i,
        opts.intensity_override is None ==> opts.spec_intensity() == opts.preset.spec_intensity(),
        opts.dither_override matches Some(d) ==> dither_of(opts) == d,
        opts.dither_override is None && (opts.preset == Preset::Text || opts.preset == Preset::Document) ==> dither_of(
            opts,
        ) == Dither::Threshold,
        opts.dither_override is None && (opts.preset == Preset::Default || opts.preset == Preset::Picture)
            ==> dither_of(opts) == Dither::FloydSteinberg,
{
}

/// The requests of a packed image name its bytes one behind the other, each with its lines, and all of its lines; its
/// preview has the size of the image.
pub proof fn lemma_packed_requests(
    p: Packed,
    levels: Seq<u8>,
    h: int,
    opts: RenderOptions,
    mode: PrintMode,
    width_px: u32,
    q: int,
)
    requires
        is_packed(p, levels, h, opts, mode, width_px, false),
        0 <= q,
        q * request_limit(opts) < h,
    ensures
        ({
            let max = request_limit(opts);
            let lines = if h - q * max < max {
                h - q * max
            } else {
                max
            };
            &&& q < p.segments@.len()
            &&& p.segments@[q].lines == lines
            &&& p.segments@[q].bytes.start == q * (max * p.row_bytes)
            &&& p.segments@[q].bytes.end == q * (max * p.row_bytes) + lines * p.row_bytes
            &&& (q + 1) * max >= h ==> p.segments@.len() == q + 1 && p.lines == h
            &&& mode == PrintMode::Mono ==> p.row_bytes == (width_px + 7) / 8
            &&& mode == PrintMode::Gray4 ==> p.row_bytes == (width_px + 1) / 2
        }),
        p.preview.width == width_px,
        p.preview.height == h,
        p.mode == mode,
{
    let max = request_limit(opts);
    let rb = mode.spec_bytes_per_row(width_px as int);
    lemma_requests(rb, h, max, false, 0, 0, q);
    let v = segment_views(p.segments@);
    assert(v.len() == p.segments@.len());
    assert(v[q] == (
        p.segments@[q].lines as int,
        p.segments@[q].bytes.start as int,
        p.segments@[q].bytes.end as int,
    ));
    if (q + 1) * max >= h {
        lemma_lines_of_requests(h, max, false, 0, q);
    }
}

} // verus!
