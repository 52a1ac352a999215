//! What holds of the names of presets and tones, and of a strip that is sent upside down.

use vstd::prelude::*;

use crate::protocol::{pixel, PrintMode};
use crate::render::fit::{fits_one_way, is_fit, lemma_fit_len};
use crate::render::packing::{
    are_levels, bit_levels, dither_of, is_binarized, is_pack_of, is_packed, packed_bytes, packed_height,
    packs_via, request_limit, request_lines, row_bytes_of, rows_bytes, zeros, Packed,
};
use crate::render::strip::GrayStrip;
use crate::render::{dashed, without_joiners, Dither, Preset, RenderOptions, Tone};
use crate::text::{is_space, lemma_trim_around, lemma_trim_case, lower, trim, trim_left, trim_right, upper};

verus! {

// ------------------------------------------------------------------ names

/// A text without white space is trimmed.
proof fn lemma_trimmed(s: Seq<char>)
    requires
        s.len() > 0,
        !is_space(s[0]),
        !is_space(s.last()),
    ensures
        trim(s) == s,
{
    assert(trim_left(s, |c: char| is_space(c)) == s);
    assert(trim_right(s, |c: char| is_space(c)) == s);
}

/// A preset's name is that preset's.
pub proof fn lemma_preset_names(p: Preset)
    ensures
        Preset::named(p.text()@) == Some(p),
{
    reveal_strlit("default");
    reveal_strlit("picture");
    reveal_strlit("text");
    reveal_strlit("document");
    reveal_strlit("auto");
    reveal_strlit("normal");
    reveal_strlit("photo");
    reveal_strlit("graphics");
    reveal_strlit("high");
    reveal_strlit("draft");
    reveal_strlit("doc");
    let t = p.text()@;
    lemma_trimmed(t);
    assert(lower(t) =~= t);
    if p == Preset::Picture {
        assert(t[0] == 'p');
    } else if p == Preset::Text {
        assert(t[0] == 't');
    } else if p == Preset::Document {
        assert(t[1] == 'o');
    }
}

/// Small and capital letters, and white space around, do not matter.
proof fn lemma_folded(s: Seq<char>, a: char, b: char)
    requires
        is_space(a),
        is_space(b),
    ensures
        lower(trim(upper(s))) == lower(trim(s)),
        lower(trim(lower(s))) == lower(trim(s)),
        lower(trim(seq![a] + s + seq![b])) == lower(trim(s)),
{
    lemma_trim_case(s);
    lemma_trim_around(a, s, b);
    assert(lower(upper(trim(s))) =~= lower(trim(s)));
    assert(lower(lower(trim(s))) =~= lower(trim(s)));
}

/// The case of a preset's name does not matter, nor does white space around it.
pub proof fn lemma_preset_spelling(s: Seq<char>, a: char, b: char)
    requires
        is_space(a),
        is_space(b),
    ensures
        Preset::named(upper(s)) == Preset::named(s),
        Preset::named(lower(s)) == Preset::named(s),
        Preset::named(seq![a] + s + seq![b]) == Preset::named(s),
{
    lemma_folded(s, a, b);
}

proof fn lemma_no_joiners(s: Seq<char>)
    requires
        forall|i: int| 0 <= i < s.len() ==> #[trigger] s[i] != '_' && s[i] != ' ' && s[i] != '-',
    ensures
        without_joiners(s) == s,
    decreases s.len(),
{
    if s.len() > 0 {
        assert(s[s.len() - 1] != '_');
        assert forall|i: int| 0 <= i < s.len() - 1 implies #[trigger] s.drop_last()[i] != '_'
            && s.drop_last()[i] != ' ' && s.drop_last()[i] != '-' by {
            assert(s[i] != '_');
        }
        lemma_no_joiners(s.drop_last());
        assert(s.drop_last().push(s.last()) =~= s);
    }
}

/// A tone's name is that tone's.
pub proof fn lemma_tone_names(t: Tone)
    ensures
        Tone::named(t.text()@) == Some(t),
{
    reveal_strlit("blackwhite");
    reveal_strlit("bw");
    reveal_strlit("blackandwhite");
    reveal_strlit("mono");
    reveal_strlit("monochrome");
    reveal_strlit("bilevel");
    reveal_strlit("grayscale");
    let s = t.text()@;
    lemma_trimmed(s);
    assert(lower(s) =~= s);
    lemma_no_joiners(s);
    if t == Tone::Grayscale {
        assert(s[0] == 'g');
    }
}

/// The case of a tone's name does not matter, nor does white space around it.
pub proof fn lemma_tone_spelling(s: Seq<char>, a: char, b: char)
    requires
        is_space(a),
        is_space(b),
    ensures
        Tone::named(upper(s)) == Tone::named(s),
        Tone::named(lower(s)) == Tone::named(s),
        Tone::named(seq![a] + s + seq![b]) == Tone::named(s),
{
    lemma_folded(s, a, b);
}

/// A method's name is that method's, and the case of its letters and white space around it do not matter.
pub proof fn lemma_dither_names(d: Dither, a: char, b: char)
    requires
        is_space(a),
        is_space(b),
    ensures
        Dither::named(d.text()@) == Some(d),
        Dither::named(upper(d.text()@)) == Some(d),
        Dither::named(seq![a] + d.text()@ + seq![b]) == Some(d),
{
    reveal_strlit("floyd-steinberg");
    reveal_strlit("fs");
    reveal_strlit("floydsteinberg");
    reveal_strlit("atkinson");
    reveal_strlit("threshold");
    reveal_strlit("mean-threshold");
    reveal_strlit("mean");
    reveal_strlit("none");
    let t = d.text()@;
    lemma_trimmed(t);
    assert(lower(t) =~= t);
    assert(dashed(t) =~= t);
    lemma_folded(t, a, b);
    if d == Dither::Atkinson {
        assert(t[0] == 'a');
    } else if d == Dither::Threshold {
        assert(t[0] == 't');
    } else if d == Dither::Mean {
        assert(t[0] == 'm');
    } else if d == Dither::Plain {
        assert(t[0] == 'n');
    }
}

// ------------------------------------------------------------------ upside down

/// A byte with its pixels in the opposite order: its bits, or its two levels.
pub open spec fn mirrored(mode: PrintMode, b: u8) -> int {
    match mode {
        PrintMode::Mono => 128 * (b % 2) + 64 * (b / 2 % 2) + 32 * (b / 4 % 2) + 16 * (b / 8 % 2) + 8
            * (b / 16 % 2) + 4 * (b / 32 % 2) + 2 * (b / 64 % 2) + b / 128,
        PrintMode::Gray4 => 16 * (b % 16) + b / 16,
    }
}

/// Pixels in a byte.
pub open spec fn per_byte(mode: PrintMode) -> int {
    match mode {
        PrintMode::Mono => 8,
        PrintMode::Gray4 => 2,
    }
}

spec fn dark(levels: Seq<u8>, i: int) -> int {
    if levels[i] >= 8 {
        1
    } else {
        0
    }
}

/// Byte `i` of levels that fill their bytes.
spec fn full_byte(mode: PrintMode, levels: Seq<u8>, i: int) -> int {
    match mode {
        PrintMode::Mono => dark(levels, 8 * i) + 2 * dark(levels, 8 * i + 1) + 4 * dark(
            levels,
            8 * i + 2,
        ) + 8 * dark(levels, 8 * i + 3) + 16 * dark(levels, 8 * i + 4) + 32 * dark(levels, 8 * i + 5)
            + 64 * dark(levels, 8 * i + 6) + 128 * dark(levels, 8 * i + 7),
        PrintMode::Gray4 => 16 * (levels[2 * i] % 16) + levels[2 * i + 1] % 16,
    }
}

/// A row that fills its bytes.
proof fn lemma_full_row(mode: PrintMode, levels: Seq<u8>, from: int, w: int, k: int)
    requires
        w > 0,
        w % per_byte(mode) == 0,
        0 <= k < w / per_byte(mode),
        0 <= from,
        from + w <= levels.len(),
        from % per_byte(mode) == 0,
    ensures
        row_bytes_of(mode, levels.subrange(from, from + w)).len() == w / per_byte(mode),
        row_bytes_of(mode, levels.subrange(from, from + w))[k] as int == full_byte(
            mode,
            levels,
            from / per_byte(mode) + k,
        ),
{
    let row = levels.subrange(from, from + w);
    match mode {
        PrintMode::Mono => {
            let bits = Seq::new(row.len(), |x: int| row[x] >= 8);
            assert(8 * (from / 8 + k) == from + 8 * k);
            assert forall|j: int| 0 <= j < 8 implies #[trigger] pixel(bits, 8 * k + j) == (levels[from
                + 8 * k + j] >= 8) by {
                assert(8 * k + j < w);
                assert(bits[8 * k + j] == (row[8 * k + j] >= 8));
            }
            assert(pixel(bits, 8 * k) == (levels[from + 8 * k] >= 8)) by {
                assert(pixel(bits, 8 * k + 0) == (levels[from + 8 * k + 0] >= 8));
            }
            assert(pixel(bits, 8 * k + 1) == (levels[from + 8 * k + 1] >= 8));
            assert(pixel(bits, 8 * k + 2) == (levels[from + 8 * k + 2] >= 8));
            assert(pixel(bits, 8 * k + 3) == (levels[from + 8 * k + 3] >= 8));
            assert(pixel(bits, 8 * k + 4) == (levels[from + 8 * k + 4] >= 8));
            assert(pixel(bits, 8 * k + 5) == (levels[from + 8 * k + 5] >= 8));
            assert(pixel(bits, 8 * k + 6) == (levels[from + 8 * k + 6] >= 8));
            assert(pixel(bits, 8 * k + 7) == (levels[from + 8 * k + 7] >= 8));
        },
        PrintMode::Gray4 => {
            assert(2 * (from / 2 + k) == from + 2 * k);
            assert(row[2 * k] == levels[from + 2 * k]);
            assert(row[2 * k + 1] == levels[from + 2 * k + 1]);
        },
    }
}

/// Rows that fill their bytes are one row.
proof fn lemma_full_rows(mode: PrintMode, levels: Seq<u8>, rb: int, n: nat)
    requires
        rb > 0,
        n * (rb * per_byte(mode)) <= levels.len(),
    ensures
        rows_bytes(mode, levels, rb * per_byte(mode), 0, n).len() == n * rb,
        forall|i: int|
            0 <= i < n * rb ==> #[trigger] rows_bytes(mode, levels, rb * per_byte(mode), 0, n)[i] as int
                == full_byte(mode, levels, i),
    decreases n,
{
    let p = per_byte(mode);
    let w = rb * p;
    if n > 0 {
        let m = (n - 1) as nat;
        let from = m * w;
        assert(n * w == m * w + w && n * rb == m * rb + rb && m * w >= 0 && w > 0 && m * rb >= 0)
            by (nonlinear_arith)
            requires
                n == m + 1,
                m >= 0,
                w == rb * p,
                rb > 0,
                p > 0,
        ;
        lemma_full_rows(mode, levels, rb, m);
        assert(from == (m * rb) * p) by (nonlinear_arith)
            requires
                from == m * w,
                w == rb * p,
        ;
        assert((0 + n - 1) * w == from);
        assert(w % p == 0 && w / p == rb && from % p == 0 && from / p == m * rb) by {
            if mode == PrintMode::Mono {
                assert(w == rb * 8 && from == (m * rb) * 8);
            } else {
                assert(w == rb * 2 && from == (m * rb) * 2);
            }
        }
        let head = rows_bytes(mode, levels, w, 0, m);
        let last = row_bytes_of(mode, levels.subrange(from, from + w));
        lemma_full_row(mode, levels, from, w, 0);
        assert(rows_bytes(mode, levels, w, 0, n) == head + last);
        assert forall|i: int| 0 <= i < n * rb implies #[trigger] rows_bytes(
            mode,
            levels,
            w,
            0,
            n,
        )[i] as int == full_byte(mode, levels, i) by {
            if i < m * rb {
                assert(head[i] as int == full_byte(mode, levels, i));
            } else {
                lemma_full_row(mode, levels, from, w, i - m * rb);
            }
        }
    } else {
        assert(0 * rb == 0) by (nonlinear_arith);
    }
}

/// The bytes of the levels in the opposite order.
proof fn lemma_full_byte_mirrored(mode: PrintMode, levels: Seq<u8>, n: int, i: int)
    requires
        levels.len() == n * per_byte(mode),
        0 <= i < n,
        0 <= full_byte(mode, levels, n - 1 - i) < 256,
    ensures
        full_byte(mode, levels.reverse(), i) == mirrored(
            mode,
            full_byte(mode, levels, n - 1 - i) as u8,
        ),
{
    let r = levels.reverse();
    match mode {
        PrintMode::Mono => {
            let k = n - 1 - i;
            assert(r[8 * i] == levels[8 * k + 7]);
            assert(r[8 * i + 1] == levels[8 * k + 6]);
            assert(r[8 * i + 2] == levels[8 * k + 5]);
            assert(r[8 * i + 3] == levels[8 * k + 4]);
            assert(r[8 * i + 4] == levels[8 * k + 3]);
            assert(r[8 * i + 5] == levels[8 * k + 2]);
            assert(r[8 * i + 6] == levels[8 * k + 1]);
            assert(r[8 * i + 7] == levels[8 * k]);
            lemma_bits(
                dark(levels, 8 * k),
                dark(levels, 8 * k + 1),
                dark(levels, 8 * k + 2),
                dark(levels, 8 * k + 3),
                dark(levels, 8 * k + 4),
                dark(levels, 8 * k + 5),
                dark(levels, 8 * k + 6),
                dark(levels, 8 * k + 7),
            );
        },
        PrintMode::Gray4 => {
            let k = n - 1 - i;
            assert(r[2 * i] == levels[2 * k + 1]);
            assert(r[2 * i + 1] == levels[2 * k]);
        },
    }
}

proof fn lemma_bits(a: int, b: int, c: int, d: int, e: int, f: int, g: int, h: int)
    requires
        0 <= a <= 1,
        0 <= b <= 1,
        0 <= c <= 1,
        0 <= d <= 1,
        0 <= e <= 1,
        0 <= f <= 1,
        0 <= g <= 1,
        0 <= h <= 1,
    ensures
        ({
            let v = a + 2 * b + 4 * c + 8 * d + 16 * e + 32 * f + 64 * g + 128 * h;
            &&& v % 2 == a
            &&& v / 2 % 2 == b
            &&& v / 4 % 2 == c
            &&& v / 8 % 2 == d
            &&& v / 16 % 2 == e
            &&& v / 32 % 2 == f
            &&& v / 64 % 2 == g
            &&& v / 128 == h
        }),
{
    let v7 = h;
    let v6 = g + 2 * v7;
    let v5 = f + 2 * v6;
    let v4 = e + 2 * v5;
    let v3 = d + 2 * v4;
    let v2 = c + 2 * v3;
    let v1 = b + 2 * v2;
    let v = a + 2 * v1;
    assert(v == a + 2 * b + 4 * c + 8 * d + 16 * e + 32 * f + 64 * g + 128 * h);
    assert(v % 2 == a && v / 2 == v1);
    assert(v1 % 2 == b && v1 / 2 == v2 && v / 4 == v2);
    assert(v2 % 2 == c && v2 / 2 == v3 && v / 8 == v3);
    assert(v3 % 2 == d && v3 / 2 == v4 && v / 16 == v4);
    assert(v4 % 2 == e && v4 / 2 == v5 && v / 32 == v5);
    assert(v5 % 2 == f && v5 / 2 == v6 && v / 64 == v6);
    assert(v6 % 2 == g && v6 / 2 == v7 && v / 128 == v7);
}

/// One request holds the rows, and white lines behind them.
proof fn lemma_one_request(
    mode: PrintMode,
    levels: Seq<u8>,
    w: int,
    h: int,
    max: int,
    pad: bool,
)
    requires
        0 < h <= max,
    ensures
        packed_bytes(mode, levels, w, h, max, pad, 0) == rows_bytes(mode, levels, w, 0, h as nat)
            + zeros((request_lines(h, pad) - h) * mode.spec_bytes_per_row(w)),
{
    let rows = rows_bytes(mode, levels, w, 0, h as nat);
    let fill = zeros((request_lines(h, pad) - h) * mode.spec_bytes_per_row(w));
    assert(packed_bytes(mode, levels, w, h, max, pad, h) =~= Seq::<u8>::empty());
    assert(rows + fill + Seq::<u8>::empty() =~= rows + fill);
}

/// Sent upside down, in one request with rows that fill their bytes, an image looks the same in the preview
/// and has the bytes of its rows in the opposite order, each mirrored, before the same white lines.
pub proof fn lemma_upside_down(
    a: Packed,
    b: Packed,
    levels: Seq<u8>,
    h: int,
    opts: RenderOptions,
    mode: PrintMode,
    width_px: u32,
    pad: bool,
)
    requires
        !opts.rotate_180,
        is_packed(a, levels, h, opts, mode, width_px, pad),
        is_packed(
            b,
            levels,
            h,
            RenderOptions { rotate_180: true, ..opts },
            mode,
            width_px,
            pad,
        ),
        levels.len() == width_px * h,
        width_px > 0,
        width_px % 8 == 0,
        0 < h <= request_limit(opts),
    ensures
        a.preview.width == b.preview.width,
        a.preview.height == b.preview.height,
        a.preview.data@ == b.preview.data@,
        a.row_bytes == b.row_bytes,
        a.data@.len() == b.data@.len(),
        h * a.row_bytes <= a.data@.len(),
        forall|i: int|
            0 <= i < h * a.row_bytes ==> (#[trigger] b.data@[i]) as int == mirrored(
                mode,
                a.data@[h * a.row_bytes - 1 - i],
            ),
        forall|i: int|
            h * a.row_bytes <= i < a.data@.len() ==> #[trigger] a.data@[i] == 0 && b.data@[i] == 0,
{
    let w = width_px as int;
    let p = per_byte(mode);
    let rb = mode.spec_bytes_per_row(w);
    let max = request_limit(opts);
    assert(w == rb * p);
    let n = h * rb;
    lemma_one_request(mode, levels, w, h, max, pad);
    lemma_one_request(mode, levels.reverse(), w, h, max, pad);
    assert(h * (rb * p) == w * h && w * h == n * p && n > 0) by (nonlinear_arith)
        requires
            w == rb * p,
            n == h * rb,
            h > 0,
            rb > 0,
    ;
    lemma_full_rows(mode, levels, rb, h as nat);
    lemma_full_rows(mode, levels.reverse(), rb, h as nat);
    let ra = rows_bytes(mode, levels, w, 0, h as nat);
    let rv = rows_bytes(mode, levels.reverse(), w, 0, h as nat);
    assert(ra.len() == n && rv.len() == n);
    assert((request_lines(h, pad) - h) * rb >= 0) by (nonlinear_arith)
        requires
            request_lines(h, pad) >= h,
            rb >= 0,
    ;
    assert forall|i: int| 0 <= i < n implies (#[trigger] b.data@[i]) as int == mirrored(
        mode,
        a.data@[n - 1 - i],
    ) by {
        assert(b.data@[i] == rv[i]);
        assert(a.data@[n - 1 - i] == ra[n - 1 - i]);
        assert(ra[n - 1 - i] as int == full_byte(mode, levels, n - 1 - i));
        lemma_full_byte_mirrored(mode, levels, n, i);
    }
}

/// Kernels that give one result for one image.
pub open spec fn kernels_steady<
    F: Fn(&[u8], usize, usize) -> Vec<bool>,
    C: Fn(&[u8], Preset) -> Vec<u8>,
    S: Fn(&[u8], usize, usize) -> Vec<u8>,
>(floyd_steinberg: F, curve: C, serpentine: S) -> bool {
    &&& forall|s: &[u8], t: &[u8], w: usize, h: usize, v: Vec<bool>, u: Vec<bool>|
        s@ == t@ && #[trigger] floyd_steinberg.ensures((s, w, h), v)
            && #[trigger] floyd_steinberg.ensures((t, w, h), u) ==> v@ == u@
    &&& forall|s: &[u8], t: &[u8], p: Preset, v: Vec<u8>, u: Vec<u8>|
        s@ == t@ && #[trigger] curve.ensures((s, p), v) && #[trigger] curve.ensures((t, p), u)
            ==> v@ == u@
    &&& forall|s: &[u8], t: &[u8], w: usize, h: usize, v: Vec<u8>, u: Vec<u8>|
        s@ == t@ && #[trigger] serpentine.ensures((s, w, h), v)
            && #[trigger] serpentine.ensures((t, w, h), u) ==> v@ == u@
}

proof fn lemma_one_level<
    F: Fn(&[u8], usize, usize) -> Vec<bool>,
    C: Fn(&[u8], Preset) -> Vec<u8>,
    S: Fn(&[u8], usize, usize) -> Vec<u8>,
>(
    gray: Seq<u8>,
    w: usize,
    h: usize,
    opts: RenderOptions,
    mode: PrintMode,
    floyd_steinberg: F,
    curve: C,
    serpentine: S,
    a: Seq<u8>,
    b: Seq<u8>,
)
    requires
        kernels_steady(floyd_steinberg, curve, serpentine),
        are_levels(gray, w, h, opts, mode, floyd_steinberg, curve, serpentine, a),
        are_levels(
            gray,
            w,
            h,
            RenderOptions { rotate_180: true, ..opts },
            mode,
            floyd_steinberg,
            curve,
            serpentine,
            b,
        ),
    ensures
        a == b,
{
    match mode {
        PrintMode::Mono => {
            let d = dither_of(opts);
            let x = choose|x: Seq<bool>| #[trigger]
                is_binarized(gray, w, h, d, floyd_steinberg, x) && a == bit_levels(x);
            let y = choose|y: Seq<bool>| #[trigger]
                is_binarized(gray, w, h, d, floyd_steinberg, y) && b == bit_levels(y);
            assert(is_binarized(gray, w, h, d, floyd_steinberg, x));
            assert(is_binarized(gray, w, h, d, floyd_steinberg, y));
            assert(x == y);
        },
        PrintMode::Gray4 => {},
    }
}

/// Packed upside down, in one request with rows that fill their bytes, a strip looks the same in the preview
/// and has the bytes of its rows in the opposite order, each mirrored, before the same white lines: where it
/// fits to the width in one way, as it does at its own and at nearby widths, and each kernel gives one result.
pub proof fn lemma_packed_upside_down<
    F: Fn(&[u8], usize, usize) -> Vec<bool>,
    C: Fn(&[u8], Preset) -> Vec<u8>,
    S: Fn(&[u8], usize, usize) -> Vec<u8>,
>(
    strip: GrayStrip,
    opts: RenderOptions,
    mode: PrintMode,
    width_px: u32,
    pad: bool,
    floyd_steinberg: F,
    curve: C,
    serpentine: S,
    a: Packed,
    b: Packed,
)
    requires
        kernels_steady(floyd_steinberg, curve, serpentine),
        !opts.rotate_180,
        strip.data@.len() == strip.width * strip.height,
        strip.width > 0,
        strip.height > 0,
        width_px > 0,
        width_px % 8 == 0,
        fits_one_way(
            strip.width as int,
            strip.height as int,
            strip.data@,
            width_px as int,
        ),
        0 < packed_height(strip, width_px) <= request_limit(opts),
        is_pack_of(strip, opts, mode, width_px, pad, floyd_steinberg, curve, serpentine, a),
        is_pack_of(
            strip,
            RenderOptions { rotate_180: true, ..opts },
            mode,
            width_px,
            pad,
            floyd_steinberg,
            curve,
            serpentine,
            b,
        ),
    ensures
        a.preview.data@ == b.preview.data@,
        a.row_bytes == b.row_bytes,
        a.data@.len() == b.data@.len(),
        packed_height(strip, width_px) * a.row_bytes <= a.data@.len(),
        forall|i: int|
            0 <= i < packed_height(strip, width_px) * a.row_bytes ==> (#[trigger] b.data@[i]) as int == mirrored(
                mode,
                a.data@[packed_height(strip, width_px) * a.row_bytes - 1 - i],
            ),
        forall|i: int|
            packed_height(strip, width_px) * a.row_bytes <= i < a.data@.len() ==> a.data@[i] == 0 && (
            #[trigger] b.data@[i]) == 0,
{
    let turned = RenderOptions { rotate_180: true, ..opts };
    let w = width_px;
    let h = packed_height(strip, width_px);
    let (g, l) = choose|g: Seq<u8>, l: Seq<u8>| #[trigger]
        packs_via(strip, opts, mode, w, pad, floyd_steinberg, curve, serpentine, a, g, l);
    let (k, m) = choose|k: Seq<u8>, m: Seq<u8>| #[trigger]
        packs_via(strip, turned, mode, w, pad, floyd_steinberg, curve, serpentine, b, k, m);
    assert(packs_via(strip, opts, mode, w, pad, floyd_steinberg, curve, serpentine, a, g, l));
    assert(packs_via(strip, turned, mode, w, pad, floyd_steinberg, curve, serpentine, b, k, m));
    let (sw, sh) = (strip.width as int, strip.height as int);
    assert(is_fit(sw, sh, strip.data@, w as int, g));
    assert(is_fit(sw, sh, strip.data@, w as int, k));
    assert(g == k);
    lemma_fit_len(sw, sh, strip.data@, w as int, g);
    lemma_one_level(
        g,
        w as usize,
        h as usize,
        opts,
        mode,
        floyd_steinberg,
        curve,
        serpentine,
        l,
        m,
    );
    lemma_upside_down(a, b, l, h, opts, mode, w, pad);
    assert forall|i: int| packed_height(strip, width_px) * a.row_bytes <= i < a.data@.len() implies a.data@[i] == 0 && (
    #[trigger] b.data@[i]) == 0 by {
        assert(a.data@[i] == 0);
    }
}

} // verus!
