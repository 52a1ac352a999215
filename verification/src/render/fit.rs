//! From a page to the head's width: the ink's bounds, cropping, and scaling.

use vstd::prelude::*;
use vstd::slice::slice_subrange;

use crate::raster::GrayPage;
use crate::render::{TRIM_PAD, TRIM_WHITE};

verus! {

/// Lines to millimetres at 203 dpi, to the nearest millimetre.
pub open spec fn spec_lines_to_mm(lines: int) -> int {
    (254 * lines + 1015) / 2030
}

/// Lines to millimetres at 203 dpi, to the nearest millimetre.
pub fn lines_to_mm(lines: u32) -> (r: u32)
    ensures
        r == spec_lines_to_mm(lines as int),
{
    ((254 * (lines as u64) + 1015) / 2030) as u32
}

/// The white kept around ink at a resolution: 8 pixels at 203 dpi, in proportion above, never
/// less.
pub open spec fn spec_trim_pad(dpi: int) -> int {
    if (16 * dpi + 203) / 406 > 8 {
        (16 * dpi + 203) / 406
    } else {
        8
    }
}

/// The white kept around ink at a resolution.
pub fn trim_pad(dpi: u32) -> (r: u32)
    ensures
        r == spec_trim_pad(dpi as int),
{
    let p: u64 = (16 * (dpi as u64) + 203) / 406;
    if p > TRIM_PAD as u64 {
        p as u32
    } else {
        TRIM_PAD
    }
}

// ------------------------------------------------------------------ ink

/// Some pixel of the buffer is ink.
pub open spec fn spec_has_ink(data: Seq<u8>) -> bool {
    exists|i: int| 0 <= i < data.len() && #[trigger] data[i] < TRIM_WHITE
}

/// Whether some pixel of the buffer is ink.
pub fn has_ink(data: &[u8]) -> (r: bool)
    ensures
        r == spec_has_ink(data@),
{
    let mut i: usize = 0;
    while i < data.len()
        invariant
            i <= data.len(),
            forall|j: int| 0 <= j < i ==> #[trigger] data@[j] >= TRIM_WHITE,
        decreases data.len() - i,
    {
        if data[i] < TRIM_WHITE {
            return true;
        }
        i += 1;
    }
    false
}

/// A box of rows and columns, the ends included.
#[derive(Debug, Clone, Copy, PartialEq, Eq, Structural)]
pub struct InkBox {
    pub top: u32,
    pub bottom: u32,
    pub left: u32,
    pub right: u32,
}

/// The pixel at row `y`, column `x` of the page is ink.
pub open spec fn ink_at(p: GrayPage, y: int, x: int) -> bool {
    0 <= y < p.height && 0 <= x < p.width && p.data@[y * p.width + x] < TRIM_WHITE
}

/// `b` is the smallest box that holds all ink of the page: no ink lies outside, and each side
/// touches some.
pub open spec fn is_ink_box(p: GrayPage, b: InkBox) -> bool {
    &&& forall|y: int, x: int| #[trigger]
        ink_at(p, y, x) ==> b.top <= y <= b.bottom && b.left <= x <= b.right
    &&& exists|x: int| #[trigger] ink_at(p, b.top as int, x)
    &&& exists|x: int| #[trigger] ink_at(p, b.bottom as int, x)
    &&& exists|y: int| #[trigger] ink_at(p, y, b.left as int)
    &&& exists|y: int| #[trigger] ink_at(p, y, b.right as int)
}

/// The ink's box.
pub open spec fn ink_box(p: GrayPage) -> InkBox {
    choose|b: InkBox| is_ink_box(p, b)
}

/// A page has one ink box.
pub proof fn lemma_ink_box_unique(p: GrayPage, b: InkBox)
    requires
        is_ink_box(p, b),
    ensures
        ink_box(p) == b,
{
    let c = ink_box(p);
    assert(is_ink_box(p, c));
    let x1 = choose|x: int| #[trigger] ink_at(p, b.top as int, x);
    let x2 = choose|x: int| #[trigger] ink_at(p, c.top as int, x);
    let x3 = choose|x: int| #[trigger] ink_at(p, b.bottom as int, x);
    let x4 = choose|x: int| #[trigger] ink_at(p, c.bottom as int, x);
    let y1 = choose|y: int| #[trigger] ink_at(p, y, b.left as int);
    let y2 = choose|y: int| #[trigger] ink_at(p, y, c.left as int);
    let y3 = choose|y: int| #[trigger] ink_at(p, y, b.right as int);
    let y4 = choose|y: int| #[trigger] ink_at(p, y, c.right as int);
    assert(ink_at(p, b.top as int, x1) && ink_at(p, c.top as int, x2));
    assert(ink_at(p, b.bottom as int, x3) && ink_at(p, c.bottom as int, x4));
    assert(ink_at(p, y1, b.left as int) && ink_at(p, y2, c.left as int));
    assert(ink_at(p, y3, b.right as int) && ink_at(p, y4, c.right as int));
}

/// The smallest box that holds all ink of the page.
pub fn find_ink_box(p: &GrayPage) -> (r: InkBox)
    requires
        p.valid(),
        spec_has_ink(p.data@),
    ensures
        is_ink_box(*p, r),
        r == ink_box(*p),
{
    let mut found = false;
    let mut b = InkBox { top: 0, bottom: 0, left: 0, right: 0 };
    let mut y: u32 = 0;
    let mut i: usize = 0;
    assert(0 * p.width == 0) by (nonlinear_arith);
    while y < p.height
        invariant
            y <= p.height,
            p.valid(),
            i == y * p.width,
            !found ==> forall|yy: int, xx: int| #[trigger] ink_at(*p, yy, xx) ==> yy >= y,
            found ==> {
                &&& forall|yy: int, xx: int| #[trigger]
                    ink_at(*p, yy, xx) && yy < y ==> b.top <= yy <= b.bottom && b.left <= xx
                        <= b.right
                &&& exists|x: int| #[trigger] ink_at(*p, b.top as int, x)
                &&& exists|x: int| #[trigger] ink_at(*p, b.bottom as int, x)
                &&& exists|yy: int| #[trigger] ink_at(*p, yy, b.left as int)
                &&& exists|yy: int| #[trigger] ink_at(*p, yy, b.right as int)
                &&& b.top <= b.bottom < y
                &&& b.left <= b.right
            },
        decreases p.height - y,
    {
        assert(y * p.width + p.width <= p.width * p.height && (y + 1) * p.width == y * p.width
            + p.width) by (nonlinear_arith)
            requires
                y + 1 <= p.height,
        ;
        let mut x: u32 = 0;
        while x < p.width
            invariant
                x <= p.width,
                y < p.height,
                p.valid(),
                i == y * p.width + x,
                y * p.width + p.width <= p.width * p.height,
                !found ==> forall|yy: int, xx: int| #[trigger]
                    ink_at(*p, yy, xx) ==> yy > y || (yy == y && xx >= x),
                found ==> {
                    &&& forall|yy: int, xx: int| #[trigger]
                        ink_at(*p, yy, xx) && (yy < y || (yy == y && xx < x)) ==> b.top <= yy
                            <= b.bottom && b.left <= xx <= b.right
                    &&& exists|x: int| #[trigger] ink_at(*p, b.top as int, x)
                    &&& exists|x: int| #[trigger] ink_at(*p, b.bottom as int, x)
                    &&& exists|yy: int| #[trigger] ink_at(*p, yy, b.left as int)
                    &&& exists|yy: int| #[trigger] ink_at(*p, yy, b.right as int)
                    &&& b.top <= b.bottom <= y
                    &&& b.left <= b.right
                },
            decreases p.width - x,
        {
            assert(p.data@.len() == p.data.len());
            if p.data[i] < TRIM_WHITE {
                assert(ink_at(*p, y as int, x as int));
                if !found {
                    found = true;
                    b = InkBox { top: y, bottom: y, left: x, right: x };
                } else {
                    b.bottom = y;
                    if x < b.left {
                        b.left = x;
                    }
                    if x > b.right {
                        b.right = x;
                    }
                }
            } else {
                assert(!ink_at(*p, y as int, x as int));
            }
            x += 1;
            i += 1;
        }
        y += 1;
    }
    proof {
        let k = choose|k: int| 0 <= k < p.data@.len() && #[trigger] p.data@[k] < TRIM_WHITE;
        let w = p.width as int;
        let yy = k / w;
        let xx = k % w;
        assert(k == yy * w + xx && 0 <= xx < w && 0 <= yy < p.height) by (nonlinear_arith)
            requires
                yy == k / w,
                xx == k % w,
                w > 0,
                0 <= k < w * p.height,
        ;
        assert(ink_at(*p, yy, xx));
        assert(found);
        lemma_ink_box_unique(*p, b);
    }
    b
}

// ------------------------------------------------------------------ cropping

/// A part of a page: rows and columns, the ends left out.
#[derive(Debug, Clone, Copy, PartialEq, Eq, Structural)]
pub struct Crop {
    pub row0: u32,
    pub row1: u32,
    pub col0: u32,
    pub col1: u32,
}

impl Crop {
    /// The part is not empty and lies within the page.
    pub open spec fn within(self, p: GrayPage) -> bool {
        self.row0 < self.row1 <= p.height && self.col0 < self.col1 <= p.width
    }
}

/// The ink's box with white around it, kept within the page.
pub open spec fn spec_ink_bounds(p: GrayPage, pad: int) -> Crop {
    let b = ink_box(p);
    Crop {
        row0: (if b.top > pad {
            b.top - pad
        } else {
            0
        }) as u32,
        row1: (if b.bottom + pad + 1 < p.height {
            b.bottom + pad + 1
        } else {
            p.height as int
        }) as u32,
        col0: (if b.left > pad {
            b.left - pad
        } else {
            0
        }) as u32,
        col1: (if b.right + pad + 1 < p.width {
            b.right + pad + 1
        } else {
            p.width as int
        }) as u32,
    }
}

/// The ink's box with `pad` pixels of white around it, kept within the page.
pub fn ink_bounds(p: &GrayPage, pad: u32) -> (r: Crop)
    requires
        p.valid(),
        spec_has_ink(p.data@),
    ensures
        r == spec_ink_bounds(*p, pad as int),
        r.within(*p),
{
    let b = find_ink_box(p);
    assert(b.top <= b.bottom < p.height && b.left <= b.right < p.width) by {
        let x1 = choose|x: int| #[trigger] ink_at(*p, b.top as int, x);
        let x3 = choose|x: int| #[trigger] ink_at(*p, b.bottom as int, x);
        let y1 = choose|y: int| #[trigger] ink_at(*p, y, b.left as int);
        let y3 = choose|y: int| #[trigger] ink_at(*p, y, b.right as int);
        assert(ink_at(*p, b.top as int, x1) && ink_at(*p, b.bottom as int, x3));
        assert(ink_at(*p, y1, b.left as int) && ink_at(*p, y3, b.right as int));
    }
    let bottom: u64 = b.bottom as u64 + pad as u64 + 1;
    let right: u64 = b.right as u64 + pad as u64 + 1;
    Crop {
        row0: if b.top > pad {
            b.top - pad
        } else {
            0
        },
        row1: if bottom < p.height as u64 {
            bottom as u32
        } else {
            p.height
        },
        col0: if b.left > pad {
            b.left - pad
        } else {
            0
        },
        col1: if right < p.width as u64 {
            right as u32
        } else {
            p.width
        },
    }
}

/// The pixels of `n` rows of the part, from its first row.
pub open spec fn crop_rows(data: Seq<u8>, width: int, c: Crop, n: nat) -> Seq<u8>
    decreases n,
{
    if n == 0 {
        Seq::empty()
    } else {
        crop_rows(data, width, c, (n - 1) as nat) + data.subrange(
            (c.row0 + n - 1) * width + c.col0,
            (c.row0 + n - 1) * width + c.col1,
        )
    }
}

/// The pixels of a part of a page.
pub open spec fn spec_crop(p: GrayPage, c: Crop) -> Seq<u8> {
    crop_rows(p.data@, p.width as int, c, (c.row1 - c.row0) as nat)
}

/// The pixels of a part of a page.
pub fn crop(p: &GrayPage, c: Crop) -> (r: Vec<u8>)
    requires
        p.valid(),
        c.within(*p),
    ensures
        r@ == spec_crop(*p, c),
        r@.len() == (c.row1 - c.row0) * (c.col1 - c.col0),
{
    let n: u32 = c.row1 - c.row0;
    let ghost w = p.width as int;
    let ghost cw = (c.col1 - c.col0) as int;
    let mut out: Vec<u8> = Vec::new();
    let mut k: u32 = 0;
    assert(0 * cw == 0) by (nonlinear_arith);
    while k < n
        invariant
            k <= n,
            n == c.row1 - c.row0,
            w == p.width,
            cw == c.col1 - c.col0,
            p.valid(),
            c.within(*p),
            out@ == crop_rows(p.data@, w, c, k as nat),
            out@.len() == k * cw,
        decreases n - k,
    {
        let row = p.row(c.row0 + k);
        let ghost y = (c.row0 + k) as int;
        assert((y + 1) * w == y * w + w) by (nonlinear_arith);
        assert(0 <= y * w && y * w + w <= p.data@.len()) by (nonlinear_arith)
            requires
                0 <= y < p.height,
                w == p.width,
                p.data@.len() == p.width * p.height,
        ;
        let part = slice_subrange(row, c.col0 as usize, c.col1 as usize);
        assert(part@ == p.data@.subrange(y * w + c.col0, y * w + c.col1));
        out.extend_from_slice(part);
        assert(out@ == crop_rows(p.data@, w, c, (k + 1) as nat));
        assert((k + 1) * cw == k * cw + cw) by (nonlinear_arith);
        k += 1;
    }
    out
}

// ------------------------------------------------------------------ scaling

/// The height of a `w` by `h` image scaled to width `width`: in proportion, to the nearest line
/// (halves up), at least 1.
pub open spec fn scaled_height(w: int, h: int, width: int) -> int {
    let n = (2 * h * width + w) / (2 * w);
    if n < 1 {
        1
    } else if n > u32::MAX {
        u32::MAX as int
    } else {
        n
    }
}

/// Widths that differ by at most 8 are padded or cut instead of scaled.
pub open spec fn near(w: int, width: int) -> bool {
    -8 <= w - width <= 8
}

/// The height after fitting to `width`.
pub open spec fn fit_height(w: int, h: int, width: int) -> int {
    if near(w, width) {
        h
    } else {
        scaled_height(w, h, width)
    }
}

/// The height after fitting to `width`.
pub fn height_for(w: u32, h: u32, width: u32) -> (r: u32)
    requires
        w > 0,
    ensures
        r == fit_height(w as int, h as int, width as int),
{
    let diff: i64 = w as i64 - width as i64;
    if -8 <= diff && diff <= 8 {
        return h;
    }
    assert(2 * h * width <= 2 * 0xffff_ffff * 0xffff_ffff) by (nonlinear_arith)
        requires
            h <= 0xffff_ffff,
            width <= 0xffff_ffff,
    ;
    let n: u128 = (2 * (h as u128) * (width as u128) + w as u128) / (2 * (w as u128));
    if n < 1 {
        1
    } else if n > 0xffff_ffff {
        0xffff_ffff
    } else {
        n as u32
    }
}

/// Pixels of a side of `n` can be told from those of a side of `m` in single precision: the scaler reaches a
/// position by at most six operations, each of which is off by at most one part in 2^24 of the shorter side,
/// and all together by less than half a pixel of it.
pub open spec fn tells_apart(n: int, m: int) -> bool {
    12 * n < 0x100_0000 || 12 * m < 0x100_0000
}

/// A `w` by `h` image can be scaled to `nw` by `nh`: the scaler, which computes pixel positions in single
/// precision, finds pixels under every position, and its buffers can be addressed.
pub open spec fn can_scale(w: int, h: int, nw: int, nh: int) -> bool {
    &&& tells_apart(w, nw)
    &&& tells_apart(h, nh)
    &&& 16 * (w * nh) <= isize::MAX
    &&& nw * nh <= isize::MAX
}

/// A `w` by `h` image can be fitted to width `width`.
pub open spec fn can_fit(w: int, h: int, width: int) -> bool {
    if near(w, width) {
        width * h <= isize::MAX
    } else {
        can_scale(w, h, width, scaled_height(w, h, width))
    }
}

fn told_apart(n: u32, m: u32) -> (r: bool)
    ensures
        r == tells_apart(n as int, m as int),
{
    12 * (n as u64) < 0x100_0000 || 12 * (m as u64) < 0x100_0000
}

/// Whether a `w` by `h` image can be fitted to width `width`.
pub fn fits(w: u32, h: u32, width: u32) -> (r: bool)
    requires
        w > 0,
    ensures
        r == can_fit(w as int, h as int, width as int),
{
    let max: u128 = isize::MAX as u128;
    let nh: u32 = height_for(w, h, width);
    assert(w * nh <= 0xffff_ffff * 0xffff_ffff && width * nh <= 0xffff_ffff * 0xffff_ffff)
        by (nonlinear_arith)
        requires
            w <= 0xffff_ffff,
            nh <= 0xffff_ffff,
            width <= 0xffff_ffff,
    ;
    let diff: i64 = w as i64 - width as i64;
    let size: u128 = (width as u128) * (nh as u128);
    if -8 <= diff && diff <= 8 {
        size <= max
    } else {
        told_apart(w, width) && told_apart(h, nh) && 16 * ((w as u128) * (nh as u128)) <= max && size
            <= max
    }
}

/// `out` can come of scaling the `w` by `h` gray image `data` to `nw` by `nh` with the Lanczos filter of
/// three lobes. (The filter computes in floating point, whose sine may differ in the last bit from one
/// machine to another, so there may be more than one.)
pub uninterp spec fn can_scale_to(
    w: u32,
    h: u32,
    data: Seq<u8>,
    nw: u32,
    nh: u32,
    out: Seq<u8>,
) -> bool;

/// `image::imageops::resize` with the Lanczos filter of three lobes, over an 8-bit gray buffer: what
/// scaling this image to this size can give, a byte for every pixel. Positions are computed in single
/// precision; where both sides are so long that a position falls beside every pixel, the weights add up to
/// zero, their quotient is no number and its conversion panics: `can_scale` leaves out the sizes at which
/// that cannot be ruled out.
#[verifier::external_body]
fn resize_lanczos3(w: u32, h: u32, data: &[u8], nw: u32, nh: u32) -> (r: Vec<u8>)
    requires
        w > 0,
        h > 0,
        data@.len() == w * h,
        can_scale(w as int, h as int, nw as int, nh as int),
    ensures
        can_scale_to(w, h, data@, nw, nh, r@),
        r@.len() == nw * nh,
{
    let img = image::GrayImage::from_raw(w, h, data.to_vec()).unwrap();
    image::imageops::resize(&img, nw, nh, image::imageops::FilterType::Lanczos3).into_raw()
}

/// `n` white pixels.
pub open spec fn white(n: int) -> Seq<u8> {
    Seq::new(n as nat, |i: int| 255u8)
}

/// Row `y` of a `w` wide image, brought to a nearby width: white on both sides (the odd pixel on the
/// right), or cut on both sides (the odd pixel on the right).
pub open spec fn centred_row(data: Seq<u8>, w: int, width: int, y: int) -> Seq<u8> {
    if w <= width {
        let left = (width - w) / 2;
        white(left) + data.subrange(y * w, y * w + w) + white(width - w - left)
    } else {
        let left = (w - width) / 2;
        data.subrange(y * w + left, y * w + left + width)
    }
}

/// The first `n` rows, each brought to a nearby width.
pub open spec fn centred(data: Seq<u8>, w: int, width: int, n: nat) -> Seq<u8>
    decreases n,
{
    if n == 0 {
        Seq::empty()
    } else {
        centred(data, w, width, (n - 1) as nat) + centred_row(data, w, width, n - 1)
    }
}

/// `out` is the `w` by `h` image `data` fitted to `width`: unchanged where it has that width, its
/// rows padded or cut where the width is near, else scaled.
pub open spec fn is_fit(w: int, h: int, data: Seq<u8>, width: int, out: Seq<u8>) -> bool {
    if w == width {
        out == data
    } else if near(w, width) {
        out == centred(data, w, width, h as nat)
    } else {
        let nh = scaled_height(w, h, width);
        out.len() == width * nh && can_scale_to(
            w as u32,
            h as u32,
            data,
            width as u32,
            nh as u32,
            out,
        )
    }
}

fn push_white(out: &mut Vec<u8>, n: usize)
    ensures
        final(out)@ == old(out)@ + white(n as int),
{
    let mut i: usize = 0;
    while i < n
        invariant
            i <= n,
            out@ == old(out)@ + white(i as int),
        decreases n - i,
    {
        out.push(255);
        i += 1;
        assert(out@ =~= old(out)@ + white(i as int));
    }
}

/// Makes the width exactly `width`: Lanczos scaling in both directions, except that widths within 8
/// pixels are padded with white or cut at both sides (so that 383- and 384-pixel tape rasters stay
/// sharp). The height keeps the aspect ratio.
pub fn fit_width(w: u32, h: u32, data: &[u8], width: u32) -> (r: (u32, u32, Vec<u8>))
    requires
        w > 0,
        h > 0,
        data@.len() == w * h,
        can_fit(w as int, h as int, width as int),
    ensures
        ({
            let (rw, rh, out) = r;
            &&& rw == width
            &&& rh == fit_height(w as int, h as int, width as int)
            &&& is_fit(w as int, h as int, data@, width as int, out@)
            &&& out@.len() == rw * rh
        }),
{
    if w == width {
        let mut out: Vec<u8> = Vec::new();
        out.extend_from_slice(data);
        assert(out@ == data@);
        return (w, h, out);
    }
    let diff: i64 = w as i64 - width as i64;
    if -8 <= diff && diff <= 8 {
        let wu: usize = w as usize;
        let mut out: Vec<u8> = Vec::new();
        let mut y: u32 = 0;
        let mut at: usize = 0;
        assert(0 * w == 0 && 0 * width == 0) by (nonlinear_arith);
        while y < h
            invariant
                y <= h,
                wu == w,
                w != width,
                -8 <= w - width <= 8,
                diff == w - width,
                data@.len() == w * h,
                at == y * w,
                out@ == centred(data@, w as int, width as int, y as nat),
                out@.len() == y * width,
            decreases h - y,
        {
            assert(y * w + w <= w * h && (y + 1) * w == y * w + w && (y + 1) * width == y * width
                + width) by (nonlinear_arith)
                requires
                    y + 1 <= h,
            ;
            assert(data@.len() == data.len());
            let ghost before = out@;
            if diff < 0 {
                let left: usize = (width - w) as usize / 2;
                let right: usize = (width - w) as usize - left;
                push_white(&mut out, left);
                let row = slice_subrange(data, at, at + wu);
                out.extend_from_slice(row);
                push_white(&mut out, right);
                assert(out@ =~= before + centred_row(data@, w as int, width as int, y as int));
            } else {
                let left: usize = (w - width) as usize / 2;
                let row = slice_subrange(data, at + left, at + left + width as usize);
                out.extend_from_slice(row);
                assert(out@ =~= before + centred_row(data@, w as int, width as int, y as int));
            }
            at += wu;
            y += 1;
        }
        assert(h * width == width * h) by (nonlinear_arith);
        return (width, h, out);
    }
    let nh = height_for(w, h, width);
    let out = resize_lanczos3(w, h, data, width, nh);
    (width, nh, out)
}

// ------------------------------------------------------------------ laws

/// The image fits to the width in one way. (Scaling computes in floating point, and is not said to give the
/// same twice.)
pub open spec fn fits_one_way(w: int, h: int, data: Seq<u8>, width: int) -> bool {
    forall|a: Seq<u8>, b: Seq<u8>|
        #[trigger] is_fit(w, h, data, width, a) && #[trigger] is_fit(w, h, data, width, b) ==> a == b
}

/// Where nothing is scaled, an image fits in one way.
pub proof fn lemma_near_fits_one_way(w: int, h: int, data: Seq<u8>, width: int)
    requires
        near(w, width),
    ensures
        fits_one_way(w, h, data, width),
{
}

proof fn lemma_centred_len(data: Seq<u8>, w: int, width: int, n: nat)
    requires
        near(w, width),
        w > 0,
        width > 0,
        n * w <= data.len(),
    ensures
        centred(data, w, width, n).len() == width * n,
    decreases n,
{
    if n > 0 {
        let m = (n - 1) as nat;
        assert(n * w == m * w + w && width * n == width * m + width && m * w >= 0) by (nonlinear_arith)
            requires
                n == m + 1,
                m >= 0,
                w > 0,
        ;
        lemma_centred_len(data, w, width, m);
        assert(centred_row(data, w, width, n - 1).len() == width);
    } else {
        assert(width * 0 == 0) by (nonlinear_arith);
    }
}

/// A fitted image has a byte for every pixel.
pub proof fn lemma_fit_len(w: int, h: int, data: Seq<u8>, width: int, out: Seq<u8>)
    requires
        w > 0,
        h > 0,
        width > 0,
        data.len() == w * h,
        is_fit(w, h, data, width, out),
    ensures
        out.len() == width * fit_height(w, h, width),
{
    if w != width && near(w, width) {
        assert(h * w == w * h) by (nonlinear_arith);
        lemma_centred_len(data, w, width, h as nat);
    }
}

} // verus!
