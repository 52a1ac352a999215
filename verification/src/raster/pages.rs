//! The pages of a raster stream, as gray pages.
//!
//! Gray of 8 bits (`sgray_8`), black of 1 bit (`black_1`) and color of 24 bits (`srgb_24`) are read;
//! anything else is not supported.

use vstd::prelude::*;
use vstd::slice::slice_subrange;

use crate::raster::stream::{
    copies, is_big, is_coded, is_header, least, lemma_unpack, next_row, read_header, read_line, rows,
    word, Coding,
};
use crate::raster::{
    spec_sync, sync_of, GrayPage, Limits, PwgHeader, RasterError, Sync, HEADER_LEN,
};
use crate::text::owned;

verus! {

/// What a raster error says.
pub enum RasterErrorView {
    BadSync,
    Truncated { page: u32, line: u32 },
    Unsupported { cspace: u32, bpp: u32, order: u32 },
    BadHeader(Seq<char>),
    TooLarge(Seq<char>),
}

impl RasterError {
    /// What the error says.
    pub open spec fn model(self) -> RasterErrorView {
        match self {
            RasterError::BadSync => RasterErrorView::BadSync,
            RasterError::Truncated { page, line } => RasterErrorView::Truncated { page, line },
            RasterError::Unsupported { cspace, bpp, order } => RasterErrorView::Unsupported {
                cspace,
                bpp,
                order,
            },
            RasterError::BadHeader(s) => RasterErrorView::BadHeader(s@),
            RasterError::TooLarge(s) => RasterErrorView::TooLarge(s@),
        }
    }
}

// ------------------------------------------------------------------ pixels

/// The pixels that are read.
#[derive(Debug, Clone, Copy, PartialEq, Eq, Structural)]
pub enum Pixel {
    Gray8,
    Black1,
    Rgb24,
}

/// The color space of gray.
pub const SPACE_GRAY: u32 = 18;

/// The color space of black.
pub const SPACE_BLACK: u32 = 3;

/// The color space of color.
pub const SPACE_RGB: u32 = 19;

/// The shape of a page, by its header.
pub struct Shape {
    pub width: u32,
    pub height: u32,
    pub bits_per_color: u32,
    pub bits_per_pixel: u32,
    pub bytes_per_line: u32,
    pub order: u32,
    pub space: u32,
    pub dpi: u32,
}

/// The shape of the page whose header is at a place.
pub open spec fn shape_at(b: Seq<u8>, at: int, sync: Sync) -> Shape {
    let big = is_big(sync);
    Shape {
        width: word(b, at + 372, big),
        height: word(b, at + 376, big),
        bits_per_color: word(b, at + 384, big),
        bits_per_pixel: word(b, at + 388, big),
        bytes_per_line: word(b, at + 392, big),
        order: word(b, at + 396, big),
        space: word(b, at + 400, big),
        dpi: word(b, at + 276, big),
    }
}

/// The pixels of a page; they must stand together.
pub open spec fn pixel_of(s: Shape) -> Option<Pixel> {
    if s.order != 0 {
        None
    } else if s.space == SPACE_GRAY && s.bits_per_color == 8 && s.bits_per_pixel == 8 {
        Some(Pixel::Gray8)
    } else if s.space == SPACE_BLACK && s.bits_per_color == 1 && s.bits_per_pixel == 1 {
        Some(Pixel::Black1)
    } else if s.space == SPACE_RGB && s.bits_per_color == 8 && s.bits_per_pixel == 24 {
        Some(Pixel::Rgb24)
    } else {
        None
    }
}

/// The bytes of a line.
pub open spec fn line_bytes(p: Pixel, width: int) -> int {
    match p {
        Pixel::Gray8 => width,
        Pixel::Black1 => (width + 7) / 8,
        Pixel::Rgb24 => 3 * width,
    }
}

/// How the lines of a page are coded.
pub open spec fn coding_of(p: Pixel, width: int, sync: Sync) -> Coding {
    Coding {
        len: line_bytes(p, width),
        unit: if p == Pixel::Rgb24 {
            3
        } else {
            1
        },
        white: if p == Pixel::Black1 {
            0
        } else {
            255
        },
        coded: is_coded(sync),
    }
}

/// The weight of the bit of a pixel in its byte: the first is the highest.
pub open spec fn bit_weight(x: int) -> int {
    if x % 8 == 0 {
        128
    } else if x % 8 == 1 {
        64
    } else if x % 8 == 2 {
        32
    } else if x % 8 == 3 {
        16
    } else if x % 8 == 4 {
        8
    } else if x % 8 == 5 {
        4
    } else if x % 8 == 6 {
        2
    } else {
        1
    }
}

/// The brightness of a color, by the weights of Rec. 709, to the nearest whole number.
pub open spec fn luma(r: u8, g: u8, b: u8) -> u8 {
    ((2126 * r + 7152 * g + 722 * b + 5000) / 10000) as u8
}

/// The brightness of a color.
pub fn luma_of(r: u8, g: u8, b: u8) -> (v: u8)
    ensures
        v == luma(r, g, b),
{
    let n: u32 = 2126 * (r as u32) + 7152 * (g as u32) + 722 * (b as u32) + 5000;
    (n / 10000) as u8
}

/// The gray of a pixel of a line.
pub open spec fn gray_at(p: Pixel, line: Seq<u8>, x: int) -> u8 {
    match p {
        Pixel::Gray8 => line[x],
        Pixel::Black1 => if (line[x / 8] as int / bit_weight(x)) % 2 == 1 {
            0
        } else {
            255
        },
        Pixel::Rgb24 => luma(line[3 * x], line[3 * x + 1], line[3 * x + 2]),
    }
}

/// The grays of a line.
pub open spec fn gray_row(p: Pixel, line: Seq<u8>, width: int) -> Seq<u8> {
    Seq::new(width as nat, |x: int| gray_at(p, line, x))
}

/// The grays of lines, one after another.
pub open spec fn gray_rows(p: Pixel, lines: Seq<Seq<u8>>, width: int) -> Seq<u8>
    decreases lines.len(),
{
    if lines.len() == 0 {
        Seq::empty()
    } else {
        gray_rows(p, lines.drop_last(), width) + gray_row(p, lines.last(), width)
    }
}

fn weight(x: usize) -> (r: u8)
    ensures
        r == bit_weight(x as int),
        r > 0,
{
    let k: usize = x % 8;
    if k == 0 {
        128
    } else if k == 1 {
        64
    } else if k == 2 {
        32
    } else if k == 3 {
        16
    } else if k == 4 {
        8
    } else if k == 5 {
        4
    } else if k == 6 {
        2
    } else {
        1
    }
}

fn to_gray(p: Pixel, line: &Vec<u8>, width: usize) -> (r: Vec<u8>)
    requires
        line@.len() == line_bytes(p, width as int),
        width <= 0xffff_ffff,
    ensures
        r@ == gray_row(p, line@, width as int),
{
    let mut out: Vec<u8> = Vec::new();
    let mut x: usize = 0;
    assert(line@.len() == line.len());
    while x < width
        invariant
            x <= width,
            width <= 0xffff_ffff,
            line@.len() == line_bytes(p, width as int),
            line@.len() == line.len(),
            out@.len() == x,
            forall|k: int| 0 <= k < x ==> #[trigger] out@[k] == gray_at(p, line@, k),
        decreases width - x,
    {
        let v: u8 = match p {
            Pixel::Gray8 => line[x],
            Pixel::Black1 => {
                let w: u8 = weight(x);
                if (line[x / 8] / w) % 2 == 1 {
                    0
                } else {
                    255
                }
            },
            Pixel::Rgb24 => luma_of(line[3 * x], line[3 * x + 1], line[3 * x + 2]),
        };
        out.push(v);
        x += 1;
    }
    assert(out@ =~= gray_row(p, line@, width as int));
    out
}

// ------------------------------------------------------------------ lines

/// Lines end within the stream, are as many as were asked for, and have their length.
pub(crate) proof fn lemma_rows(b: Seq<u8>, pos: int, left: int, c: Coding, acc: Seq<Seq<u8>>)
    requires
        0 <= pos <= b.len(),
        left >= 0,
        c.len >= 0,
        c.unit >= 1,
    ensures
        match rows(b, pos, left, c, acc) {
            (lines, Some(end)) => pos <= end <= b.len() && lines.len() == acc.len() + left,
            (lines, None) => acc.len() <= lines.len() < acc.len() + left,
        },
    decreases left,
{
    if left > 0 {
        if c.coded && pos < b.len() {
            lemma_unpack(b, pos + 1, c.len, c.unit, c.white);
        }
        match next_row(b, pos, c) {
            Some((line, count, end)) => {
                let k = least(count, left);
                if k >= 1 {
                    lemma_rows(b, end, left - k, c, acc + copies(line, k));
                }
            },
            None => {},
        }
    }
}

/// The grays of more copies of a line.
proof fn lemma_gray_copy(p: Pixel, lines: Seq<Seq<u8>>, line: Seq<u8>, n: int, width: int)
    requires
        n >= 0,
    ensures
        gray_rows(p, lines + copies(line, n + 1), width) == gray_rows(
            p,
            lines + copies(line, n),
            width,
        ) + gray_row(p, line, width),
{
    let m = lines + copies(line, n + 1);
    assert(m.drop_last() =~= lines + copies(line, n));
    assert(m.last() == line);
}

/// Reads the lines of a page. Gives the grays and the end, or the number of lines that are there.
fn read_page(b: &[u8], from: usize, p: Pixel, width: u32, height: u32, coded: bool) -> (r: Result<
    (Vec<u8>, usize),
    u32,
>)
    requires
        from <= b@.len(),
        line_bytes(p, width as int) <= 0xffff_ffff,
    ensures
        ({
            let c = Coding {
                len: line_bytes(p, width as int),
                unit: if p == Pixel::Rgb24 {
                    3
                } else {
                    1
                },
                white: if p == Pixel::Black1 {
                    0
                } else {
                    255
                },
                coded,
            };
            let (lines, end) = rows(b@, from as int, height as int, c, Seq::empty());
            match r {
                Ok((data, e)) => {
                    &&& end == Some(e as int)
                    &&& from <= e <= b@.len()
                    &&& data@ == gray_rows(p, lines, width as int)
                },
                Err(n) => end is None && n == lines.len(),
            }
        }),
{
    let len: usize = match p {
        Pixel::Gray8 => width as usize,
        Pixel::Black1 => (width as usize / 8) + if width % 8 == 0 {
            0
        } else {
            1
        },
        Pixel::Rgb24 => 3 * width as usize,
    };
    let unit: usize = if p == Pixel::Rgb24 {
        3
    } else {
        1
    };
    let white: u8 = if p == Pixel::Black1 {
        0
    } else {
        255
    };
    let ghost c = Coding { len: len as int, unit: unit as int, white, coded };
    let ghost whole = rows(b@, from as int, height as int, c, Seq::empty());
    let ghost mut acc: Seq<Seq<u8>> = Seq::empty();
    assert(len == line_bytes(p, width as int));
    assert(b@.len() == b.len());
    let mut data: Vec<u8> = Vec::new();
    let mut pos: usize = from;
    let mut done: u32 = 0;
    assert(data@ =~= gray_rows(p, acc, width as int));
    while done < height
        invariant
            done <= height,
            from <= pos <= b@.len(),
            b@.len() == b.len(),
            len == line_bytes(p, width as int),
            unit == if p == Pixel::Rgb24 {
                3
            } else {
                1usize
            },
            white == if p == Pixel::Black1 {
                0
            } else {
                255u8
            },
            c == (Coding { len: len as int, unit: unit as int, white, coded }),
            acc.len() == done,
            whole == rows(b@, pos as int, height - done, c, acc),
            whole == rows(b@, from as int, height as int, c, Seq::empty()),
            data@ == gray_rows(p, acc, width as int),
        decreases height - done,
    {
        let (line, count, end) = if coded {
            if pos >= b.len() {
                return Err(done);
            }
            match read_line(b, pos + 1, len, unit, white, true) {
                Some((line, end)) => (line, b[pos] as u32 + 1, end),
                None => return Err(done),
            }
        } else {
            if len > b.len() - pos {
                return Err(done);
            }
            let part = slice_subrange(b, pos, pos + len);
            let mut line: Vec<u8> = Vec::new();
            line.extend_from_slice(part);
            assert(line@ =~= b@.subrange(pos as int, pos + len));
            (line, 1, pos + len)
        };
        let left: u32 = height - done;
        let k: u32 = if count < left {
            count
        } else {
            left
        };
        assert(next_row(b@, pos as int, c) == Some((line@, count as int, end as int)));
        let gray = to_gray(p, &line, width as usize);
        let mut i: u32 = 0;
        assert(acc + copies(line@, 0) =~= acc);
        while i < k
            invariant
                i <= k,
                gray@ == gray_row(p, line@, width as int),
                data@ == gray_rows(p, acc + copies(line@, i as int), width as int),
            decreases k - i,
        {
            let ghost was = data@;
            data.extend_from_slice(gray.as_slice());
            assert(data@ =~= was + gray@);
            proof {
                lemma_gray_copy(p, acc, line@, i as int, width as int);
            }
            i += 1;
        }
        proof {
            acc = acc + copies(line@, k as int);
        }
        done = done + k;
        pos = end;
    }
    Ok((data, pos))
}

// ------------------------------------------------------------------ pages

/// What is wrong with a page of a shape, after `pages` pages with `pixels` pixels.
pub open spec fn shape_error(s: Shape, limits: Limits, pixels: int) -> Option<RasterErrorView> {
    match pixel_of(s) {
        None => Some(
            RasterErrorView::Unsupported {
                cspace: s.space,
                bpp: s.bits_per_pixel,
                order: s.order,
            },
        ),
        Some(p) => if s.width == 0 || s.height == 0 {
            Some(RasterErrorView::BadHeader("empty page"@))
        } else if s.width > limits.max_width {
            Some(RasterErrorView::TooLarge("page too wide"@))
        } else if s.height > limits.max_height {
            Some(RasterErrorView::TooLarge("page too long"@))
        } else if pixels + s.width * s.height > limits.max_pixels_total {
            Some(RasterErrorView::TooLarge("too many pixels"@))
        } else if s.bytes_per_line != line_bytes(p, s.width as int) {
            Some(RasterErrorView::BadHeader("bytes per line"@))
        } else {
            None
        },
    }
}

/// What is known of a page.
pub struct PageView {
    pub width: u32,
    pub height: u32,
    pub dpi: u32,
    pub data: Seq<u8>,
}

impl GrayPage {
    /// What is known of the page.
    pub open spec fn model(self) -> PageView {
        PageView { width: self.width, height: self.height, dpi: self.dpi, data: self.data@ }
    }
}

/// What is known of pages.
pub open spec fn page_views(v: Seq<GrayPage>) -> Seq<PageView> {
    Seq::new(v.len(), |i: int| v[i].model())
}

/// The pages from a place on, after those of `acc` with `pixels` pixels; or the first error.
pub open spec fn pages_from(
    b: Seq<u8>,
    pos: int,
    sync: Sync,
    limits: Limits,
    pixels: int,
    acc: Seq<PageView>,
) -> Result<Seq<PageView>, RasterErrorView>
    decreases b.len() - pos,
    via pages_decreases
{
    let s = shape_at(b, pos, sync);
    if pos < 0 || pos >= b.len() {
        Ok(acc)
    } else if acc.len() >= limits.max_pages {
        Err(RasterErrorView::TooLarge("too many pages"@))
    } else if pos + HEADER_LEN > b.len() {
        Err(RasterErrorView::Truncated { page: (acc.len() + 1) as u32, line: 0 })
    } else if shape_error(s, limits, pixels) is Some {
        Err(shape_error(s, limits, pixels)->0)
    } else {
        let p = pixel_of(s)->0;
        match rows(
            b,
            pos + HEADER_LEN,
            s.height as int,
            coding_of(p, s.width as int, sync),
            Seq::empty(),
        ) {
            (lines, None) => Err(
                RasterErrorView::Truncated {
                    page: (acc.len() + 1) as u32,
                    line: lines.len() as u32,
                },
            ),
            (lines, Some(end)) => pages_from(
                b,
                end,
                sync,
                limits,
                pixels + s.width * s.height,
                acc.push(
                    PageView {
                        width: s.width,
                        height: s.height,
                        dpi: s.dpi,
                        data: gray_rows(p, lines, s.width as int),
                    },
                ),
            ),
        }
    }
}

#[via_fn]
proof fn pages_decreases(
    b: Seq<u8>,
    pos: int,
    sync: Sync,
    limits: Limits,
    pixels: int,
    acc: Seq<PageView>,
) {
    let s = shape_at(b, pos, sync);
    if 0 <= pos && pos + HEADER_LEN <= b.len() && pixel_of(s) is Some {
        lemma_rows(
            b,
            pos + HEADER_LEN,
            s.height as int,
            coding_of(pixel_of(s)->0, s.width as int, sync),
            Seq::empty(),
        );
    }
}

/// The pages of a stream, or the first error.
pub open spec fn spec_decode(b: Seq<u8>, limits: Limits) -> Result<Seq<PageView>, RasterErrorView> {
    match spec_sync(b) {
        Some(sync) => pages_from(b, 4, sync, limits, 0, Seq::empty()),
        None => Err(RasterErrorView::BadSync),
    }
}

fn pixel_for(h: &PwgHeader) -> (r: Option<Pixel>)
    ensures
        forall|s: Shape|
            s.order == h.color_order && s.space == h.color_space && s.bits_per_color
                == h.bits_per_color && s.bits_per_pixel == h.bits_per_pixel ==> r
                == #[trigger] pixel_of(s),
{
    if h.color_order != 0 {
        None
    } else if h.color_space == SPACE_GRAY && h.bits_per_color == 8 && h.bits_per_pixel == 8 {
        Some(Pixel::Gray8)
    } else if h.color_space == SPACE_BLACK && h.bits_per_color == 1 && h.bits_per_pixel == 1 {
        Some(Pixel::Black1)
    } else if h.color_space == SPACE_RGB && h.bits_per_color == 8 && h.bits_per_pixel == 24 {
        Some(Pixel::Rgb24)
    } else {
        None
    }
}

/// Decodes every page to gray, within the limits.
#[verifier::rlimit(50)]
pub fn decode(bytes: &[u8], limits: &Limits) -> (r: Result<Vec<GrayPage>, RasterError>)
    ensures
        match r {
            Ok(v) => spec_decode(bytes@, *limits) == Ok::<Seq<PageView>, RasterErrorView>(
                page_views(v@),
            ),
            Err(e) => spec_decode(bytes@, *limits) == Err::<Seq<PageView>, RasterErrorView>(
                e.model(),
            ),
        },
{
    let sync = match sync_of(bytes) {
        Some(s) => s,
        None => return Err(RasterError::BadSync),
    };
    let ghost b = bytes@;
    let ghost whole = spec_decode(b, *limits);
    let coded = sync == Sync::V2BigEndian || sync == Sync::V2LittleEndian;
    let mut out: Vec<GrayPage> = Vec::new();
    let mut pos: usize = 4;
    let mut pixels: u64 = 0;
    assert(page_views(out@) =~= Seq::<PageView>::empty());
    assert(bytes@.len() == bytes.len());
    while pos < bytes.len()
        invariant
            pos <= bytes.len(),
            b == bytes@,
            bytes@.len() == bytes.len(),
            coded == is_coded(sync),
            whole == pages_from(b, pos as int, sync, *limits, pixels as int, page_views(out@)),
            whole == spec_decode(b, *limits),
            out@.len() <= limits.max_pages,
        decreases bytes.len() - pos,
    {
        let ghost was = out@;
        assert(page_views(was).len() == was.len());
        if out.len() as u64 >= limits.max_pages as u64 {
            return Err(RasterError::TooLarge(owned("too many pages")));
        }
        let page: u32 = out.len() as u32 + 1;
        if HEADER_LEN > bytes.len() - pos {
            return Err(RasterError::Truncated { page, line: 0 });
        }
        let h = read_header(bytes, pos, sync);
        let ghost s = shape_at(b, pos as int, sync);
        let p = match pixel_for(&h) {
            Some(p) => {
                assert(pixel_of(s) == Some(p));
                p
            },
            None => {
                assert(pixel_of(s) is None);
                return Err(
                    RasterError::Unsupported {
                        cspace: h.color_space,
                        bpp: h.bits_per_pixel,
                        order: h.color_order,
                    },
                );
            },
        };
        if h.width == 0 || h.height == 0 {
            return Err(RasterError::BadHeader(owned("empty page")));
        }
        if h.width > limits.max_width {
            return Err(RasterError::TooLarge(owned("page too wide")));
        }
        if h.height > limits.max_height {
            return Err(RasterError::TooLarge(owned("page too long")));
        }
        assert(h.width * h.height <= 0xffff_ffff * 0xffff_ffff) by (nonlinear_arith)
            requires
                h.width <= 0xffff_ffff,
                h.height <= 0xffff_ffff,
        ;
        assert(h.width * h.height >= 0) by (nonlinear_arith)
            requires
                h.width >= 0,
                h.height >= 0,
        ;
        let area: u64 = h.width as u64 * h.height as u64;
        let total: u128 = pixels as u128 + area as u128;
        if total > limits.max_pixels_total as u128 {
            return Err(RasterError::TooLarge(owned("too many pixels")));
        }
        let want: u64 = match p {
            Pixel::Gray8 => h.width as u64,
            Pixel::Black1 => (h.width as u64 + 7) / 8,
            Pixel::Rgb24 => 3 * h.width as u64,
        };
        if h.bytes_per_line as u64 != want {
            return Err(RasterError::BadHeader(owned("bytes per line")));
        }
        match read_page(bytes, pos + HEADER_LEN, p, h.width, h.height, coded) {
            Ok((data, end)) => {
                let g = GrayPage { width: h.width, height: h.height, dpi: h.hw_resolution.0, data };
                out.push(g);
                assert(page_views(out@) =~= page_views(was).push(g.model()));
                pixels = total as u64;
                pos = end;
            },
            Err(line) => return Err(RasterError::Truncated { page, line }),
        }
    }
    Ok(out)
}

// ------------------------------------------------------------------ headers only

/// How the lines of a page of any shape are skipped.
pub open spec fn skip_coding(s: Shape, sync: Sync) -> Coding {
    Coding {
        len: s.bytes_per_line as int,
        unit: if s.bits_per_pixel < 8 {
            1
        } else {
            (s.bits_per_pixel + 7) / 8
        },
        white: 0,
        coded: is_coded(sync),
    }
}

/// The number of a page.
pub open spec fn page_no(n: nat) -> u32 {
    if n > u32::MAX {
        u32::MAX
    } else {
        n as u32
    }
}

/// Where the headers from a place on are, after those of `acc`; or the first error.
pub open spec fn headers_from(b: Seq<u8>, pos: int, sync: Sync, acc: Seq<int>) -> Result<
    Seq<int>,
    RasterErrorView,
>
    decreases b.len() - pos,
    via headers_decreases
{
    let s = shape_at(b, pos, sync);
    if pos < 0 || pos >= b.len() {
        Ok(acc)
    } else if pos + HEADER_LEN > b.len() {
        Err(RasterErrorView::Truncated { page: page_no(acc.len() + 1), line: 0 })
    } else if s.bytes_per_line == 0 {
        Err(RasterErrorView::BadHeader("bytes per line"@))
    } else {
        match rows(b, pos + HEADER_LEN, s.height as int, skip_coding(s, sync), Seq::empty()) {
            (lines, None) => Err(
                RasterErrorView::Truncated {
                    page: page_no(acc.len() + 1),
                    line: lines.len() as u32,
                },
            ),
            (lines, Some(end)) => headers_from(b, end, sync, acc.push(pos)),
        }
    }
}

#[via_fn]
proof fn headers_decreases(b: Seq<u8>, pos: int, sync: Sync, acc: Seq<int>) {
    let s = shape_at(b, pos, sync);
    if 0 <= pos && pos + HEADER_LEN <= b.len() {
        lemma_rows(b, pos + HEADER_LEN, s.height as int, skip_coding(s, sync), Seq::empty());
    }
}

/// Where the headers of a stream are, or the first error.
pub open spec fn spec_headers(b: Seq<u8>) -> Result<Seq<int>, RasterErrorView> {
    match spec_sync(b) {
        Some(sync) => headers_from(b, 4, sync, Seq::empty()),
        None => Err(RasterErrorView::BadSync),
    }
}

/// Skips the lines of a page. Gives the end, or the number of lines that are there.
fn skip_page(b: &[u8], from: usize, len: u32, unit: u32, height: u32, coded: bool) -> (r: Result<
    usize,
    u32,
>)
    requires
        from <= b@.len(),
        1 <= unit <= 0x2000_0000,
    ensures
        ({
            let c = Coding { len: len as int, unit: unit as int, white: 0, coded };
            let (lines, end) = rows(b@, from as int, height as int, c, Seq::empty());
            match r {
                Ok(e) => end == Some(e as int) && from <= e <= b@.len(),
                Err(n) => end is None && n == lines.len(),
            }
        }),
{
    let ghost c = Coding { len: len as int, unit: unit as int, white: 0, coded };
    let ghost whole = rows(b@, from as int, height as int, c, Seq::empty());
    let ghost mut acc: Seq<Seq<u8>> = Seq::empty();
    assert(b@.len() == b.len());
    let mut pos: usize = from;
    let mut done: u32 = 0;
    while done < height
        invariant
            done <= height,
            from <= pos <= b@.len(),
            b@.len() == b.len(),
            1 <= unit <= 0x2000_0000,
            c == (Coding { len: len as int, unit: unit as int, white: 0, coded }),
            acc.len() == done,
            whole == rows(b@, pos as int, height - done, c, acc),
            whole == rows(b@, from as int, height as int, c, Seq::empty()),
        decreases height - done,
    {
        let left: u32 = height - done;
        let (count, end) = if coded {
            if pos >= b.len() {
                return Err(done);
            }
            match read_line(b, pos + 1, len as usize, unit as usize, 0, false) {
                Some((_, end)) => (b[pos] as u32 + 1, end),
                None => return Err(done),
            }
        } else {
            if len as usize > b.len() - pos {
                return Err(done);
            }
            (1, pos + len as usize)
        };
        let k: u32 = if count < left {
            count
        } else {
            left
        };
        proof {
            let line = match next_row(b@, pos as int, c) {
                Some((line, n, e)) => line,
                None => Seq::empty(),
            };
            assert(next_row(b@, pos as int, c) == Some((line, count as int, end as int)));
            acc = acc + copies(line, k as int);
        }
        done = done + k;
        pos = end;
    }
    Ok(pos)
}

/// Reads all page headers without the pixels.
#[verifier::rlimit(50)]
pub fn inspect(bytes: &[u8]) -> (r: Result<Vec<PwgHeader>, RasterError>)
    ensures
        match r {
            Ok(v) => {
                &&& spec_sync(bytes@) matches Some(sync)
                &&& spec_headers(bytes@) matches Ok(at)
                &&& v@.len() == at.len()
                &&& forall|i: int|
                    0 <= i < v@.len() ==> is_header(#[trigger] v@[i], bytes@, at[i], sync)
            },
            Err(e) => spec_headers(bytes@) == Err::<Seq<int>, RasterErrorView>(e.model()),
        },
{
    let sync = match sync_of(bytes) {
        Some(s) => s,
        None => return Err(RasterError::BadSync),
    };
    let ghost b = bytes@;
    let ghost whole = spec_headers(b);
    let ghost mut at: Seq<int> = Seq::empty();
    let coded = sync == Sync::V2BigEndian || sync == Sync::V2LittleEndian;
    let mut out: Vec<PwgHeader> = Vec::new();
    let mut pos: usize = 4;
    assert(bytes@.len() == bytes.len());
    while pos < bytes.len()
        invariant
            pos <= bytes.len(),
            b == bytes@,
            bytes@.len() == bytes.len(),
            coded == is_coded(sync),
            whole == headers_from(b, pos as int, sync, at),
            whole == spec_headers(b),
            out@.len() == at.len(),
            forall|i: int| 0 <= i < out@.len() ==> is_header(#[trigger] out@[i], b, at[i], sync),
        decreases bytes.len() - pos,
    {
        let page: u32 = if out.len() >= u32::MAX as usize {
            u32::MAX
        } else {
            out.len() as u32 + 1
        };
        if HEADER_LEN > bytes.len() - pos {
            return Err(RasterError::Truncated { page, line: 0 });
        }
        let h = read_header(bytes, pos, sync);
        let ghost s = shape_at(b, pos as int, sync);
        if h.bytes_per_line == 0 {
            return Err(RasterError::BadHeader(owned("bytes per line")));
        }
        let unit: u32 = if h.bits_per_pixel < 8 {
            1
        } else {
            h.bits_per_pixel / 8 + if h.bits_per_pixel % 8 == 0 {
                0
            } else {
                1
            }
        };
        assert(skip_coding(s, sync) == (Coding {
            len: h.bytes_per_line as int,
            unit: unit as int,
            white: 0,
            coded,
        }));
        match skip_page(bytes, pos + HEADER_LEN, h.bytes_per_line, unit, h.height, coded) {
            Ok(end) => {
                let ghost was = out@;
                out.push(h);
                proof {
                    let old_at = at;
                    at = at.push(pos as int);
                    assert forall|i: int| 0 <= i < out@.len() implies is_header(
                        #[trigger] out@[i],
                        b,
                        at[i],
                        sync,
                    ) by {
                        if i < was.len() {
                            assert(out@[i] == was[i]);
                            assert(at[i] == old_at[i]);
                        }
                    }
                }
                pos = end;
            },
            Err(line) => return Err(RasterError::Truncated { page, line }),
        }
    }
    Ok(out)
}

// ------------------------------------------------------------------ laws

/// The pixels of all pages together.
pub open spec fn all_pixels(v: Seq<PageView>) -> int
    decreases v.len(),
{
    if v.len() == 0 {
        0
    } else {
        all_pixels(v.drop_last()) + v.last().width * v.last().height
    }
}

/// A page that was decoded has as many pixels as its size says, and all together have no more than they may.
pub proof fn lemma_pages_are_whole(
    b: Seq<u8>,
    pos: int,
    sync: Sync,
    limits: Limits,
    pixels: int,
    acc: Seq<PageView>,
)
    requires
        forall|i: int| 0 <= i < acc.len() ==> is_whole(#[trigger] acc[i], limits),
        acc.len() <= limits.max_pages,
        pixels == all_pixels(acc),
        pixels <= limits.max_pixels_total,
    ensures
        match pages_from(b, pos, sync, limits, pixels, acc) {
            Ok(v) => v.len() <= limits.max_pages && all_pixels(v) <= limits.max_pixels_total && (
            forall|i: int| 0 <= i < v.len() ==> is_whole(#[trigger] v[i], limits)),
            Err(_) => true,
        },
    decreases b.len() - pos,
{
    let s = shape_at(b, pos, sync);
    if pos < 0 || pos >= b.len() || acc.len() >= limits.max_pages || pos + HEADER_LEN > b.len()
        || shape_error(s, limits, pixels) is Some {
    } else {
        let p = pixel_of(s)->0;
        let c = coding_of(p, s.width as int, sync);
        lemma_rows(b, pos + HEADER_LEN, s.height as int, c, Seq::empty());
        match rows(b, pos + HEADER_LEN, s.height as int, c, Seq::empty()) {
            (lines, None) => {},
            (lines, Some(end)) => {
                lemma_gray_rows_len(p, lines, s.width as int);
                let page = PageView {
                    width: s.width,
                    height: s.height,
                    dpi: s.dpi,
                    data: gray_rows(p, lines, s.width as int),
                };
                assert(s.height * s.width == s.width * s.height) by (nonlinear_arith);
                let next = acc.push(page);
                assert(next.drop_last() =~= acc);
                assert forall|i: int| 0 <= i < next.len() implies is_whole(
                    #[trigger] next[i],
                    limits,
                ) by {
                    if i < acc.len() {
                        assert(next[i] == acc[i]);
                    }
                }
                lemma_pages_are_whole(
                    b,
                    end,
                    sync,
                    limits,
                    pixels + s.width * s.height,
                    next,
                );
            },
        }
    }
}

/// The page has a positive size within the limits, and a byte for every pixel.
pub open spec fn is_whole(p: PageView, limits: Limits) -> bool {
    0 < p.width <= limits.max_width && 0 < p.height <= limits.max_height && p.data.len() == p.width
        * p.height
}

proof fn lemma_gray_rows_len(p: Pixel, lines: Seq<Seq<u8>>, width: int)
    requires
        width >= 0,
    ensures
        gray_rows(p, lines, width).len() == lines.len() * width,
    decreases lines.len(),
{
    if lines.len() > 0 {
        lemma_gray_rows_len(p, lines.drop_last(), width);
        assert((lines.len() - 1) * width + width == lines.len() * width) by (nonlinear_arith);
    } else {
        assert(0 * width == 0) by (nonlinear_arith);
    }
}

/// The pages of a stream are whole, and neither they nor their pixels are more than there may be.
pub proof fn lemma_decoded_pages(b: Seq<u8>, limits: Limits)
    ensures
        match spec_decode(b, limits) {
            Ok(v) => v.len() <= limits.max_pages && all_pixels(v) <= limits.max_pixels_total && (
            forall|i: int| 0 <= i < v.len() ==> is_whole(#[trigger] v[i], limits)),
            Err(_) => true,
        },
{
    if let Some(sync) = spec_sync(b) {
        lemma_pages_are_whole(b, 4, sync, limits, 0, Seq::empty());
    }
}

} // verus!
