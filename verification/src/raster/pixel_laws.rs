//! Which bytes of a stream a pixel comes from, and how light it is.

use vstd::prelude::*;

use crate::raster::pages::{
    bit_weight, coding_of, gray_at, gray_row, gray_rows, line_bytes, luma, pages_from, pixel_of, shape_at,
    shape_error, spec_decode, PageView, Pixel, Shape,
};
use crate::raster::stream::{copies, is_header, least, lemma_unpack, next_row, repeated, rows, text_at, unpack, word, Coding};
use crate::raster::{Limits, PwgHeader, Sync, HEADER_LEN};

verus! {

// ------------------------------------------------------------------ runs

proof fn lemma_repeated_at(pixel: Seq<u8>, n: int, k: int)
    requires
        pixel.len() >= 1,
        0 <= n,
        0 <= k < n * pixel.len(),
    ensures
        repeated(pixel, n).len() == n * pixel.len(),
        repeated(pixel, n)[k] == pixel[k % (pixel.len() as int)],
    decreases n,
{
    let u = pixel.len() as int;
    assert(n * u == (n - 1) * u + u) by (nonlinear_arith);
    if n <= 0 {
        assert(n * u <= 0) by (nonlinear_arith)
            requires
                n <= 0,
                u >= 1,
        ;
    } else if n == 1 {
        assert(repeated(pixel, 0).len() == 0);
        assert(k % u == k) by (nonlinear_arith)
            requires
                0 <= k < u,
        ;
    } else {
        assert((n - 1) * u > 0) by (nonlinear_arith)
            requires
                n >= 2,
                u >= 1,
        ;
        lemma_repeated_at(
            pixel,
            n - 1,
            if k < (n - 1) * u {
                k
            } else {
                0
            },
        );
        if k >= (n - 1) * u {
            let d = k - (n - 1) * u;
            assert(k % u == d) by (nonlinear_arith)
                requires
                    k == (n - 1) * u + d,
                    0 <= d < u,
            {
                vstd::arithmetic::div_mod::lemma_fundamental_div_mod_converse(k, u, n - 1, d);
            }
        }
    }
}

/// A run byte below 128 is followed by a pixel, which stands there once more than the byte says: `k` bytes on, the
/// line holds that pixel's bytes again and again.
pub proof fn lemma_run_of_one(b: Seq<u8>, pos: int, left: int, unit: int, white: u8, k: int)
    requires
        0 <= pos < b.len(),
        unit >= 1,
        b[pos] < 128,
        0 <= k < left,
        k < (b[pos] + 1) * unit,
        unpack(b, pos, left, unit, white) is Some,
    ensures
        unpack(b, pos, left, unit, white)->0.line[k] == b[pos + 1 + k % unit],
        pos + 1 + unit <= b.len(),
{
    let p = b.subrange(pos + 1, pos + 1 + unit);
    let c = b[pos] as int;
    lemma_repeated_at(p, c + 1, k);
    assert(0 <= k % unit < unit) by (nonlinear_arith)
        requires
            unit >= 1,
    ;
    assert(p[k % unit] == b[pos + 1 + k % unit]);
}

/// A run byte above 128 is followed by 257 less the byte pixels, which stand in the line as they are.
pub proof fn lemma_run_of_many(b: Seq<u8>, pos: int, left: int, unit: int, white: u8, k: int)
    requires
        0 <= pos < b.len(),
        unit >= 1,
        b[pos] > 128,
        0 <= k < left,
        k < (257 - b[pos]) * unit,
        unpack(b, pos, left, unit, white) is Some,
    ensures
        unpack(b, pos, left, unit, white)->0.line[k] == b[pos + 1 + k],
{
    let c = b[pos] as int;
    let n = if (257 - c) * unit < left {
        (257 - c) * unit
    } else {
        left
    };
    assert(b.subrange(pos + 1, pos + 1 + n)[k] == b[pos + 1 + k]);
}

/// A run byte of 128 leaves the rest of the line white.
pub proof fn lemma_run_of_white(b: Seq<u8>, pos: int, left: int, unit: int, white: u8, k: int)
    requires
        0 <= pos < b.len(),
        unit >= 1,
        b[pos] == 128,
        0 <= k < left,
    ensures
        unpack(b, pos, left, unit, white) matches Some(u) && u.line[k] == white && u.end == pos + 1,
{
}

/// What follows a run that does not fill the line is read from behind that run.
pub proof fn lemma_after_a_run(b: Seq<u8>, pos: int, left: int, unit: int, white: u8, k: int)
    requires
        0 <= pos < b.len(),
        unit >= 1,
        b[pos] != 128,
        unpack(b, pos, left, unit, white) is Some,
        0 <= k,
    ensures
        b[pos] < 128 && (b[pos] + 1) * unit + k < left ==> {
            let next = unpack(b, pos + 1 + unit, left - (b[pos] + 1) * unit, unit, white);
            let all = unpack(b, pos, left, unit, white)->0;
            next is Some && all.line[(b[pos] + 1) * unit + k] == next->0.line[k] && all.end == next->0.end
        },
        b[pos] > 128 && (257 - b[pos]) * unit + k < left ==> {
            let next = unpack(
                b,
                pos + 1 + (257 - b[pos]) * unit,
                left - (257 - b[pos]) * unit,
                unit,
                white,
            );
            let all = unpack(b, pos, left, unit, white)->0;
            next is Some && all.line[(257 - b[pos]) * unit + k] == next->0.line[k] && all.end == next->0.end
        },
{
    let c = b[pos] as int;
    assert((c + 1) * unit >= 1 && (257 - c) * unit >= 1) by (nonlinear_arith)
        requires
            0 <= c <= 255,
            unit >= 1,
    ;
    if c < 128 && (c + 1) * unit + k < left {
        let p = b.subrange(pos + 1, pos + 1 + unit);
        lemma_repeated_at(p, c + 1, 0);
        lemma_unpack(b, pos + 1 + unit, left - (c + 1) * unit, unit, white);
    }
    if c > 128 && (257 - c) * unit + k < left {
        lemma_unpack(b, pos + 1 + (257 - c) * unit, left - (257 - c) * unit, unit, white);
    }
}

// ------------------------------------------------------------------ lines

/// Lines that were read stay, in order, before those that follow.
proof fn lemma_rows_keep(b: Seq<u8>, pos: int, left: int, c: Coding, acc: Seq<Seq<u8>>, i: int)
    requires
        0 <= i < acc.len(),
    ensures
        i < rows(b, pos, left, c, acc).0.len(),
        rows(b, pos, left, c, acc).0[i] == acc[i],
    decreases left,
{
    if left > 0 {
        match next_row(b, pos, c) {
            None => {},
            Some((line, count, end)) => {
                let k = least(count, left);
                if k >= 1 {
                    let next = acc + copies(line, k);
                    assert(next[i] == acc[i]);
                    lemma_rows_keep(b, end, left - k, c, next, i);
                }
            },
        }
    }
}

/// A coded line begins with a byte that says how often it is repeated: so many lines below it are the same.
pub proof fn lemma_repeated_lines(b: Seq<u8>, pos: int, left: int, c: Coding, acc: Seq<Seq<u8>>, i: int)
    requires
        c.coded,
        0 <= pos < b.len(),
        rows(b, pos, left, c, acc).1 is Some,
        0 <= i <= b[pos],
        i < left,
    ensures
        unpack(b, pos + 1, c.len, c.unit, c.white) is Some,
        acc.len() + i < rows(b, pos, left, c, acc).0.len(),
        rows(b, pos, left, c, acc).0[acc.len() + i] == unpack(b, pos + 1, c.len, c.unit, c.white)->0.line,
{
    let (line, count, end) = next_row(b, pos, c)->0;
    let k = least(count, left);
    let next = acc + copies(line, k);
    assert(next[acc.len() + i] == line);
    lemma_rows_keep(b, end, left - k, c, next, acc.len() + i);
}

/// Lines that are not coded stand one behind the other.
pub proof fn lemma_plain_lines(b: Seq<u8>, pos: int, left: int, c: Coding, acc: Seq<Seq<u8>>, i: int)
    requires
        !c.coded,
        c.len >= 0,
        0 <= pos,
        rows(b, pos, left, c, acc).1 is Some,
        0 <= i < left,
    ensures
        rows(b, pos, left, c, acc).0.len() == acc.len() + left,
        rows(b, pos, left, c, acc).0[acc.len() + i] == b.subrange(pos + i * c.len, pos + i * c.len + c.len),
        rows(b, pos, left, c, acc).1 == Some(pos + left * c.len),
    decreases left,
{
    let line = b.subrange(pos, pos + c.len);
    let next = acc + copies(line, 1);
    assert(next_row(b, pos, c) == Some((line, 1int, pos + c.len)));
    assert(i * c.len == (i - 1) * c.len + c.len && left * c.len == (left - 1) * c.len + c.len) by (
    nonlinear_arith);
    assert(0 * c.len == 0);
    if left > 1 {
        lemma_plain_lines(
            b,
            pos + c.len,
            left - 1,
            c,
            next,
            if i > 0 {
                i - 1
            } else {
                0
            },
        );
    } else {
        assert(rows(b, pos + c.len, 0, c, next) == (next, Some(pos + c.len)));
    }
    if i == 0 {
        assert(next[acc.len() as int] == line);
        lemma_rows_keep(b, pos + c.len, left - 1, c, next, acc.len() as int);
    }
}

// ------------------------------------------------------------------ grays

/// Pixel (x, y) of a page is made of the bytes of column x in line y.
pub proof fn lemma_pixel_of_page(p: Pixel, lines: Seq<Seq<u8>>, width: int, x: int, y: int)
    requires
        0 <= x < width,
        0 <= y < lines.len(),
    ensures
        gray_rows(p, lines, width).len() == lines.len() * width,
        0 <= y * width + x < lines.len() * width,
        gray_rows(p, lines, width)[y * width + x] == gray_at(p, lines[y], x),
    decreases lines.len(),
{
    let n = lines.len() - 1;
    assert(0 <= y * width + x < lines.len() * width && lines.len() * width == n * width + width && n * width
        >= 0) by (nonlinear_arith)
        requires
            0 <= x < width,
            0 <= y < lines.len(),
            n == lines.len() - 1,
    ;
    let rest = lines.drop_last();
    if n > 0 {
        lemma_pixel_of_page(
            p,
            rest,
            width,
            x,
            if y < n {
                y
            } else {
                0
            },
        );
    } else {
        assert(gray_rows(p, rest, width).len() == 0);
        assert(0 * width == 0);
    }
    assert(rest.len() == n);
    if y < n {
        assert(rest[y] == lines[y]);
        assert(y * width + x < n * width) by (nonlinear_arith)
            requires
                0 <= x < width,
                y + 1 <= n,
        ;
    } else {
        assert(y == n);
        assert(gray_rows(p, lines, width)[y * width + x] == gray_row(p, lines.last(), width)[x]);
    }
}

/// Gray is what its byte says. A black bit is black, the first pixel of a byte in its highest bit. A color
/// without color is as light as its parts.
pub proof fn lemma_pixel_values(line: Seq<u8>, x: int, v: u8)
    requires
        0 <= x,
    ensures
        gray_at(Pixel::Gray8, line, x) == line[x],
        gray_at(Pixel::Black1, line, x) == 0 || gray_at(Pixel::Black1, line, x) == 255,
        line[x / 8] == 255 ==> gray_at(Pixel::Black1, line, x) == 0,
        line[x / 8] == 0 ==> gray_at(Pixel::Black1, line, x) == 255,
        x % 8 == 0 ==> (gray_at(Pixel::Black1, line, x) == 0 <==> line[x / 8] >= 128),
        x % 8 == 7 ==> (gray_at(Pixel::Black1, line, x) == 0 <==> line[x / 8] % 2 == 1),
        line[3 * x] == v && line[3 * x + 1] == v && line[3 * x + 2] == v ==> gray_at(
            Pixel::Rgb24,
            line,
            x,
        ) == v,
{
    let w = bit_weight(x);
    assert(x % 8 == 0 || x % 8 == 1 || x % 8 == 2 || x % 8 == 3 || x % 8 == 4 || x % 8 == 5 || x % 8 == 6 || x
        % 8 == 7);
}

/// The bit of a pixel is worth half of what the bit of the pixel before it is worth.
pub proof fn lemma_bits_from_the_left(x: int)
    requires
        0 <= x,
    ensures
        x % 8 == 0 ==> bit_weight(x) == 128,
        x % 8 != 0 ==> 2 * bit_weight(x) == bit_weight(x - 1),
{
}

/// Lightness grows with each part of a color, most with green and least with blue, from black to white; and is
/// never beyond the parts.
pub proof fn lemma_lightness(r: u8, g: u8, b: u8, more: u8)
    requires
        r <= more,
    ensures
        luma(r, g, b) <= luma(more, g, b),
        luma(g, r, b) <= luma(g, more, b),
        luma(g, b, r) <= luma(g, b, more),
        luma(0, more, 0) >= luma(more, 0, 0) >= luma(0, 0, more),
        luma(r, r, r) == r,
        more >= 1 ==> luma(0, more, 0) > luma(0, 0, more),
        luma(r, g, b) <= 255,
        r >= g && r >= b ==> luma(r, g, b) <= r,
        r <= g && r <= b ==> luma(r, g, b) >= r,
        -5000 <= 10000 * luma(r, g, b) - (2126 * r + 7152 * g + 722 * b) <= 5000,
{
}

// ------------------------------------------------------------------ pages

/// Pages that were read stay, in order, before those that follow.
proof fn lemma_pages_keep(
    b: Seq<u8>,
    pos: int,
    sync: Sync,
    limits: Limits,
    pixels: int,
    acc: Seq<PageView>,
    i: int,
)
    requires
        0 <= i < acc.len(),
    ensures
        pages_from(b, pos, sync, limits, pixels, acc) matches Ok(v) ==> i < v.len() && v[i] == acc[i],
    decreases b.len() - pos,
{
    let s = shape_at(b, pos, sync);
    if pos < 0 || pos >= b.len() || acc.len() >= limits.max_pages || pos + HEADER_LEN > b.len()
        || shape_error(s, limits, pixels) is Some {
    } else {
        let p = pixel_of(s)->0;
        let c = coding_of(p, s.width as int, sync);
        crate::raster::pages::lemma_rows(b, pos + HEADER_LEN, s.height as int, c, Seq::empty());
        match rows(b, pos + HEADER_LEN, s.height as int, c, Seq::empty()) {
            (lines, None) => {},
            (lines, Some(end)) => {
                let page = PageView {
                    width: s.width,
                    height: s.height,
                    dpi: s.dpi,
                    data: gray_rows(p, lines, s.width as int),
                };
                let next = acc.push(page);
                assert(next[i] == acc[i]);
                lemma_pages_keep(b, end, sync, limits, pixels + s.width * s.height, next, i);
            },
        }
    }
}

/// A gray page that is not coded is read byte for byte: the first page begins behind the sync word and the header,
/// and its pixel (x, y) is the byte in line y and column x there.
pub proof fn lemma_plain_gray_page(b: Seq<u8>, limits: Limits, x: int, y: int)
    requires
        b.len() > 4,
        b[0] == 0x52 && b[1] == 0x61 && b[2] == 0x53 && b[3] == 0x33,
        word(b, 404 - 4, true) == 0 && word(b, 404, true) == 18,
        spec_decode(b, limits) is Ok,
        0 <= x < word(b, 376, true),
        0 <= y < word(b, 380, true),
    ensures
        ({
            let v = spec_decode(b, limits)->Ok_0;
            let w = word(b, 376, true);
            &&& v.len() >= 1
            &&& v[0].width == w
            &&& v[0].height == word(b, 380, true)
            &&& v[0].dpi == word(b, 280, true)
            &&& v[0].data[y * w + x] == b[1800 + (y * w + x)]
        }),
{
    let sync = Sync::V3BigEndian;
    let s = shape_at(b, 4, sync);
    let p = pixel_of(s)->0;
    let c = coding_of(p, s.width as int, sync);
    let w = s.width as int;
    assert(p == Pixel::Gray8);
    let (lines, end) = rows(b, 1800, s.height as int, c, Seq::empty());
    crate::raster::pages::lemma_rows(b, 1800, s.height as int, c, Seq::empty());
    lemma_plain_lines(b, 1800, s.height as int, c, Seq::empty(), y);
    lemma_pixel_of_page(p, lines, w, x, y);
    let page = PageView { width: s.width, height: s.height, dpi: s.dpi, data: gray_rows(p, lines, w) };
    let acc = Seq::<PageView>::empty().push(page);
    lemma_pages_keep(b, end->0, sync, limits, 0 + s.width * s.height, acc, 0);
    assert(acc[0] == page);
    assert(y * w + w <= s.height * w && 0 <= y * w) by (nonlinear_arith)
        requires
            0 <= y < s.height,
            w >= 0,
    ;
    assert(lines[y] == b.subrange(1800 + y * w, 1800 + y * w + w));
    assert(lines[y][x] == b[1800 + y * w + x]);
}

/// Numbers in a header are read in the order that the sync word says: reading the same four bytes the other way
/// round gives the same number in the other order.
pub proof fn lemma_words(b: Seq<u8>, at: int)
    requires
        0 <= at,
        at + 4 <= b.len(),
    ensures
        word(b, at, true) == word(seq![b[at + 3], b[at + 2], b[at + 1], b[at]], 0, false),
        b[at] == 0 && b[at + 1] == 0 && b[at + 2] == 0 ==> word(b, at, true) == b[at + 3],
        b[at + 1] == 0 && b[at + 2] == 0 && b[at + 3] == 0 ==> word(b, at, false) == b[at],
        word(b, at, true) / 16777216 == b[at],
        word(b, at, true) % 256 == b[at + 3],
{
}

/// A line of eight-bit gray takes a byte for each pixel, of color three, and of black a bit.
pub proof fn lemma_line_sizes(width: int)
    requires
        0 <= width,
    ensures
        line_bytes(Pixel::Gray8, width) == width,
        line_bytes(Pixel::Rgb24, width) == 3 * width,
        8 * line_bytes(Pixel::Black1, width) >= width,
        8 * (line_bytes(Pixel::Black1, width) - 1) < width,
{
}

// ------------------------------------------------------------------ headers

/// A header tells the size, the resolution and the pixels of the page that is read by it, at the places that the
/// format has for them.
pub proof fn lemma_headers(h: PwgHeader, b: Seq<u8>, at: int, sync: Sync)
    requires
        is_header(h, b, at, sync),
    ensures
        h.width == shape_at(b, at, sync).width,
        h.height == shape_at(b, at, sync).height,
        h.hw_resolution.0 == shape_at(b, at, sync).dpi,
        h.bits_per_color == shape_at(b, at, sync).bits_per_color,
        h.bits_per_pixel == shape_at(b, at, sync).bits_per_pixel,
        h.bytes_per_line == shape_at(b, at, sync).bytes_per_line,
        h.color_order == shape_at(b, at, sync).order,
        h.color_space == shape_at(b, at, sync).space,
        sync == Sync::V2BigEndian || sync == Sync::V3BigEndian ==> {
            &&& h.width == word(b, at + 372, true)
            &&& h.num_copies == word(b, at + 340, true)
            &&& h.page_size_pt.0 == word(b, at + 352, true)
            &&& h.page_size_pt.1 == word(b, at + 356, true)
            &&& h.total_page_count == word(b, at + 452, true)
        },
        sync == Sync::V2LittleEndian || sync == Sync::V3LittleEndian ==> {
            &&& h.width == word(b, at + 372, false)
            &&& h.num_copies == word(b, at + 340, false)
        },
        b[at + 644] == 0 ==> h.page_size_name@.len() == 0,
        b[at + 128] == 0 ==> h.media_type@.len() == 0,
{
}

/// Which pages can be read: of eight-bit gray, one-bit black or 24-bit color, neither empty nor beyond the limits,
/// with as many bytes to a line as its pixels take.
pub proof fn lemma_readable_pages(s: Shape, limits: Limits, pixels: int)
    ensures
        shape_error(s, limits, pixels) is None <==> {
            &&& s.order == 0
            &&& 0 < s.width <= limits.max_width
            &&& 0 < s.height <= limits.max_height
            &&& pixels + s.width * s.height <= limits.max_pixels_total
            &&& {
                ||| s.space == 18 && s.bits_per_color == 8 && s.bits_per_pixel == 8 && s.bytes_per_line == s.width
                ||| s.space == 3 && s.bits_per_color == 1 && s.bits_per_pixel == 1 && s.bytes_per_line == (s.width
                    + 7) / 8
                ||| s.space == 19 && s.bits_per_color == 8 && s.bits_per_pixel == 24 && s.bytes_per_line == 3
                    * s.width
            }
        },
{
}

/// What is left of a line is white: 255 where bytes are light, and 0 where bits are black. Colors repeat by their
/// three bytes, and lines are coded in version 2 alone.
pub proof fn lemma_codings(p: Pixel, width: int, sync: Sync)
    ensures
        ({
            let c = coding_of(p, width, sync);
            &&& p == Pixel::Gray8 ==> c.white == 255 && c.unit == 1 && c.len == width
            &&& p == Pixel::Rgb24 ==> c.white == 255 && c.unit == 3 && c.len == 3 * width
            &&& p == Pixel::Black1 ==> c.white == 0 && c.unit == 1
            &&& c.coded <==> sync == Sync::V2BigEndian || sync == Sync::V2LittleEndian
        }),
{
}

/// The next page begins where the lines of the one before it end.
pub proof fn lemma_next_page(b: Seq<u8>, pos: int, sync: Sync, limits: Limits, pixels: int, acc: Seq<PageView>)
    requires
        0 <= pos < b.len(),
        pages_from(b, pos, sync, limits, pixels, acc) is Ok,
    ensures
        ({
            let s = shape_at(b, pos, sync);
            let (lines, end) = rows(
                b,
                pos + 1796,
                s.height as int,
                coding_of(pixel_of(s)->0, s.width as int, sync),
                Seq::empty(),
            );
            let v = pages_from(b, pos, sync, limits, pixels, acc)->Ok_0;
            &&& end is Some
            &&& lines.len() == s.height
            &&& acc.len() < v.len()
            &&& v[acc.len() as int].width == s.width
            &&& v[acc.len() as int].height == s.height
            &&& v[acc.len() as int].data == gray_rows(pixel_of(s)->0, lines, s.width as int)
            &&& end->0 >= b.len() ==> v.len() == acc.len() + 1
        }),
{
    let s = shape_at(b, pos, sync);
    let p = pixel_of(s)->0;
    let c = coding_of(p, s.width as int, sync);
    crate::raster::pages::lemma_rows(b, pos + HEADER_LEN, s.height as int, c, Seq::empty());
    let (lines, end) = rows(b, pos + HEADER_LEN, s.height as int, c, Seq::empty());
    let page = PageView {
        width: s.width,
        height: s.height,
        dpi: s.dpi,
        data: gray_rows(p, lines, s.width as int),
    };
    let next = acc.push(page);
    lemma_pages_keep(b, end->0, sync, limits, pixels + s.width * s.height, next, acc.len() as int);
    assert(next[acc.len() as int] == page);
}

/// A text in a header is its bytes up to the first zero, at most 64, one character for each.
pub proof fn lemma_header_texts(b: Seq<u8>, at: int, n: int, k: int)
    requires
        0 <= n <= k <= 64,
        forall|i: int| n <= i < k ==> #[trigger] b[at + i] != 0,
        k < 64 ==> b[at + k] == 0,
    ensures
        text_at(b, at, n).len() == k - n,
        forall|i: int| 0 <= i < k - n ==> #[trigger] text_at(b, at, n)[i] == b[at + n + i] as char,
    decreases k - n,
{
    if n < k {
        assert(b[at + n] != 0);
        lemma_header_texts(b, at, n + 1, k);
        let t = text_at(b, at, n + 1);
        assert forall|i: int| 0 <= i < k - n implies #[trigger] text_at(b, at, n)[i] == b[at + n + i] as char by {
            if i > 0 {
                assert(text_at(b, at, n)[i] == t[i - 1]);
                assert(t[i - 1] == b[at + (n + 1) + (i - 1)] as char);
            }
        }
    }
}

} // verus!
