//! What is shown of a stream agrees with what is read of it.

use vstd::prelude::*;

use crate::raster::pages::{
    coding_of, gray_rows, headers_from, lemma_rows, pages_from, pixel_of, shape_at, skip_coding,
    spec_decode, spec_headers, PageView,
};
use crate::raster::stream::{copies, least, lemma_unpack, next_row, rows, unpack, Coding};
use crate::raster::{spec_sync, Limits, Sync, HEADER_LEN};

verus! {

/// Where a coded line ends does not depend on what stands for white.
proof fn lemma_unpack_end(b: Seq<u8>, pos: int, left: int, unit: int, v: u8, w: u8)
    requires
        0 <= pos <= b.len(),
        left >= 0,
        unit >= 1,
    ensures
        match (unpack(b, pos, left, unit, v), unpack(b, pos, left, unit, w)) {
            (Some(x), Some(y)) => x.end == y.end,
            (None, None) => true,
            _ => false,
        },
    decreases left,
{
    if left > 0 && pos < b.len() {
        let c = b[pos] as int;
        assert((c + 1) * unit >= 1 && (257 - c) * unit >= 1) by (nonlinear_arith)
            requires
                0 <= c <= 255,
                unit >= 1,
        ;
        if c < 128 {
            if pos + 1 + unit <= b.len() && (c + 1) * unit < left {
                lemma_unpack_end(b, pos + 1 + unit, left - (c + 1) * unit, unit, v, w);
            }
        } else if c > 128 {
            let n = if (257 - c) * unit < left {
                (257 - c) * unit
            } else {
                left
            };
            if pos + 1 + n <= b.len() {
                lemma_unpack_end(b, pos + 1 + n, left - n, unit, v, w);
            }
        }
    }
}

/// Nor does where a page ends.
proof fn lemma_rows_end(
    b: Seq<u8>,
    pos: int,
    left: int,
    c: Coding,
    d: Coding,
    x: Seq<Seq<u8>>,
    y: Seq<Seq<u8>>,
)
    requires
        0 <= pos <= b.len(),
        left >= 0,
        c.len >= 0,
        c.unit >= 1,
        d == (Coding { white: d.white, ..c }),
    ensures
        rows(b, pos, left, c, x).1 == rows(b, pos, left, d, y).1,
    decreases left,
{
    if left > 0 {
        if c.coded && pos < b.len() {
            lemma_unpack(b, pos + 1, c.len, c.unit, c.white);
            lemma_unpack_end(b, pos + 1, c.len, c.unit, c.white, d.white);
        }
        if let (Some((line, count, end)), Some((other, _, _))) = (
            next_row(b, pos, c),
            next_row(b, pos, d),
        ) {
            let k = least(count, left);
            if k >= 1 {
                lemma_rows_end(b, end, left - k, c, d, x + copies(line, k), y + copies(other, k));
            }
        }
    }
}

/// The headers are those of the pages.
pub open spec fn heads_of(b: Seq<u8>, sync: Sync, heads: Seq<int>, pages: Seq<PageView>) -> bool {
    &&& heads.len() == pages.len()
    &&& forall|i: int|
        0 <= i < pages.len() ==> {
            let s = shape_at(b, #[trigger] heads[i], sync);
            s.width == pages[i].width && s.height == pages[i].height && s.dpi == pages[i].dpi
        }
}

proof fn lemma_heads_from(
    b: Seq<u8>,
    pos: int,
    sync: Sync,
    limits: Limits,
    pixels: int,
    acc: Seq<PageView>,
    heads: Seq<int>,
)
    requires
        0 <= pos,
        heads_of(b, sync, heads, acc),
        pages_from(b, pos, sync, limits, pixels, acc) is Ok,
    ensures
        headers_from(b, pos, sync, heads) matches Ok(h) && heads_of(
            b,
            sync,
            h,
            pages_from(b, pos, sync, limits, pixels, acc)->Ok_0,
        ),
    decreases b.len() - pos,
{
    if pos < b.len() {
        let s = shape_at(b, pos, sync);
        let p = pixel_of(s)->0;
        let c = coding_of(p, s.width as int, sync);
        let d = skip_coding(s, sync);
        let from = pos + HEADER_LEN;
        assert(c.unit >= 1 && c.len >= 1);
        lemma_rows(b, from, s.height as int, c, Seq::empty());
        lemma_rows_end(b, from, s.height as int, c, d, Seq::empty(), Seq::empty());
        let (lines, end) = rows(b, from, s.height as int, c, Seq::empty());
        let page = PageView {
            width: s.width,
            height: s.height,
            dpi: s.dpi,
            data: gray_rows(p, lines, s.width as int),
        };
        assert(heads_of(b, sync, heads.push(pos), acc.push(page)));
        lemma_heads_from(
            b,
            end->0,
            sync,
            limits,
            pixels + s.width * s.height,
            acc.push(page),
            heads.push(pos),
        );
    }
}

/// What is shown of a stream that can be decoded is what its pages are: as many headers as pages, each
/// with the size and resolution of its page.
pub proof fn lemma_inspect_agrees(b: Seq<u8>, limits: Limits)
    requires
        spec_decode(b, limits) is Ok,
    ensures
        spec_headers(b) matches Ok(h) && heads_of(
            b,
            spec_sync(b)->0,
            h,
            spec_decode(b, limits)->Ok_0,
        ),
{
    lemma_heads_from(b, 4, spec_sync(b)->0, limits, 0, Seq::empty(), Seq::empty());
}

} // verus!
