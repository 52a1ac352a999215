//! What a strip holds, line by line and pixel by pixel.

use vstd::prelude::*;

use crate::raster::GrayPage;
use crate::render::fit::{
    centred, centred_row, crop_rows, fit_height, ink_at, ink_box, is_fit, is_ink_box, near, spec_crop, spec_has_ink, spec_lines_to_mm, spec_trim_pad, white, Crop, InkBox,
};
use crate::render::strip::{
    bounds, crop_height, crop_width, gap, inked, is_page_part, is_strip_of, joined, keeps_size, page_crop,
    page_lines, prepare_error, sharpened_by, spec_layout, spec_trims, strip_lines, sum_lines, union_end,
    union_start, GrayStrip,
};
use crate::render::{Layout, Preset, RenderErrorView, RenderOptions};

verus! {

// ------------------------------------------------------------------ the order of the pages

/// Where part `k` begins, with `gap` bytes between two parts.
spec fn part_start(parts: Seq<Seq<u8>>, gap: int, k: int) -> int
    decreases k,
{
    if k <= 0 {
        0
    } else {
        part_start(parts, gap, k - 1) + parts[k - 1].len() + gap
    }
}

proof fn lemma_part_start(a: Seq<Seq<u8>>, b: Seq<Seq<u8>>, gap: int, k: int)
    requires
        k <= a.len(),
        k <= b.len(),
        forall|j: int| 0 <= j < k ==> #[trigger] a[j] == b[j],
    ensures
        part_start(a, gap, k) == part_start(b, gap, k),
    decreases k,
{
    if k > 0 {
        assert(a[k - 1] == b[k - 1]);
        lemma_part_start(a, b, gap, k - 1);
    }
}

proof fn lemma_joined_ends(parts: Seq<Seq<u8>>, gap: int)
    requires
        parts.len() > 0,
        gap >= 0,
    ensures
        joined(parts, gap).len() == part_start(parts, gap, parts.len() - 1) + parts.last().len(),
        part_start(parts, gap, parts.len() - 1) >= 0,
    decreases parts.len(),
{
    if parts.len() > 1 {
        let rest = parts.drop_last();
        lemma_joined_ends(rest, gap);
        lemma_part_start(parts, rest, gap, parts.len() - 2);
        assert(parts[parts.len() - 2] == rest.last());
    }
}

proof fn lemma_joined_at(parts: Seq<Seq<u8>>, gap: int, k: int)
    requires
        0 <= k < parts.len(),
        gap >= 0,
    ensures
        ({
            let start = part_start(parts, gap, k);
            let end = start + parts[k].len();
            let all = joined(parts, gap);
            &&& 0 <= start
            &&& end <= all.len()
            &&& all.subrange(start, end) == parts[k]
            &&& k + 1 < parts.len() ==> end + gap <= all.len() && forall|i: int|
                end <= i < end + gap ==> #[trigger] all[i] == 255
        }),
    decreases parts.len(),
{
    let n = parts.len();
    let all = joined(parts, gap);
    let start = part_start(parts, gap, k);
    let end = start + parts[k].len();
    lemma_joined_ends(parts, gap);
    if n == 1 {
        assert(all.subrange(start, end) =~= parts[k]);
    } else {
        let rest = parts.drop_last();
        let front = joined(rest, gap);
        lemma_joined_ends(rest, gap);
        lemma_part_start(parts, rest, gap, n - 2);
        assert(parts[n - 2] == rest.last());
        assert(all == front + white(gap) + parts.last());
        if k == n - 1 {
            assert(all.subrange(start, end) =~= parts[k]);
        } else {
            lemma_joined_at(rest, gap, k);
            lemma_part_start(parts, rest, gap, k);
            assert(rest[k] == parts[k]);
            assert(all.subrange(start, end) =~= front.subrange(start, end));
            assert forall|i: int| end <= i < end + gap implies #[trigger] all[i] == 255 by {
                if k + 1 < rest.len() {
                    assert(all[i] == front[i]);
                } else {
                    assert(k == n - 2);
                    assert(end == front.len());
                    assert(all[i] == white(gap)[i - end]);
                }
            }
        }
    }
}

/// The lines above the `k`-th page with ink: those of the pages before it, each with the white lines behind
/// it.
pub open spec fn lines_above(pages: Seq<GrayPage>, opts: RenderOptions, k: int) -> int
    decreases k,
{
    if k <= 0 {
        0
    } else {
        lines_above(pages, opts, k - 1) + page_lines(pages, opts, inked(pages)[k - 1])
            + opts.page_gap_lines
    }
}

proof fn lemma_start_of(
    pages: Seq<GrayPage>,
    opts: RenderOptions,
    parts: Seq<Seq<u8>>,
    k: int,
)
    requires
        0 <= k < parts.len(),
        parts.len() > 1,
        forall|j: int|
            0 <= j < parts.len() ==> (#[trigger] parts[j]).len() == opts.width_px * page_lines(
                pages,
                opts,
                inked(pages)[j],
            ),
    ensures
        part_start(parts, opts.page_gap_lines * opts.width_px, k) == opts.width_px * lines_above(
            pages,
            opts,
            k,
        ),
    decreases k,
{
    if k > 0 {
        lemma_start_of(pages, opts, parts, k - 1);
        let w = opts.width_px as int;
        let a = lines_above(pages, opts, k - 1);
        let l = page_lines(pages, opts, inked(pages)[k - 1]);
        let g = opts.page_gap_lines as int;
        assert(parts[k - 1].len() == w * l);
        assert(w * (a + l + g) == w * a + w * l + g * w) by (nonlinear_arith);
    } else {
        assert(opts.width_px * 0 == 0) by (nonlinear_arith);
    }
}

proof fn lemma_part_len<F: Fn(&[u8], usize, usize) -> Vec<u8>>(
    pages: Seq<GrayPage>,
    opts: RenderOptions,
    sharpen: F,
    i: int,
    out: Seq<u8>,
)
    requires
        keeps_size(sharpen),
        is_page_part(pages, opts, sharpen, i, out),
        0 <= page_lines(pages, opts, i) <= u32::MAX,
    ensures
        out.len() == opts.width_px * page_lines(pages, opts, i),
{
    let c = page_crop(pages, opts, i);
    let n = page_lines(pages, opts, i);
    let w = opts.width_px as int;
    let fitted = choose|fitted: Vec<u8>|
        {
            &&& is_fit(crop_width(c), crop_height(c), spec_crop(pages[i], c), w, #[trigger] fitted@)
            &&& fitted@.len() == w * n
            &&& if opts.preset == Preset::Text {
                out == fitted@
            } else {
                exists|sharp: Vec<u8>|
                    out == sharp@ && #[trigger] sharpened_by(
                        sharpen,
                        fitted,
                        w as usize,
                        n as usize,
                        sharp,
                    )
            }
        };
    if opts.preset != Preset::Text {
        let sharp = choose|sharp: Vec<u8>|
            out == sharp@ && #[trigger] sharpened_by(sharpen, fitted, w as usize, n as usize, sharp);
        assert(sharpened_by(sharpen, fitted, w as usize, n as usize, sharp));
        let s = choose|s: &[u8]| #[trigger]
            s@ == fitted@ && sharpen.ensures((s, w as usize, n as usize), sharp);
        assert(s@.len() == (w as usize) * (n as usize));
        assert(sharpen.ensures((s, w as usize, n as usize), sharp));
    }
}

/// The pages with ink stand in the strip in the order of the document, one below the other: from the line
/// that the pages before it and the white lines behind each of them leave, the strip holds what the page
/// becomes, and then, unless it is the last, the white lines.
pub proof fn lemma_pages_in_order<F: Fn(&[u8], usize, usize) -> Vec<u8>>(
    pages: Seq<GrayPage>,
    opts: RenderOptions,
    sharpen: F,
    strip: GrayStrip,
    k: int,
)
    requires
        keeps_size(sharpen),
        is_strip_of(pages, opts, sharpen, strip),
        0 <= k < inked(pages).len(),
        forall|j: int|
            0 <= j < inked(pages).len() ==> 0 <= page_lines(pages, opts, #[trigger] inked(pages)[j])
                <= u32::MAX,
    ensures
        ({
            let w = opts.width_px as int;
            let start = w * lines_above(pages, opts, k);
            let end = start + w * page_lines(pages, opts, inked(pages)[k]);
            &&& 0 <= start <= end <= strip.data@.len()
            &&& is_page_part(pages, opts, sharpen, inked(pages)[k], strip.data@.subrange(start, end))
            &&& k + 1 < inked(pages).len() ==> forall|i: int|
                end <= i < end + w * opts.page_gap_lines ==> #[trigger] strip.data@[i] == 255
        }),
{
    let ink = inked(pages);
    let g = gap(pages, opts) * opts.width_px;
    let parts = choose|parts: Seq<Seq<u8>>|
        {
            &&& parts.len() == ink.len()
            &&& forall|k: int|
                0 <= k < parts.len() ==> is_page_part(pages, opts, sharpen, ink[k], #[trigger] parts[k])
            &&& strip.data@ == #[trigger] joined(parts, g)
        };
    assert(strip.data@ == joined(parts, g));
    assert forall|j: int| 0 <= j < parts.len() implies (#[trigger] parts[j]).len() == opts.width_px
        * page_lines(pages, opts, ink[j]) by {
        assert(is_page_part(pages, opts, sharpen, ink[j], parts[j]));
        assert(0 <= page_lines(pages, opts, ink[j]) <= u32::MAX);
        lemma_part_len(pages, opts, sharpen, ink[j], parts[j]);
    }
    assert(g >= 0) by (nonlinear_arith)
        requires
            g == gap(pages, opts) * opts.width_px,
            gap(pages, opts) >= 0,
    ;
    lemma_joined_at(parts, g, k);
    let w = opts.width_px as int;
    if ink.len() > 1 {
        lemma_start_of(pages, opts, parts, k);
        let q = opts.page_gap_lines as int;
        assert(q * w == w * q) by (nonlinear_arith);
    } else {
        assert(w * 0 == 0) by (nonlinear_arith);
    }
    let start = w * lines_above(pages, opts, k);
    let end = start + w * page_lines(pages, opts, ink[k]);
    assert(start == part_start(parts, g, k));
    assert(end == start + parts[k].len());
    assert(strip.data@.subrange(start, end) == parts[k]);
}

/// The lines above the `k`-th page with ink where the pages are printed as they are.
pub open spec fn heights_above(pages: Seq<GrayPage>, gap_lines: int, k: int) -> int
    decreases k,
{
    if k <= 0 {
        0
    } else {
        heights_above(pages, gap_lines, k - 1) + pages[inked(pages)[k - 1]].height + gap_lines
    }
}

proof fn lemma_whole_crop(p: GrayPage)
    requires
        p.valid(),
    ensures
        spec_crop(p, Crop { row0: 0, row1: p.height, col0: 0, col1: p.width }) == p.data@,
{
    let c = Crop { row0: 0, row1: p.height, col0: 0, col1: p.width };
    lemma_whole_rows(p, c, p.height as nat);
    assert(p.width * p.height == p.height * p.width) by (nonlinear_arith);
    assert(p.data@.take(p.data@.len() as int) =~= p.data@);
}

proof fn lemma_whole_rows(p: GrayPage, c: Crop, n: nat)
    requires
        p.valid(),
        c == (Crop { row0: 0, row1: p.height, col0: 0, col1: p.width }),
        n <= p.height,
    ensures
        n * p.width <= p.data@.len(),
        crop_rows(p.data@, p.width as int, c, n) == p.data@.take(n * p.width),
    decreases n,
{
    let w = p.width as int;
    if n > 0 {
        lemma_whole_rows(p, c, (n - 1) as nat);
        assert(n * w == (n - 1) * w + w && n * w <= w * p.height && (n - 1) * w >= 0) by (nonlinear_arith)
            requires
                0 < n <= p.height,
                w >= 0,
        ;
        assert(crop_rows(p.data@, w, c, n) =~= p.data@.take(n * w));
    } else {
        assert(0 * w == 0) by (nonlinear_arith);
        assert(crop_rows(p.data@, w, c, n) =~= p.data@.take(0));
    }
}

proof fn lemma_heights_above(pages: Seq<GrayPage>, opts: RenderOptions, k: int)
    requires
        0 <= k < inked(pages).len(),
        opts.trim_override == Some(false),
        forall|j: int|
            0 <= j < inked(pages).len() ==> pages[#[trigger] inked(pages)[j]].width == opts.width_px,
    ensures
        lines_above(pages, opts, k) == heights_above(pages, opts.page_gap_lines as int, k),
    decreases k,
{
    if k > 0 {
        lemma_heights_above(pages, opts, k - 1);
        assert(pages[inked(pages)[k - 1]].width == opts.width_px);
    }
}

/// Pages as wide as the head, neither trimmed nor sharpened, are in the strip as they are: each from the line
/// that the heights of the pages with ink before it and the gaps leave.
pub proof fn lemma_pages_as_they_are<F: Fn(&[u8], usize, usize) -> Vec<u8>>(
    pages: Seq<GrayPage>,
    opts: RenderOptions,
    sharpen: F,
    strip: GrayStrip,
    k: int,
)
    requires
        keeps_size(sharpen),
        is_strip_of(pages, opts, sharpen, strip),
        opts.trim_override == Some(false),
        opts.preset == Preset::Text,
        0 <= k < inked(pages).len(),
        forall|j: int|
            0 <= j < inked(pages).len() ==> {
                &&& pages[#[trigger] inked(pages)[j]].valid()
                &&& pages[inked(pages)[j]].width == opts.width_px
            },
    ensures
        ({
            let page = pages[inked(pages)[k]];
            let start = opts.width_px * heights_above(pages, opts.page_gap_lines as int, k);
            &&& 0 <= start
            &&& start + page.data@.len() <= strip.data@.len()
            &&& strip.data@.subrange(start, start + page.data@.len()) == page.data@
            &&& k + 1 < inked(pages).len() ==> forall|i: int|
                start + page.data@.len() <= i < start + page.data@.len() + opts.width_px
                    * opts.page_gap_lines ==> #[trigger] strip.data@[i] == 255
        }),
{
    let ink = inked(pages);
    assert forall|j: int| 0 <= j < ink.len() implies 0 <= page_lines(pages, opts, #[trigger] ink[j])
        <= u32::MAX by {
        assert(pages[ink[j]].width == opts.width_px);
    }
    lemma_pages_in_order(pages, opts, sharpen, strip, k);
    lemma_heights_above(pages, opts, k);
    let page = pages[ink[k]];
    assert(page.valid() && page.width == opts.width_px);
    lemma_whole_crop(page);
    let w = opts.width_px as int;
    let start = w * lines_above(pages, opts, k);
    let end = start + w * page_lines(pages, opts, ink[k]);
    assert(page_lines(pages, opts, ink[k]) == page.height);
    let out = strip.data@.subrange(start, end);
    let c = page_crop(pages, opts, ink[k]);
    let fitted = choose|fitted: Vec<u8>|
        {
            &&& is_fit(crop_width(c), crop_height(c), spec_crop(page, c), w, #[trigger] fitted@)
            &&& fitted@.len() == w * page_lines(pages, opts, ink[k])
            &&& out == fitted@
        };
    assert(is_fit(crop_width(c), crop_height(c), spec_crop(page, c), w, fitted@));
    assert(fitted@ == page.data@);
}

// ------------------------------------------------------------------ ink

proof fn lemma_inked_is(pages: Seq<GrayPage>)
    ensures
        forall|k: int|
            0 <= k < inked(pages).len() ==> 0 <= #[trigger] inked(pages)[k] < pages.len()
                && spec_has_ink(pages[inked(pages)[k]].data@),
        forall|a: int, b: int| 0 <= a < b < inked(pages).len() ==> inked(pages)[a] < inked(pages)[b],
        forall|i: int|
            0 <= i < pages.len() && spec_has_ink(#[trigger] pages[i].data@) ==> inked(pages).contains(i),
    decreases pages.len(),
{
    if pages.len() > 0 {
        let rest = pages.drop_last();
        let r = inked(rest);
        let s = inked(pages);
        lemma_inked_is(rest);
        assert forall|k: int| 0 <= k < s.len() implies 0 <= #[trigger] s[k] < pages.len()
            && spec_has_ink(pages[s[k]].data@) by {
            if k < r.len() {
                assert(s[k] == r[k]);
                assert(rest[r[k]] == pages[r[k]]);
            }
        }
        assert forall|a: int, b: int| 0 <= a < b < s.len() implies s[a] < s[b] by {
            assert(s[a] == r[a]);
            if b < r.len() {
                assert(s[b] == r[b]);
            }
        }
        assert forall|i: int| 0 <= i < pages.len() && spec_has_ink(#[trigger] pages[i].data@) implies
            s.contains(i) by {
            if i < rest.len() {
                assert(spec_has_ink(rest[i].data@));
                assert(r.contains(i));
                let k = choose|k: int| 0 <= k < r.len() && r[k] == i;
                assert(s[k] == i);
            } else {
                assert(s[s.len() - 1] == i);
            }
        }
    }
}

/// The pages that are printed are those with a pixel darker than 245, each once, in the order of the
/// document.
pub proof fn lemma_dark_pages_print(pages: Seq<GrayPage>, i: int)
    requires
        0 <= i < pages.len(),
    ensures
        inked(pages).contains(i) <==> exists|p: int|
            0 <= p < pages[i].data@.len() && #[trigger] pages[i].data@[p] < 245,
        forall|a: int, b: int| 0 <= a < b < inked(pages).len() ==> inked(pages)[a] < inked(pages)[b],
{
    lemma_inked_is(pages);
    if inked(pages).contains(i) {
        let k = choose|k: int| 0 <= k < inked(pages).len() && inked(pages)[k] == i;
        assert(spec_has_ink(pages[inked(pages)[k]].data@));
    }
    if exists|p: int| 0 <= p < pages[i].data@.len() && #[trigger] pages[i].data@[p] < 245 {
        assert(spec_has_ink(pages[i].data@));
    }
}

/// The white kept around ink: 8 pixels, and above 203 dpi the nearest to 8 pixels at 203 dpi.
pub proof fn lemma_pad(dpi: int)
    requires
        dpi >= 0,
    ensures
        spec_trim_pad(dpi) >= 8,
        dpi <= 203 ==> spec_trim_pad(dpi) == 8,
        dpi > 203 ==> -203 <= 2 * (203 * spec_trim_pad(dpi) - 8 * dpi) <= 203,
{
}

proof fn lemma_has_box(p: GrayPage)
    requires
        p.valid(),
        spec_has_ink(p.data@),
    ensures
        is_ink_box(p, ink_box(p)),
{
    let b = lemma_some_box(p, p.height as nat);
}

/// `b` is the box of the ink in the first `n` rows.
spec fn holds_rows(p: GrayPage, n: int, b: InkBox) -> bool {
    &&& forall|y: int, x: int| #[trigger]
        ink_at(p, y, x) && y < n ==> b.top <= y <= b.bottom && b.left <= x <= b.right
    &&& exists|x: int| #[trigger] ink_at(p, b.top as int, x)
    &&& exists|x: int| #[trigger] ink_at(p, b.bottom as int, x)
    &&& exists|y: int| #[trigger] ink_at(p, y, b.left as int)
    &&& exists|y: int| #[trigger] ink_at(p, y, b.right as int)
}

/// The first `n` rows have no ink.
spec fn blank_rows(p: GrayPage, n: int) -> bool {
    forall|y: int, x: int| #[trigger] ink_at(p, y, x) ==> y >= n
}

/// `b` is the box of the ink in the first `n` rows, where there is any.
spec fn is_box_of(p: GrayPage, n: int, b: Option<InkBox>) -> bool {
    match b {
        Some(b) => holds_rows(p, n, b),
        None => blank_rows(p, n),
    }
}

/// A box of the ink in the first `n` rows, where there is any.
proof fn lemma_some_box(p: GrayPage, n: nat) -> (b: Option<InkBox>)
    requires
        p.valid(),
        n <= p.height,
    ensures
        is_box_of(p, n as int, b),
        n == p.height && spec_has_ink(p.data@) ==> b is Some && is_ink_box(p, ink_box(p)),
    decreases n,
{
    let b = if n == 0 {
        None
    } else {
        let before = lemma_some_box(p, (n - 1) as nat);
        lemma_box_step(p, (n - 1) as nat, before)
    };
    if n == p.height && spec_has_ink(p.data@) {
        let k = choose|k: int| 0 <= k < p.data@.len() && #[trigger] p.data@[k] < 245;
        let w = p.width as int;
        let y = k / w;
        let x = k % w;
        assert(k == y * w + x && 0 <= x < w && 0 <= y < p.height) by (nonlinear_arith)
            requires
                y == k / w,
                x == k % w,
                w > 0,
                0 <= k < w * p.height,
        ;
        assert(ink_at(p, y, x));
        assert(b is Some);
        assert(is_ink_box(p, b->0));
    }
    b
}

proof fn lemma_box_step(p: GrayPage, n: nat, old: Option<InkBox>) -> (b: Option<
    InkBox,
>)
    requires
        p.valid(),
        n < p.height,
        is_box_of(p, n as int, old),
    ensures
        is_box_of(p, n as int + 1, b),
{
    if exists|x: int| #[trigger] ink_at(p, n as int, x) {
        let (l, r) = lemma_row_ends(p, n as int, p.width as nat);
        match old {
            None => {
                let b = InkBox {
                    top: n as u32,
                    bottom: n as u32,
                    left: l as u32,
                    right: r as u32,
                };
                assert(ink_at(p, b.top as int, l) && ink_at(p, b.bottom as int, l));
                assert(ink_at(p, n as int, b.left as int) && ink_at(p, n as int, b.right as int));
                assert forall|y: int, x: int| #[trigger] ink_at(p, y, x) && y <= n implies b.top <= y
                    <= b.bottom && b.left <= x <= b.right by {
                    assert(y == n);
                }
                assert(holds_rows(p, n as int + 1, b));
                Some(b)
            },
            Some(o) => {
                let x0 = choose|x: int| #[trigger] ink_at(p, o.top as int, x);
                let x1 = choose|x: int| #[trigger] ink_at(p, o.bottom as int, x);
                let y1 = choose|y: int| #[trigger] ink_at(p, y, o.left as int);
                let y2 = choose|y: int| #[trigger] ink_at(p, y, o.right as int);
                assert(ink_at(p, o.top as int, x0) && ink_at(p, o.bottom as int, x1));
                assert(ink_at(p, y1, o.left as int) && ink_at(p, y2, o.right as int));
                assert(ink_at(p, n as int, l) && ink_at(p, n as int, r));
                let b = InkBox {
                    top: if o.top <= n {
                        o.top
                    } else {
                        n as u32
                    },
                    bottom: if o.bottom >= n {
                        o.bottom
                    } else {
                        n as u32
                    },
                    left: if o.left <= l {
                        o.left
                    } else {
                        l as u32
                    },
                    right: if o.right >= r {
                        o.right
                    } else {
                        r as u32
                    },
                };
                assert(ink_at(p, b.top as int, if o.top <= n {
                    x0
                } else {
                    l
                }));
                assert(ink_at(p, b.bottom as int, if o.bottom >= n {
                    x1
                } else {
                    l
                }));
                assert(ink_at(p, if o.left <= l {
                    y1
                } else {
                    n as int
                }, b.left as int));
                assert(ink_at(p, if o.right >= r {
                    y2
                } else {
                    n as int
                }, b.right as int));
                assert forall|y: int, x: int| #[trigger] ink_at(p, y, x) && y <= n implies b.top <= y
                    <= b.bottom && b.left <= x <= b.right by {
                    if y == n {
                        assert(ink_at(p, n as int, x));
                    }
                }
                assert(holds_rows(p, n as int + 1, b));
                Some(b)
            },
        }
    } else {
        assert forall|y: int, x: int| #[trigger] ink_at(p, y, x) && y <= n implies y < n by {
            if y == n {
                assert(ink_at(p, n as int, x));
            }
        }
        assert(is_box_of(p, n as int + 1, old));
        old
    }
}

/// The first and the last ink of a row, up to column `m`.
proof fn lemma_row_ends(p: GrayPage, y: int, m: nat) -> (r: (int, int))
    requires
        m <= p.width,
        exists|x: int| #[trigger] ink_at(p, y, x) && x < m,
    ensures
        ink_at(p, y, r.0),
        ink_at(p, y, r.1),
        forall|x: int| #[trigger] ink_at(p, y, x) && x < m ==> r.0 <= x <= r.1,
    decreases m,
{
    let last = m - 1;
    if exists|x: int| #[trigger] ink_at(p, y, x) && x < last {
        let (a, b) = lemma_row_ends(p, y, last as nat);
        if ink_at(p, y, last) {
            (a, last)
        } else {
            (a, b)
        }
    } else {
        let x = choose|x: int| #[trigger] ink_at(p, y, x) && x < m;
        assert(x == last);
        (last, last)
    }
}

/// What is cut away around the ink of a page is white: the part holds every pixel darker than 245. And no more
/// white than the pad is kept: a side that is not the page's has ink one pad further in.
pub proof fn lemma_bounds_hold_ink(p: GrayPage, y: int, x: int)
    requires
        p.valid(),
        0 <= y < p.height,
        0 <= x < p.width,
        p.data@[y * p.width + x] < 245,
    ensures
        bounds(p).row0 <= y < bounds(p).row1 <= p.height,
        bounds(p).col0 <= x < bounds(p).col1 <= p.width,
        ({
            let b = bounds(p);
            let pad = spec_trim_pad(p.dpi as int);
            &&& b.row0 > 0 ==> exists|c: int| #[trigger] ink_at(p, b.row0 + pad, c)
            &&& b.row1 < p.height ==> exists|c: int| #[trigger] ink_at(p, b.row1 - 1 - pad, c)
            &&& b.col0 > 0 ==> exists|r: int| #[trigger] ink_at(p, r, b.col0 + pad)
            &&& b.col1 < p.width ==> exists|r: int| #[trigger] ink_at(p, r, b.col1 - 1 - pad)
        }),
{
    let w = p.width as int;
    assert(0 <= y * w + x < p.data@.len()) by (nonlinear_arith)
        requires
            0 <= y < p.height,
            0 <= x < w,
            w == p.width,
            p.data@.len() == p.width * p.height,
    ;
    assert(spec_has_ink(p.data@));
    lemma_has_box(p);
    assert(ink_at(p, y, x));
    let b = ink_box(p);
    let x1 = choose|c: int| #[trigger] ink_at(p, b.top as int, c);
    let x3 = choose|c: int| #[trigger] ink_at(p, b.bottom as int, c);
    let y1 = choose|r: int| #[trigger] ink_at(p, r, b.left as int);
    let y3 = choose|r: int| #[trigger] ink_at(p, r, b.right as int);
    assert(ink_at(p, b.top as int, x1) && ink_at(p, b.bottom as int, x3));
    assert(ink_at(p, y1, b.left as int) && ink_at(p, y3, b.right as int));
    let pad = spec_trim_pad(p.dpi as int);
    lemma_pad(p.dpi as int);
    let k = bounds(p);
    if k.row0 > 0 {
        assert(k.row0 + pad == b.top);
    }
    if k.row1 < p.height {
        assert(k.row1 - 1 - pad == b.bottom);
    }
    if k.col0 > 0 {
        assert(k.col0 + pad == b.left);
    }
    if k.col1 < p.width {
        assert(k.col1 - 1 - pad == b.right);
    }
}

proof fn lemma_union_is(pages: Seq<GrayPage>, at: Seq<int>, k: int)
    requires
        0 <= k < at.len(),
    ensures
        union_start(pages, at) <= bounds(pages[at[k]]).col0,
        union_end(pages, at) >= bounds(pages[at[k]]).col1,
        exists|j: int|
            0 <= j < at.len() && union_start(pages, at) == bounds(pages[#[trigger] at[j]]).col0,
        exists|j: int|
            0 <= j < at.len() && union_end(pages, at) == bounds(pages[#[trigger] at[j]]).col1,
    decreases at.len(),
{
    let n = at.len() - 1;
    let rest = at.drop_last();
    if rest.len() > 0 {
        lemma_union_is(pages, rest, if k < n {
            k
        } else {
            0
        });
        let i = choose|j: int|
            0 <= j < rest.len() && union_start(pages, rest) == bounds(pages[#[trigger] rest[j]]).col0;
        let j = choose|j: int|
            0 <= j < rest.len() && union_end(pages, rest) == bounds(pages[#[trigger] rest[j]]).col1;
        assert(at[i] == rest[i] && at[j] == rest[j] && at[n] == at.last());
        if k < n {
            assert(at[k] == rest[k]);
        }
    } else {
        assert(at[0] == at.last());
        assert(union_start(pages, rest) == u32::MAX && union_end(pages, rest) == 0);
        assert(union_start(pages, at) == bounds(pages[at[0]]).col0 || bounds(pages[at[0]]).col0
            == u32::MAX);
        assert(union_end(pages, at) == bounds(pages[at[0]]).col1 || bounds(pages[at[0]]).col1 == 0);
    }
}

/// Trimmed, a page keeps the rows of its own ink, and the columns of the ink of all pages: so all have the same
/// scale, and no ink is lost.
pub proof fn lemma_trimmed_pages_keep_ink(
    pages: Seq<GrayPage>,
    opts: RenderOptions,
    k: int,
    y: int,
    x: int,
)
    requires
        spec_trims(pages, opts),
        0 <= k < inked(pages).len(),
        pages[inked(pages)[k]].valid(),
        0 <= y < pages[inked(pages)[k]].height,
        0 <= x < pages[inked(pages)[k]].width,
        pages[inked(pages)[k]].data@[y * pages[inked(pages)[k]].width + x] < 245,
    ensures
        ({
            let p = pages[inked(pages)[k]];
            let c = page_crop(pages, opts, inked(pages)[k]);
            &&& c.row0 <= y < c.row1
            &&& c.col0 <= x < c.col1
            &&& c.row0 == bounds(p).row0
            &&& c.row1 == bounds(p).row1
            &&& exists|j: int|
                0 <= j < inked(pages).len() && c.col0 == bounds(pages[#[trigger] inked(pages)[j]]).col0
            &&& c.col1 == p.width || exists|j: int|
                0 <= j < inked(pages).len() && c.col1 == bounds(pages[#[trigger] inked(pages)[j]]).col1
        }),
{
    let p = pages[inked(pages)[k]];
    lemma_bounds_hold_ink(p, y, x);
    lemma_union_is(pages, inked(pages), k);
}

/// A part of a page holds the page's pixels: row `y`, column `x` of the part are those of the page counted from
/// where the part begins.
pub proof fn lemma_crop_pixels(p: GrayPage, c: Crop, y: int, x: int)
    requires
        p.valid(),
        c.within(p),
        0 <= y < c.row1 - c.row0,
        0 <= x < c.col1 - c.col0,
    ensures
        spec_crop(p, c).len() == (c.row1 - c.row0) * (c.col1 - c.col0),
        0 <= y * (c.col1 - c.col0) + x < spec_crop(p, c).len(),
        spec_crop(p, c)[y * (c.col1 - c.col0) + x] == p.data@[(c.row0 + y) * p.width + c.col0 + x],
{
    lemma_crop_rows(p, c, (c.row1 - c.row0) as nat, y, x);
}

proof fn lemma_crop_rows(p: GrayPage, c: Crop, n: nat, y: int, x: int)
    requires
        p.valid(),
        c.within(p),
        n <= c.row1 - c.row0,
        0 <= y,
        0 <= x < c.col1 - c.col0,
    ensures
        crop_rows(p.data@, p.width as int, c, n).len() == n * (c.col1 - c.col0),
        y < n ==> 0 <= y * (c.col1 - c.col0) + x < n * (c.col1 - c.col0) && crop_rows(
            p.data@,
            p.width as int,
            c,
            n,
        )[y * (c.col1 - c.col0) + x] == p.data@[(c.row0 + y) * p.width + c.col0 + x],
    decreases n,
{
    let cw = c.col1 - c.col0;
    let w = p.width as int;
    if n > 0 {
        let m = (n - 1) as nat;
        lemma_crop_rows(p, c, m, y, x);
        let r = c.row0 + n - 1;
        assert(n * cw == m * cw + cw && 0 <= m * cw && 0 <= r * w && r * w + w <= w * p.height)
            by (nonlinear_arith)
            requires
                n == m + 1,
                m >= 0,
                cw > 0,
                0 <= r < p.height,
                w > 0,
        ;
        if y < n {
            assert(0 <= y * cw + x < n * cw) by (nonlinear_arith)
                requires
                    0 <= y < n,
                    0 <= x < cw,
            ;
            if y < m {
                assert(y * cw + x < m * cw) by (nonlinear_arith)
                    requires
                        0 <= y < m,
                        0 <= x < cw,
                ;
            } else {
                assert(y == m);
            }
        }
    } else {
        assert(0 * cw == 0) by (nonlinear_arith);
    }
}

// ------------------------------------------------------------------ sizes

/// A page that is scaled keeps its proportions: no whole number of lines is nearer to the height that the width
/// asks for, except that there is at least one line, and no more than can be counted.
pub proof fn lemma_proportions(w: int, h: int, width: int)
    requires
        w > 0,
        h > 0,
        width > 0,
    ensures
        -8 <= w - width <= 8 ==> fit_height(w, h, width) == h,
        !(-8 <= w - width <= 8) ==> {
            let n = fit_height(w, h, width);
            &&& 1 <= n <= u32::MAX
            &&& 1 < n < u32::MAX ==> -w <= 2 * (n * w - h * width) <= w
            &&& n == 1 ==> 2 * h * width < 3 * w
            &&& n == u32::MAX ==> 2 * (n * w - h * width) <= w
        },
{
    if !near(w, width) {
        let a = 2 * h * width + w;
        let q = a / (2 * w);
        assert(a == (2 * w) * q + a % (2 * w) && 0 <= a % (2 * w) < 2 * w) by (nonlinear_arith)
            requires
                q == a / (2 * w),
                w > 0,
        ;
        assert(q * w * 2 == (2 * w) * q) by (nonlinear_arith);
        assert(2 * h * width == 2 * (h * width)) by (nonlinear_arith);
        let m = u32::MAX as int;
        if q > m {
            assert(m * w <= q * w) by (nonlinear_arith)
                requires
                    m <= q,
                    w > 0,
            ;
        }
        if q < 1 {
            assert(q * w <= 0) by (nonlinear_arith)
                requires
                    q <= 0,
                    w > 0,
            ;
        }
    }
}

/// A row of nearly the head's width stays sharp: it is moved, with white on both sides, or cut on both sides, by
/// half of the difference.
pub proof fn lemma_near_rows(data: Seq<u8>, w: int, width: int, y: int, x: int)
    requires
        -8 <= w - width <= 8,
        0 < w,
        0 < width,
        0 <= y,
        (y + 1) * w <= data.len(),
        0 <= x < width,
    ensures
        centred_row(data, w, width, y).len() == width,
        w <= width ==> {
            let left = (width - w) / 2;
            centred_row(data, w, width, y)[x] == if left <= x < left + w {
                data[y * w + (x - left)]
            } else {
                255
            }
        },
        w > width ==> centred_row(data, w, width, y)[x] == data[y * w + (w - width) / 2 + x],
{
    assert((y + 1) * w == y * w + w && y * w >= 0) by (nonlinear_arith)
        requires
            y >= 0,
            w > 0,
    ;
}

/// Rows of nearly the head's width stay in order.
pub proof fn lemma_near_image(data: Seq<u8>, w: int, width: int, n: nat, y: int, x: int)
    requires
        -8 <= w - width <= 8,
        0 < w,
        0 < width,
        n * w <= data.len(),
        0 <= y < n,
        0 <= x < width,
    ensures
        centred(data, w, width, n).len() == n * width,
        0 <= y * width + x < n * width,
        centred(data, w, width, n)[y * width + x] == centred_row(data, w, width, y)[x],
    decreases n,
{
    let m = (n - 1) as nat;
    assert(n * w == m * w + w && n * width == m * width + width && m * w >= 0 && m * width >= 0
        && 0 <= y * width + x < n * width) by (nonlinear_arith)
        requires
            n == m + 1,
            m >= 0,
            w > 0,
            0 <= y < n,
            0 <= x < width,
    ;
    lemma_near_rows(data, w, width, m as int, x);
    if y < m {
        lemma_near_image(data, w, width, m, y, x);
    } else {
        if m > 0 {
            lemma_near_image(data, w, width, m, 0, 0);
        } else {
            assert(centred(data, w, width, 0).len() == 0);
            assert(m * width == 0) by (nonlinear_arith)
                requires
                    m == 0,
            ;
        }
        assert(y == m);
        assert(centred(data, w, width, n) == centred(data, w, width, m) + centred_row(
            data,
            w,
            width,
            m as int,
        ));
    }
}

/// A number of lines in millimetres at 203 dpi is the nearest whole number.
pub proof fn lemma_nearest_mm(lines: int)
    requires
        lines >= 0,
    ensures
        -1015 <= 254 * lines - 2030 * spec_lines_to_mm(lines) <= 1015,
{
}

// ------------------------------------------------------------------ layout and length

/// The layout of the options is in force; without one, a first page of at most 60 mm, or of unknown width, is
/// tape, and a wider one a sheet. White is trimmed on tape only, not for documents, unless the options say so.
pub proof fn lemma_layout(pages: Seq<GrayPage>, opts: RenderOptions)
    requires
        pages.len() > 0,
    ensures
        opts.layout != Layout::Auto ==> spec_layout(pages, opts) == opts.layout,
        opts.layout == Layout::Auto && pages[0].dpi == 0 ==> spec_layout(pages, opts) == Layout::Tape,
        opts.layout == Layout::Auto && pages[0].dpi > 0 ==> (spec_layout(pages, opts) == Layout::Tape
            <==> 254 * pages[0].width <= 600 * pages[0].dpi) && (spec_layout(pages, opts)
            == Layout::Sheet <==> 254 * pages[0].width > 600 * pages[0].dpi),
        opts.trim_override is None ==> (spec_trims(pages, opts) <==> spec_layout(pages, opts)
            == Layout::Tape && opts.preset != Preset::Document),
        opts.trim_override is Some ==> spec_trims(pages, opts) == opts.trim_override->0,
{
}

proof fn lemma_sum_is(pages: Seq<GrayPage>, opts: RenderOptions, k: int)
    requires
        0 <= k <= inked(pages).len(),
    ensures
        sum_lines(pages, opts, inked(pages).take(k)) + opts.page_gap_lines * k == lines_above(
            pages,
            opts,
            k,
        ),
    decreases k,
{
    let ink = inked(pages);
    let g = opts.page_gap_lines as int;
    if k > 0 {
        lemma_sum_is(pages, opts, k - 1);
        assert(ink.take(k).drop_last() =~= ink.take(k - 1));
        assert(g * k == g * (k - 1) + g) by (nonlinear_arith);
    } else {
        assert(ink.take(0) =~= Seq::<int>::empty());
        assert(g * 0 == 0) by (nonlinear_arith);
    }
}

/// The strip is as long as its pages and the gaps between them; one that is longer than the limit is refused,
/// with its length and the limit, and nothing else that is whole is.
pub proof fn lemma_length_limit(pages: Seq<GrayPage>, opts: RenderOptions)
    requires
        pages.len() > 0,
        opts.width_px > 0,
        crate::render::strip::first_bad(pages) is None,
    ensures
        inked(pages).len() == 0 ==> strip_lines(pages, opts) == 16,
        inked(pages).len() > 0 ==> {
            let last = inked(pages).len() - 1;
            strip_lines(pages, opts) == lines_above(pages, opts, last) + page_lines(
                pages,
                opts,
                inked(pages)[last],
            )
        },
        strip_lines(pages, opts) <= opts.max_lines_total ==> prepare_error(pages, opts) is None,
        opts.max_lines_total < strip_lines(pages, opts) <= u32::MAX ==> prepare_error(pages, opts) == Some(
            RenderErrorView::TooLong {
                lines: strip_lines(pages, opts) as u32,
                mm: spec_lines_to_mm(strip_lines(pages, opts)) as u32,
                max_lines: opts.max_lines_total,
                max_mm: spec_lines_to_mm(opts.max_lines_total as int) as u32,
            },
        ),
        strip_lines(pages, opts) > u32::MAX ==> prepare_error(pages, opts) is Some,
{
    let ink = inked(pages);
    if ink.len() > 0 {
        let last = ink.len() - 1;
        lemma_sum_is(pages, opts, last);
        assert(ink.take(ink.len() as int) =~= ink);
        assert(ink.drop_last() =~= ink.take(last));
        let g = opts.page_gap_lines as int;
        assert(0 * last == 0) by (nonlinear_arith);
    }
}

} // verus!
