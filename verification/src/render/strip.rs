//! Stage one: pages to one gray strip of the head's width.

use vstd::prelude::*;

use crate::raster::GrayPage;
use crate::render::fit::{
    can_fit, crop, fit_height, fit_width, fits, fits_one_way, has_ink, height_for, ink_bounds, is_fit,
    lines_to_mm, spec_crop, spec_has_ink, spec_ink_bounds, spec_lines_to_mm, spec_trim_pad, trim_pad,
    white, Crop,
};
use crate::render::{
    Layout, Preset, RenderError, RenderErrorView, RenderOptions, BLANK_STRIP_LINES,
    TAPE_MAX_WIDTH_MM,
};
use crate::text::{dec, owned, push_dec};

verus! {

/// Prepared (still 8-bit gray, unrotated, top-first) strip exactly `width` wide.
#[derive(Debug, Clone, PartialEq, Eq)]
pub struct GrayStrip {
    pub width: u32,
    pub height: u32,
    pub data: Vec<u8>,
    /// Number of source pages that contributed.
    pub pages: u32,
    /// Layout that was actually applied.
    pub layout: Layout,
}

impl GrayStrip {
    /// The strip as a page at 203 dpi.
    pub fn as_page(&self) -> (r: GrayPage)
        ensures
            r.width == self.width,
            r.height == self.height,
            r.dpi == 203,
            r.data@ == self.data@,
    {
        let mut data: Vec<u8> = Vec::new();
        data.extend_from_slice(self.data.as_slice());
        assert(data@ == self.data@);
        GrayPage { width: self.width, height: self.height, dpi: 203, data }
    }
}

// ------------------------------------------------------------------ what is printed

/// The first page that is not whole: no pixels, or a buffer of another size.
pub open spec fn first_bad(pages: Seq<GrayPage>) -> Option<GrayPage>
    decreases pages.len(),
{
    if pages.len() == 0 {
        None
    } else if !pages[0].valid() {
        Some(pages[0])
    } else {
        first_bad(pages.skip(1))
    }
}

/// What is said of a page that is not whole.
pub open spec fn bad_page_text(p: GrayPage) -> Seq<char> {
    "page buffer "@ + dec(p.width as nat) + "x"@ + dec(p.height as nat) + " has "@ + dec(
        p.data@.len(),
    ) + " bytes"@
}

/// The layout in force: that of the options, or by the width of the first page.
pub open spec fn spec_layout(pages: Seq<GrayPage>, opts: RenderOptions) -> Layout {
    if opts.layout == Layout::Auto {
        if pages[0].dpi == 0 || 254 * pages[0].width <= 10 * TAPE_MAX_WIDTH_MM * pages[0].dpi {
            Layout::Tape
        } else {
            Layout::Sheet
        }
    } else {
        opts.layout
    }
}

/// Whether white margins are trimmed.
pub open spec fn spec_trims(pages: Seq<GrayPage>, opts: RenderOptions) -> bool {
    match opts.trim_override {
        Some(t) => t,
        None => spec_layout(pages, opts) == Layout::Tape && opts.preset != Preset::Document,
    }
}

/// The positions of the pages that have ink, in order.
pub open spec fn inked(pages: Seq<GrayPage>) -> Seq<int>
    decreases pages.len(),
{
    if pages.len() == 0 {
        Seq::empty()
    } else if spec_has_ink(pages.last().data@) {
        inked(pages.drop_last()).push(pages.len() - 1)
    } else {
        inked(pages.drop_last())
    }
}

/// The ink's bounds on a page.
pub open spec fn bounds(p: GrayPage) -> Crop {
    spec_ink_bounds(p, spec_trim_pad(p.dpi as int))
}

/// The leftmost column that any of the pages at `at` needs.
pub open spec fn union_start(pages: Seq<GrayPage>, at: Seq<int>) -> int
    decreases at.len(),
{
    if at.len() == 0 {
        u32::MAX as int
    } else {
        let rest = union_start(pages, at.drop_last());
        let here = bounds(pages[at.last()]).col0 as int;
        if here < rest {
            here
        } else {
            rest
        }
    }
}

/// The rightmost column end that any of the pages at `at` needs.
pub open spec fn union_end(pages: Seq<GrayPage>, at: Seq<int>) -> int
    decreases at.len(),
{
    if at.len() == 0 {
        0
    } else {
        let rest = union_end(pages, at.drop_last());
        let here = bounds(pages[at.last()]).col1 as int;
        if here > rest {
            here
        } else {
            rest
        }
    }
}

/// The part of page `i` that is printed: the whole of it, or, trimmed, the rows of its own ink and
/// the columns of all pages' ink, so that every page has the same horizontal scale.
pub open spec fn page_crop(pages: Seq<GrayPage>, opts: RenderOptions, i: int) -> Crop {
    let p = pages[i];
    if spec_trims(pages, opts) {
        let end = union_end(pages, inked(pages));
        Crop {
            row0: bounds(p).row0,
            row1: bounds(p).row1,
            col0: union_start(pages, inked(pages)) as u32,
            col1: (if end < p.width {
                end
            } else {
                p.width as int
            }) as u32,
        }
    } else {
        Crop { row0: 0, row1: p.height, col0: 0, col1: p.width }
    }
}

/// Width and height of a part.
pub open spec fn crop_width(c: Crop) -> int {
    c.col1 - c.col0
}

/// Width and height of a part.
pub open spec fn crop_height(c: Crop) -> int {
    c.row1 - c.row0
}

/// The lines that page `i` takes on the strip.
pub open spec fn page_lines(pages: Seq<GrayPage>, opts: RenderOptions, i: int) -> int {
    let c = page_crop(pages, opts, i);
    fit_height(crop_width(c), crop_height(c), opts.width_px as int)
}

/// The lines that the pages at `at` take together.
pub open spec fn sum_lines(pages: Seq<GrayPage>, opts: RenderOptions, at: Seq<int>) -> int
    decreases at.len(),
{
    if at.len() == 0 {
        0
    } else {
        sum_lines(pages, opts, at.drop_last()) + page_lines(pages, opts, at.last())
    }
}

/// The white lines between two pages; a single page has none.
pub open spec fn gap(pages: Seq<GrayPage>, opts: RenderOptions) -> int {
    if inked(pages).len() > 1 {
        opts.page_gap_lines as int
    } else {
        0
    }
}

/// The lines of the whole strip.
pub open spec fn total_lines(pages: Seq<GrayPage>, opts: RenderOptions) -> int {
    sum_lines(pages, opts, inked(pages)) + gap(pages, opts) * (inked(pages).len() - 1)
}

/// The lines of the strip: of the pages with ink, or of the white strip where no page has any.
pub open spec fn strip_lines(pages: Seq<GrayPage>, opts: RenderOptions) -> int {
    if inked(pages).len() == 0 {
        BLANK_STRIP_LINES as int
    } else {
        total_lines(pages, opts)
    }
}

/// Every inked page can be brought to the head's width.
pub open spec fn all_fit(pages: Seq<GrayPage>, opts: RenderOptions) -> bool {
    forall|k: int|
        0 <= k < inked(pages).len() ==> {
            let c = page_crop(pages, opts, #[trigger] inked(pages)[k]);
            can_fit(crop_width(c), crop_height(c), opts.width_px as int)
        }
}

/// Why a document cannot be prepared, in the order in which it is found out.
pub open spec fn prepare_error(pages: Seq<GrayPage>, opts: RenderOptions) -> Option<
    RenderErrorView,
> {
    if pages.len() == 0 || opts.width_px == 0 {
        Some(RenderErrorView::Empty)
    } else if first_bad(pages) is Some {
        Some(RenderErrorView::Internal(bad_page_text(first_bad(pages)->0)))
    } else if strip_lines(pages, opts) > opts.max_lines_total {
        let lines = if strip_lines(pages, opts) < u32::MAX {
            strip_lines(pages, opts)
        } else {
            u32::MAX as int
        };
        Some(
            RenderErrorView::TooLong {
                lines: lines as u32,
                mm: spec_lines_to_mm(lines) as u32,
                max_lines: opts.max_lines_total,
                max_mm: spec_lines_to_mm(opts.max_lines_total as int) as u32,
            },
        )
    } else {
        None
    }
}

/// The document can be prepared: where it is not refused, every page with ink can be brought to the head's
/// width.
pub open spec fn can_prepare(pages: Seq<GrayPage>, opts: RenderOptions) -> bool {
    prepare_error(pages, opts) is None && inked(pages).len() > 0 ==> all_fit(pages, opts)
}

/// Pages one below the other, with `gap` white pixels between two of them.
pub open spec fn joined(parts: Seq<Seq<u8>>, gap: int) -> Seq<u8>
    decreases parts.len(),
{
    if parts.len() == 0 {
        Seq::empty()
    } else if parts.len() == 1 {
        parts[0]
    } else {
        joined(parts.drop_last(), gap) + white(gap) + parts.last()
    }
}

/// `out` is what page `i` becomes: cropped, fitted to the head's width and, where the preset asks
/// for it, sharpened by `sharpen`.
pub open spec fn is_page_part<F: Fn(&[u8], usize, usize) -> Vec<u8>>(
    pages: Seq<GrayPage>,
    opts: RenderOptions,
    sharpen: F,
    i: int,
    out: Seq<u8>,
) -> bool {
    let c = page_crop(pages, opts, i);
    exists|fitted: Vec<u8>|
        {
            &&& is_fit(
                crop_width(c),
                crop_height(c),
                spec_crop(pages[i], c),
                opts.width_px as int,
                #[trigger] fitted@,
            )
            &&& fitted@.len() == opts.width_px * page_lines(pages, opts, i)
            &&& if opts.preset == Preset::Text {
                out == fitted@
            } else {
                exists|sharp: Vec<u8>|
                    out == sharp@ && #[trigger] sharpened_by(
                        sharpen,
                        fitted,
                        opts.width_px as usize,
                        page_lines(pages, opts, i) as usize,
                        sharp,
                    )
            }
        }
}

/// `sharp` is a result of the kernel on the image `data`.
pub open spec fn sharpened_by<F: Fn(&[u8], usize, usize) -> Vec<u8>>(
    sharpen: F,
    data: Vec<u8>,
    w: usize,
    h: usize,
    sharp: Vec<u8>,
) -> bool {
    exists|s: &[u8]| #[trigger] s@ == data@ && sharpen.ensures((s, w, h), sharp)
}

/// The kernel accepts every image and keeps its size.
pub open spec fn keeps_size<F: Fn(&[u8], usize, usize) -> Vec<u8>>(sharpen: F) -> bool {
    &&& forall|s: &[u8], w: usize, h: usize|
        s@.len() == w * h ==> #[trigger] sharpen.requires((s, w, h))
    &&& forall|s: &[u8], w: usize, h: usize, v: Vec<u8>|
        s@.len() == w * h && #[trigger] sharpen.ensures((s, w, h), v) ==> v@.len() == s@.len()
}

/// `strip` is a strip that the document can become.
pub open spec fn is_strip_of<F: Fn(&[u8], usize, usize) -> Vec<u8>>(
    pages: Seq<GrayPage>,
    opts: RenderOptions,
    sharpen: F,
    strip: GrayStrip,
) -> bool {
    &&& strip.width == opts.width_px
    &&& strip.layout == spec_layout(pages, opts)
    &&& strip.height == strip_lines(pages, opts)
    &&& strip.data@.len() == strip.width * strip.height
    &&& if inked(pages).len() == 0 {
        &&& strip.data@ == white(opts.width_px * BLANK_STRIP_LINES)
        &&& strip.pages == 1
    } else {
        &&& strip.pages == inked(pages).len()
        &&& exists|parts: Seq<Seq<u8>>|
            {
                &&& parts.len() == inked(pages).len()
                &&& forall|k: int|
                    0 <= k < parts.len() ==> is_page_part(
                        pages,
                        opts,
                        sharpen,
                        inked(pages)[k],
                        #[trigger] parts[k],
                    )
                &&& strip.data@ == #[trigger] joined(parts, gap(pages, opts) * opts.width_px)
            }
    }
}

// ------------------------------------------------------------------ facts

proof fn lemma_first_bad(pages: Seq<GrayPage>)
    ensures
        first_bad(pages) is None <==> forall|i: int|
            0 <= i < pages.len() ==> #[trigger] pages[i].valid(),
    decreases pages.len(),
{
    if pages.len() > 0 && pages[0].valid() {
        lemma_first_bad(pages.skip(1));
        let t = pages.skip(1);
        if first_bad(t) is None {
            assert forall|i: int| 0 <= i < pages.len() implies #[trigger] pages[i].valid() by {
                if i > 0 {
                    assert(t[i - 1].valid());
                }
            }
        } else {
            let i = choose|i: int| 0 <= i < t.len() && !#[trigger] t[i].valid();
            assert(!pages[i + 1].valid());
        }
    }
}

proof fn lemma_first_bad_at(pages: Seq<GrayPage>, k: int)
    requires
        0 <= k < pages.len(),
        !pages[k].valid(),
        forall|i: int| 0 <= i < k ==> #[trigger] pages[i].valid(),
    ensures
        first_bad(pages) == Some(pages[k]),
    decreases k,
{
    if k > 0 {
        assert(pages[0].valid());
        let t = pages.skip(1);
        assert forall|i: int| 0 <= i < k - 1 implies #[trigger] t[i].valid() by {
            assert(pages[i + 1].valid());
        }
        lemma_first_bad_at(t, k - 1);
    }
}

proof fn lemma_inked(pages: Seq<GrayPage>)
    ensures
        inked(pages).len() <= pages.len(),
        forall|k: int|
            0 <= k < inked(pages).len() ==> 0 <= #[trigger] inked(pages)[k] < pages.len()
                && spec_has_ink(pages[inked(pages)[k]].data@),
    decreases pages.len(),
{
    if pages.len() > 0 {
        lemma_inked(pages.drop_last());
    }
}

/// A trimmed part lies within its page: each page's own ink is within the union.
proof fn lemma_union(pages: Seq<GrayPage>, at: Seq<int>, k: int)
    requires
        0 <= k < at.len(),
    ensures
        union_start(pages, at) <= bounds(pages[at[k]]).col0,
        union_end(pages, at) >= bounds(pages[at[k]]).col1,
    decreases at.len(),
{
    if k < at.len() - 1 {
        lemma_union(pages, at.drop_last(), k);
    }
}

proof fn lemma_union_range(pages: Seq<GrayPage>, at: Seq<int>)
    ensures
        0 <= union_start(pages, at) <= u32::MAX,
        0 <= union_end(pages, at) <= u32::MAX,
    decreases at.len(),
{
    if at.len() > 0 {
        lemma_union_range(pages, at.drop_last());
    }
}

/// The bytes of fitted pages one below the other.
proof fn lemma_joined_len(
    pages: Seq<GrayPage>,
    opts: RenderOptions,
    at: Seq<int>,
    parts: Seq<Seq<u8>>,
    gap: int,
)
    requires
        parts.len() == at.len(),
        at.len() > 0,
        gap >= 0,
        forall|k: int|
            0 <= k < at.len() ==> (#[trigger] parts[k]).len() == opts.width_px * page_lines(
                pages,
                opts,
                at[k],
            ),
    ensures
        joined(parts, gap).len() == opts.width_px * sum_lines(pages, opts, at) + gap * (at.len()
            - 1),
    decreases at.len(),
{
    let n = at.len();
    let w = opts.width_px as int;
    let last = page_lines(pages, opts, at.last());
    let rest = sum_lines(pages, opts, at.drop_last());
    assert(parts[n - 1].len() == w * last);
    assert(w * (rest + last) == w * rest + w * last) by (nonlinear_arith);
    if n == 1 {
        assert(at.drop_last() =~= Seq::<int>::empty());
        assert(w * 0 == 0 && gap * 0 == 0) by (nonlinear_arith);
    } else {
        assert forall|k: int| 0 <= k < n - 1 implies (#[trigger] parts.drop_last()[k]).len()
            == opts.width_px * page_lines(pages, opts, at.drop_last()[k]) by {
            assert(parts[k].len() == opts.width_px * page_lines(pages, opts, at[k]));
        }
        lemma_joined_len(pages, opts, at.drop_last(), parts.drop_last(), gap);
        assert(gap * (n - 1) == gap * (n - 2) + gap) by (nonlinear_arith);
    }
}

// ------------------------------------------------------------------ the stage

fn push_white_lines(out: &mut Vec<u8>, lines: u32, width: u32)
    ensures
        final(out)@ == old(out)@ + white(lines * width),
{
    assert(lines * width <= 0xffff_ffff * 0xffff_ffff && 0 <= lines * width) by (nonlinear_arith)
        requires
            lines <= 0xffff_ffff,
            width <= 0xffff_ffff,
    ;
    let n: u64 = lines as u64 * width as u64;
    let mut i: u64 = 0;
    while i < n
        invariant
            i <= n,
            out@ == old(out)@ + white(i as int),
        decreases n - i,
    {
        out.push(255);
        i += 1;
        assert(out@ =~= old(out)@ + white(i as int));
    }
}

fn bad_page(p: &GrayPage) -> (r: RenderError)
    ensures
        r@ == RenderErrorView::Internal(bad_page_text(*p)),
{
    let mut m = owned("page buffer ");
    push_dec(&mut m, p.width as u64);
    m.push_str("x");
    push_dec(&mut m, p.height as u64);
    m.push_str(" has ");
    push_dec(&mut m, p.data.len() as u64);
    m.push_str(" bytes");
    RenderError::Internal(m)
}

fn check_pages(pages: &Vec<GrayPage>) -> (r: Option<RenderError>)
    ensures
        match r {
            None => first_bad(pages@) is None,
            Some(e) => first_bad(pages@) is Some && e@ == RenderErrorView::Internal(
                bad_page_text(first_bad(pages@)->0),
            ),
        },
{
    let mut i: usize = 0;
    while i < pages.len()
        invariant
            i <= pages.len(),
            forall|j: int| 0 <= j < i ==> #[trigger] pages@[j].valid(),
        decreases pages.len() - i,
    {
        let p = &pages[i];
        assert(p.width * p.height <= 0xffff_ffff * 0xffff_ffff) by (nonlinear_arith)
            requires
                p.width <= 0xffff_ffff,
                p.height <= 0xffff_ffff,
        ;
        if p.width == 0 || p.height == 0 || p.data.len() as u64 != p.width as u64 * p.height as u64 {
            proof {
                lemma_first_bad_at(pages@, i as int);
            }
            return Some(bad_page(p));
        }
        i += 1;
    }
    proof {
        lemma_first_bad(pages@);
    }
    None
}

/// The positions of a list of indices.
spec fn positions(v: Seq<usize>) -> Seq<int> {
    Seq::new(v.len(), |i: int| v[i] as int)
}

fn find_inked(pages: &Vec<GrayPage>) -> (r: Vec<usize>)
    ensures
        positions(r@) == inked(pages@),
{
    let mut at: Vec<usize> = Vec::new();
    let mut i: usize = 0;
    while i < pages.len()
        invariant
            i <= pages.len(),
            positions(at@) == inked(pages@.take(i as int)),
        decreases pages.len() - i,
    {
        let ghost before = at@;
        assert(pages@.take(i as int + 1).drop_last() == pages@.take(i as int));
        if has_ink(pages[i].data.as_slice()) {
            at.push(i);
            assert(positions(at@) =~= positions(before).push(i as int));
        }
        i += 1;
    }
    assert(pages@.take(pages@.len() as int) == pages@);
    at
}

/// The part of each inked page that is printed.
fn find_crops(pages: &Vec<GrayPage>, at: &Vec<usize>, trims: bool, opts: &RenderOptions) -> (r: Vec<
    Crop,
>)
    requires
        pages@.len() > 0,
        first_bad(pages@) is None,
        positions(at@) == inked(pages@),
        trims == spec_trims(pages@, *opts),
    ensures
        r@.len() == at@.len(),
        forall|k: int|
            0 <= k < r@.len() ==> #[trigger] r@[k] == page_crop(pages@, *opts, inked(pages@)[k])
                && r@[k].within(pages@[inked(pages@)[k]]),
{
    proof {
        lemma_first_bad(pages@);
        lemma_inked(pages@);
    }
    let ghost ink = inked(pages@);
    assert forall|k: int| 0 <= k < at@.len() implies #[trigger] at@[k] == ink[k] by {
        assert(positions(at@)[k] == ink[k]);
    }
    let mut crops: Vec<Crop> = Vec::new();
    if !trims {
        let mut k: usize = 0;
        while k < at.len()
            invariant
                k <= at.len(),
                ink == inked(pages@),
                !spec_trims(pages@, *opts),
                at@.len() == ink.len(),
                forall|j: int|
                    0 <= j < at@.len() ==> #[trigger] at@[j] == ink[j] && at@[j] < pages@.len(),
                forall|j: int| 0 <= j < pages@.len() ==> #[trigger] pages@[j].valid(),
                crops@.len() == k,
                forall|j: int|
                    0 <= j < k ==> #[trigger] crops@[j] == page_crop(pages@, *opts, ink[j])
                        && crops@[j].within(pages@[ink[j]]),
            decreases at.len() - k,
        {
            assert(at@[k as int] == ink[k as int]);
            let p = &pages[at[k]];
            assert(pages@[at@[k as int] as int].valid());
            crops.push(Crop { row0: 0, row1: p.height, col0: 0, col1: p.width });
            k += 1;
        }
        return crops;
    }
    let mut c0: u32 = u32::MAX;
    let mut c1: u32 = 0;
    let mut own: Vec<Crop> = Vec::new();
    let mut k: usize = 0;
    assert(ink.take(0) =~= Seq::<int>::empty());
    while k < at.len()
        invariant
            k <= at.len(),
            ink == inked(pages@),
            at@.len() == ink.len(),
            forall|j: int|
                0 <= j < at@.len() ==> #[trigger] at@[j] == ink[j] && at@[j] < pages@.len()
                    && spec_has_ink(pages@[ink[j]].data@),
            forall|j: int| 0 <= j < pages@.len() ==> #[trigger] pages@[j].valid(),
            own@.len() == k,
            forall|j: int|
                0 <= j < k ==> #[trigger] own@[j] == bounds(pages@[ink[j]]) && own@[j].within(
                    pages@[ink[j]],
                ),
            c0 == union_start(pages@, ink.take(k as int)),
            c1 == union_end(pages@, ink.take(k as int)),
        decreases at.len() - k,
    {
        assert(at@[k as int] == ink[k as int]);
        let p = &pages[at[k]];
        assert(pages@[at@[k as int] as int].valid());
        let b = ink_bounds(p, trim_pad(p.dpi));
        assert(ink.take(k as int + 1).drop_last() == ink.take(k as int));
        if b.col0 < c0 {
            c0 = b.col0;
        }
        if b.col1 > c1 {
            c1 = b.col1;
        }
        own.push(b);
        k += 1;
    }
    assert(ink.take(ink.len() as int) == ink);
    let mut k: usize = 0;
    while k < at.len()
        invariant
            k <= at.len(),
            ink == inked(pages@),
            spec_trims(pages@, *opts),
            at@.len() == ink.len(),
            own@.len() == at@.len(),
            forall|j: int|
                0 <= j < at@.len() ==> #[trigger] at@[j] == ink[j] && at@[j] < pages@.len(),
            forall|j: int|
                0 <= j < own@.len() ==> #[trigger] own@[j] == bounds(pages@[ink[j]])
                    && own@[j].within(pages@[ink[j]]),
            c0 == union_start(pages@, ink),
            c1 == union_end(pages@, ink),
            crops@.len() == k,
            forall|j: int|
                0 <= j < k ==> #[trigger] crops@[j] == page_crop(pages@, *opts, ink[j])
                    && crops@[j].within(pages@[ink[j]]),
        decreases at.len() - k,
    {
        assert(at@[k as int] == ink[k as int]);
        let p = &pages[at[k]];
        let b = own[k];
        assert(own@[k as int].within(pages@[ink[k as int]]));
        proof {
            lemma_union(pages@, ink, k as int);
        }
        crops.push(
            Crop {
                row0: b.row0,
                row1: b.row1,
                col0: c0,
                col1: if c1 < p.width {
                    c1
                } else {
                    p.width
                },
            },
        );
        k += 1;
    }
    crops
}

fn too_long(lines: u32, opts: &RenderOptions) -> (r: RenderError)
    ensures
        r@ == (RenderErrorView::TooLong {
            lines,
            mm: spec_lines_to_mm(lines as int) as u32,
            max_lines: opts.max_lines_total,
            max_mm: spec_lines_to_mm(opts.max_lines_total as int) as u32,
        }),
{
    RenderError::TooLong {
        lines,
        mm: lines_to_mm(lines),
        max_lines: opts.max_lines_total,
        max_mm: lines_to_mm(opts.max_lines_total),
    }
}

/// Joins fitted pages, with `gap` white lines between two of them.
fn join_parts(parts: &Vec<Vec<u8>>, gap: u32, width: u32) -> (r: Vec<u8>)
    ensures
        r@ == joined(crate::render::strip::byte_views(parts@), gap * width),
{
    let ghost views = byte_views(parts@);
    let mut out: Vec<u8> = Vec::new();
    let mut k: usize = 0;
    assert(views.take(0) =~= Seq::<Seq<u8>>::empty());
    while k < parts.len()
        invariant
            k <= parts.len(),
            views == byte_views(parts@),
            out@ == joined(views.take(k as int), gap * width),
        decreases parts.len() - k,
    {
        let ghost before = out@;
        assert(views.take(k as int + 1).drop_last() == views.take(k as int));
        assert(views.take(k as int + 1).last() == parts@[k as int]@);
        if k > 0 {
            push_white_lines(&mut out, gap, width);
        }
        out.extend_from_slice(parts[k].as_slice());
        assert(out@ =~= joined(views.take(k as int + 1), gap * width));
        k += 1;
    }
    assert(views.take(views.len() as int) == views);
    out
}

/// The views of a list of buffers.
pub open spec fn byte_views(v: Seq<Vec<u8>>) -> Seq<Seq<u8>> {
    Seq::new(v.len(), |i: int| v[i]@)
}

/// What is to be printed of a document.
struct Plan {
    /// The pages with ink.
    at: Vec<usize>,
    /// The part of each that is printed.
    crops: Vec<Crop>,
    layout: Layout,
    lines: u32,
    /// Every one of them can be brought to the head's width.
    fit: bool,
}

/// `p` is the plan of a document.
spec fn is_plan(p: Plan, pages: Seq<GrayPage>, opts: RenderOptions) -> bool {
    let ink = inked(pages);
    &&& positions(p.at@) == ink
    &&& p.at@.len() == ink.len()
    &&& p.layout == spec_layout(pages, opts)
    &&& p.lines == strip_lines(pages, opts)
    &&& ink.len() > 0 ==> {
        &&& p.fit == all_fit(pages, opts)
        &&& p.crops@.len() == ink.len()
        &&& forall|j: int|
            0 <= j < p.crops@.len() ==> #[trigger] p.crops@[j] == page_crop(pages, opts, ink[j])
                && p.crops@[j].within(pages[ink[j]]) && 0 <= ink[j] < pages.len()
    }
}

/// Plans a document, or says why it is refused.
fn plan(pages: &Vec<GrayPage>, opts: &RenderOptions) -> (r: Result<Plan, RenderError>)
    requires
        pages@.len() <= u32::MAX,
    ensures
        match r {
            Ok(p) => prepare_error(pages@, *opts) is None && is_plan(p, pages@, *opts),
            Err(e) => prepare_error(pages@, *opts) == Some(e@),
        },
{
    if pages.len() == 0 || opts.width_px == 0 {
        return Err(RenderError::Empty);
    }
    if let Some(e) = check_pages(pages) {
        return Err(e);
    }
    proof {
        lemma_first_bad(pages@);
        lemma_inked(pages@);
    }
    let w: u32 = opts.width_px;
    let layout = match opts.layout {
        Layout::Auto => if pages[0].at_most_mm_wide(TAPE_MAX_WIDTH_MM) {
            Layout::Tape
        } else {
            Layout::Sheet
        },
        Layout::Tape => Layout::Tape,
        Layout::Sheet => Layout::Sheet,
    };
    let trims = match opts.trim_override {
        Some(t) => t,
        None => layout == Layout::Tape && opts.preset.trim(),
    };
    let at = find_inked(pages);
    let ghost ink = inked(pages@);
    assert(at@.len() == ink.len()) by {
        assert(positions(at@).len() == ink.len());
    }
    if at.len() == 0 {
        if BLANK_STRIP_LINES > opts.max_lines_total {
            return Err(too_long(BLANK_STRIP_LINES, opts));
        }
        return Ok(Plan { at, crops: Vec::new(), layout, lines: BLANK_STRIP_LINES, fit: true });
    }
    let crops = find_crops(pages, &at, trims, opts);
    let mut total: u128 = 0;
    let mut fit = true;
    let mut k: usize = 0;
    assert(ink.take(0) =~= Seq::<int>::empty());
    while k < at.len()
        invariant
            k <= at.len(),
            opts.width_px == w,
            w > 0,
            0 < pages@.len() <= u32::MAX,
            first_bad(pages@) is None,
            ink.len() > 0,
            at@.len() <= pages@.len(),
            ink == inked(pages@),
            at@.len() == ink.len(),
            crops@.len() == at@.len(),
            forall|j: int|
                0 <= j < crops@.len() ==> #[trigger] crops@[j] == page_crop(pages@, *opts, ink[j])
                    && crops@[j].within(pages@[ink[j]]),
            fit ==> forall|j: int|
                0 <= j < k ==> {
                    let c = page_crop(pages@, *opts, #[trigger] ink[j]);
                    can_fit(crop_width(c), crop_height(c), w as int)
                },
            !fit ==> !all_fit(pages@, *opts),
            total == sum_lines(pages@, *opts, ink.take(k as int)),
            total <= k * 0xffff_ffff,
        decreases at.len() - k,
    {
        let c = crops[k];
        assert(crops@[k as int].within(pages@[ink[k as int]]));
        let cw: u32 = c.col1 - c.col0;
        let ch: u32 = c.row1 - c.row0;
        if !fits(cw, ch, w) {
            assert(!all_fit(pages@, *opts)) by {
                let cc = page_crop(pages@, *opts, ink[k as int]);
                assert(!can_fit(crop_width(cc), crop_height(cc), w as int));
            }
            fit = false;
        }
        assert(ink.take(k as int + 1).drop_last() == ink.take(k as int));
        assert((k + 1) * 0xffff_ffff == k * 0xffff_ffff + 0xffff_ffff);
        total = total + height_for(cw, ch, w) as u128;
        k += 1;
    }
    assert(ink.take(ink.len() as int) == ink);
    assert(fit == all_fit(pages@, *opts));
    let gap: u32 = if at.len() > 1 {
        opts.page_gap_lines
    } else {
        0
    };
    assert(gap * (at@.len() - 1) <= 0xffff_ffff * 0xffff_ffff && 0 <= gap * (at@.len() - 1))
        by (nonlinear_arith)
        requires
            gap <= 0xffff_ffff,
            1 <= at@.len() <= 0xffff_ffff,
    ;
    let total: u128 = total + (gap as u128) * ((at.len() - 1) as u128);
    assert(total == total_lines(pages@, *opts));
    if total > opts.max_lines_total as u128 {
        let lines: u32 = if total < 0xffff_ffff {
            total as u32
        } else {
            0xffff_ffff
        };
        return Err(too_long(lines, opts));
    }
    assert forall|j: int| 0 <= j < crops@.len() implies 0 <= #[trigger] ink[j] < pages@.len() by {}
    Ok(Plan { at, crops, layout, lines: total as u32, fit })
}

/// Whether the document can be prepared.
pub fn is_preparable(pages: &Vec<GrayPage>, opts: &RenderOptions) -> (r: bool)
    requires
        pages@.len() <= u32::MAX,
    ensures
        r == can_prepare(pages@, *opts),
{
    match plan(pages, opts) {
        Ok(p) => p.at.len() == 0 || p.fit,
        Err(_) => true,
    }
}

/// Stage one: trim, fit, sharpen, join; validates the length.
///
/// Blank pages carry nothing and are dropped, unless everything is blank: then a short white strip
/// comes out. The strip is never cut: one that would be longer than the limit is an error. `sharpen`
/// is given the fitted page with its width and height, and keeps its size. Pages on which the scaler
/// might panic are left out: `is_preparable` tells.
pub fn prepare<F: Fn(&[u8], usize, usize) -> Vec<u8>>(
    pages: Vec<GrayPage>,
    opts: &RenderOptions,
    sharpen: F,
) -> (r: Result<GrayStrip, RenderError>)
    requires
        pages@.len() <= u32::MAX,
        can_prepare(pages@, *opts),
        keeps_size(sharpen),
    ensures
        match r {
            Ok(strip) => prepare_error(pages@, *opts) is None && is_strip_of(
                pages@,
                *opts,
                sharpen,
                strip,
            ),
            Err(e) => prepare_error(pages@, *opts) == Some(e@),
        },
{
    let p = match plan(&pages, opts) {
        Ok(p) => p,
        Err(e) => {
            return Err(e);
        },
    };
    let w: u32 = opts.width_px;
    let at = p.at;
    let crops = p.crops;
    let layout = p.layout;
    let total: u32 = p.lines;
    let ghost ink = inked(pages@);
    proof {
        lemma_first_bad(pages@);
        lemma_inked(pages@);
    }
    if at.len() == 0 {
        let mut data: Vec<u8> = Vec::new();
        push_white_lines(&mut data, BLANK_STRIP_LINES, w);
        assert(BLANK_STRIP_LINES * w == w * BLANK_STRIP_LINES) by (nonlinear_arith);
        assert(Seq::<u8>::empty() + white(w * BLANK_STRIP_LINES) =~= white(w * BLANK_STRIP_LINES));
        return Ok(GrayStrip { width: w, height: BLANK_STRIP_LINES, data, pages: 1, layout });
    }
    let gap: u32 = if at.len() > 1 {
        opts.page_gap_lines
    } else {
        0
    };
    let mut parts: Vec<Vec<u8>> = Vec::new();
    let mut k: usize = 0;
    while k < at.len()
        invariant
            k <= at.len(),
            opts.width_px == w,
            ink == inked(pages@),
            at@.len() == ink.len(),
            positions(at@) == ink,
            crops@.len() == at@.len(),
            all_fit(pages@, *opts),
            keeps_size(sharpen),
            forall|j: int| 0 <= j < pages@.len() ==> #[trigger] pages@[j].valid(),
            forall|j: int|
                0 <= j < crops@.len() ==> #[trigger] crops@[j] == page_crop(pages@, *opts, ink[j])
                    && crops@[j].within(pages@[ink[j]]) && 0 <= ink[j] < pages@.len(),
            parts@.len() == k,
            forall|j: int|
                0 <= j < k ==> is_page_part(
                    pages@,
                    *opts,
                    sharpen,
                    ink[j],
                    (#[trigger] parts@[j])@,
                ) && parts@[j]@.len() == w * page_lines(pages@, *opts, ink[j]),
        decreases at.len() - k,
    {
        let c = crops[k];
        assert(crops@[k as int].within(pages@[ink[k as int]]));
        assert(positions(at@)[k as int] == ink[k as int]);
        let p = &pages[at[k]];
        assert(pages@[ink[k as int]].valid());
        let cropped = crop(p, c);
        let cw: u32 = c.col1 - c.col0;
        let ch: u32 = c.row1 - c.row0;
        assert(cw * ch == ch * cw) by (nonlinear_arith);
        assert(can_fit(cw as int, ch as int, w as int)) by {
            let cc = page_crop(pages@, *opts, ink[k as int]);
            assert(can_fit(crop_width(cc), crop_height(cc), opts.width_px as int));
        }
        let (fw, fh, fitted) = fit_width(cw, ch, cropped.as_slice(), w);
        assert(fh == page_lines(pages@, *opts, ink[k as int]));
        if opts.preset.unsharp() {
            let sharp = sharpen(fitted.as_slice(), fw as usize, fh as usize);
            assert(sharpened_by(sharpen, fitted, fw as usize, fh as usize, sharp));
            assert(is_page_part(pages@, *opts, sharpen, ink[k as int], sharp@));
            parts.push(sharp);
        } else {
            assert(is_page_part(pages@, *opts, sharpen, ink[k as int], fitted@));
            parts.push(fitted);
        }
        k += 1;
    }
    let data = join_parts(&parts, gap, w);
    let strip = GrayStrip {
        width: w,
        height: total,
        data,
        pages: at.len() as u32,
        layout,
    };
    assert(is_strip_of(pages@, *opts, sharpen, strip)) by {
        let views = byte_views(parts@);
        assert(strip.data@ == joined(views, gap * w));
        assert forall|k: int| 0 <= k < views.len() implies is_page_part(
            pages@,
            *opts,
            sharpen,
            inked(pages@)[k],
            #[trigger] views[k],
        ) by {
            assert(views[k] == parts@[k]@);
        }
        assert forall|k: int| 0 <= k < views.len() implies (#[trigger] views[k]).len()
            == opts.width_px * page_lines(pages@, *opts, ink[k]) by {
            assert(views[k] == parts@[k]@);
        }
        assert(gap * w >= 0) by (nonlinear_arith)
            requires
                gap >= 0,
                w >= 0,
        ;
        lemma_joined_len(pages@, *opts, ink, views, gap * w);
        let lines = sum_lines(pages@, *opts, ink);
        let n = ink.len() - 1;
        assert(w * (lines + gap * n) == w * lines + (gap * w) * n) by (nonlinear_arith);
    }
    Ok(strip)
}

// ------------------------------------------------------------------ laws

/// A sheet is printed whole: nothing of its pages is cut away, whatever the preset.
pub proof fn lemma_sheets_are_whole(pages: Seq<GrayPage>, opts: RenderOptions, i: int)
    requires
        opts.layout == Layout::Sheet,
        opts.trim_override is None,
        0 <= i < pages.len(),
    ensures
        page_crop(pages, opts, i) == (Crop {
            row0: 0,
            row1: pages[i].height,
            col0: 0,
            col1: pages[i].width,
        }),
{
}

/// A document that is too long is refused, never cut: a strip that comes out is as wide as the head, whole,
/// within the limit, with every line of every page with ink, and of a layout that is in force.
pub proof fn lemma_never_truncated<F: Fn(&[u8], usize, usize) -> Vec<u8>>(
    pages: Seq<GrayPage>,
    opts: RenderOptions,
    sharpen: F,
    strip: GrayStrip,
)
    requires
        prepare_error(pages, opts) is None,
        is_strip_of(pages, opts, sharpen, strip),
    ensures
        strip.width == opts.width_px,
        strip.data@.len() == strip.width * strip.height,
        strip.height <= opts.max_lines_total,
        inked(pages).len() > 0 ==> strip.height == total_lines(pages, opts) && strip.pages == inked(
            pages,
        ).len(),
        1 <= strip.pages <= pages.len(),
        strip.layout == Layout::Tape || strip.layout == Layout::Sheet,
        opts.layout != Layout::Auto ==> strip.layout == opts.layout,
{
    lemma_inked(pages);
}

/// The pages that have ink.
pub open spec fn without_blanks(pages: Seq<GrayPage>) -> Seq<GrayPage> {
    Seq::new(inked(pages).len(), |k: int| pages[inked(pages)[k]])
}

/// The positions `0` to `n - 1`.
pub open spec fn first_positions(n: nat) -> Seq<int> {
    Seq::new(n, |k: int| k)
}

proof fn lemma_all_inked(pages: Seq<GrayPage>)
    requires
        forall|k: int| 0 <= k < pages.len() ==> spec_has_ink(#[trigger] pages[k].data@),
    ensures
        inked(pages) == first_positions(pages.len()),
    decreases pages.len(),
{
    if pages.len() > 0 {
        assert(spec_has_ink(pages[pages.len() - 1].data@));
        assert forall|k: int| 0 <= k < pages.len() - 1 implies spec_has_ink(
            #[trigger] pages.drop_last()[k].data@,
        ) by {
            assert(spec_has_ink(pages[k].data@));
        }
        lemma_all_inked(pages.drop_last());
    }
    assert(inked(pages) =~= first_positions(pages.len()));
}

/// The same pages need the same columns, wherever they stand.
proof fn lemma_same_union(a: Seq<GrayPage>, at: Seq<int>, b: Seq<GrayPage>, bt: Seq<int>)
    requires
        at.len() == bt.len(),
        forall|k: int| 0 <= k < at.len() ==> a[#[trigger] at[k]] == b[bt[k]],
    ensures
        union_start(a, at) == union_start(b, bt),
        union_end(a, at) == union_end(b, bt),
    decreases at.len(),
{
    if at.len() > 0 {
        let n = at.len() - 1;
        assert(a[at[n]] == b[bt[n]]);
        assert forall|k: int| 0 <= k < n implies a[#[trigger] at.drop_last()[k]]
            == b[bt.drop_last()[k]] by {
            assert(a[at[k]] == b[bt[k]]);
        }
        lemma_same_union(a, at.drop_last(), b, bt.drop_last());
    }
}

proof fn lemma_same_sum(
    a: Seq<GrayPage>,
    at: Seq<int>,
    b: Seq<GrayPage>,
    bt: Seq<int>,
    opts: RenderOptions,
)
    requires
        at.len() == bt.len(),
        forall|k: int|
            0 <= k < at.len() ==> page_crop(a, opts, #[trigger] at[k]) == page_crop(
                b,
                opts,
                bt[k],
            ),
    ensures
        sum_lines(a, opts, at) == sum_lines(b, opts, bt),
    decreases at.len(),
{
    if at.len() > 0 {
        let n = at.len() - 1;
        assert(page_crop(a, opts, at[n]) == page_crop(b, opts, bt[n]));
        assert forall|k: int| 0 <= k < n implies page_crop(a, opts, #[trigger] at.drop_last()[k])
            == page_crop(b, opts, bt.drop_last()[k]) by {
            assert(page_crop(a, opts, at[k]) == page_crop(b, opts, bt[k]));
        }
        lemma_same_sum(a, at.drop_last(), b, bt.drop_last(), opts);
    }
}

/// Blank pages carry nothing: where the layout is fixed and some page has ink, the outcome is the same
/// without them.
pub proof fn lemma_blanks_carry_nothing<F: Fn(&[u8], usize, usize) -> Vec<u8>>(
    pages: Seq<GrayPage>,
    opts: RenderOptions,
    sharpen: F,
    strip: GrayStrip,
)
    requires
        opts.layout != Layout::Auto,
        first_bad(pages) is None,
        inked(pages).len() > 0,
    ensures
        prepare_error(without_blanks(pages), opts) == prepare_error(pages, opts),
        can_prepare(without_blanks(pages), opts) == can_prepare(pages, opts),
        is_strip_of(without_blanks(pages), opts, sharpen, strip) == is_strip_of(
            pages,
            opts,
            sharpen,
            strip,
        ),
{
    let ink = inked(pages);
    let kept = without_blanks(pages);
    let n = ink.len();
    lemma_inked(pages);
    assert forall|k: int| 0 <= k < n implies spec_has_ink(#[trigger] kept[k].data@) by {
        assert(kept[k] == pages[ink[k]]);
    }
    lemma_all_inked(kept);
    lemma_first_bad(pages);
    lemma_first_bad(kept);
    assert forall|k: int| 0 <= k < n implies #[trigger] kept[k].valid() by {
        assert(pages[ink[k]].valid());
    }
    let own = inked(kept);
    assert forall|k: int| 0 <= k < n implies pages[#[trigger] ink[k]] == kept[own[k]] by {}
    lemma_same_union(pages, ink, kept, own);
    assert forall|k: int| 0 <= k < n implies page_crop(pages, opts, #[trigger] ink[k]) == page_crop(
        kept,
        opts,
        own[k],
    ) by {}
    lemma_same_sum(pages, ink, kept, own, opts);
    assert forall|k: int| 0 <= k < n implies page_crop(kept, opts, #[trigger] own[k]) == page_crop(
        pages,
        opts,
        ink[k],
    ) by {
        assert(page_crop(pages, opts, ink[k]) == page_crop(kept, opts, own[k]));
    }
    assert(all_fit(pages, opts) == all_fit(kept, opts));
    assert(gap(pages, opts) == gap(kept, opts));
    assert forall|k: int, out: Seq<u8>| 0 <= k < n implies #[trigger] is_page_part(
        kept,
        opts,
        sharpen,
        own[k],
        out,
    ) == is_page_part(pages, opts, sharpen, ink[k], out) by {
        lemma_same_part(pages, ink[k], kept, own[k], opts, sharpen, out);
    }
    if is_strip_of(pages, opts, sharpen, strip) {
        let parts = choose|parts: Seq<Seq<u8>>|
            {
                &&& parts.len() == ink.len()
                &&& forall|k: int|
                    0 <= k < parts.len() ==> is_page_part(
                        pages,
                        opts,
                        sharpen,
                        ink[k],
                        #[trigger] parts[k],
                    )
                &&& strip.data@ == #[trigger] joined(parts, gap(pages, opts) * opts.width_px)
            };
        assert forall|k: int| 0 <= k < parts.len() implies is_page_part(
            kept,
            opts,
            sharpen,
            own[k],
            #[trigger] parts[k],
        ) by {
            lemma_same_part(pages, ink[k], kept, own[k], opts, sharpen, parts[k]);
        }
        assert(strip.data@ == joined(parts, gap(kept, opts) * opts.width_px));
        assert(is_strip_of(kept, opts, sharpen, strip));
    }
    if is_strip_of(kept, opts, sharpen, strip) {
        let parts = choose|parts: Seq<Seq<u8>>|
            {
                &&& parts.len() == own.len()
                &&& forall|k: int|
                    0 <= k < parts.len() ==> is_page_part(
                        kept,
                        opts,
                        sharpen,
                        own[k],
                        #[trigger] parts[k],
                    )
                &&& strip.data@ == #[trigger] joined(parts, gap(kept, opts) * opts.width_px)
            };
        assert forall|k: int| 0 <= k < parts.len() implies is_page_part(
            pages,
            opts,
            sharpen,
            ink[k],
            #[trigger] parts[k],
        ) by {
            lemma_same_part(pages, ink[k], kept, own[k], opts, sharpen, parts[k]);
        }
        assert(strip.data@ == joined(parts, gap(pages, opts) * opts.width_px));
        assert(is_strip_of(pages, opts, sharpen, strip));
    }
}

/// A kernel that gives one result for one image.
pub open spec fn steady<F: Fn(&[u8], usize, usize) -> Vec<u8>>(kernel: F) -> bool {
    forall|s: &[u8], t: &[u8], w: usize, h: usize, v: Vec<u8>, u: Vec<u8>|
        s@ == t@ && #[trigger] kernel.ensures((s, w, h), v) && #[trigger] kernel.ensures((t, w, h), u)
            ==> v@ == u@
}

/// What is printed of every page with ink fits to the head in one way.
pub open spec fn pages_fit_one_way(pages: Seq<GrayPage>, opts: RenderOptions) -> bool {
    forall|k: int|
        0 <= k < inked(pages).len() ==> {
            let c = page_crop(pages, opts, #[trigger] inked(pages)[k]);
            fits_one_way(
                crop_width(c),
                crop_height(c),
                spec_crop(pages[inked(pages)[k]], c),
                opts.width_px as int,
            )
        }
}

proof fn lemma_one_part<F: Fn(&[u8], usize, usize) -> Vec<u8>>(
    pages: Seq<GrayPage>,
    opts: RenderOptions,
    sharpen: F,
    i: int,
    a: Seq<u8>,
    b: Seq<u8>,
)
    requires
        steady(sharpen),
        is_page_part(pages, opts, sharpen, i, a),
        is_page_part(pages, opts, sharpen, i, b),
        ({
            let c = page_crop(pages, opts, i);
            fits_one_way(
                crop_width(c),
                crop_height(c),
                spec_crop(pages[i], c),
                opts.width_px as int,
            )
        }),
    ensures
        a == b,
{
    let c = page_crop(pages, opts, i);
    let (w, h, d) = (crop_width(c), crop_height(c), spec_crop(pages[i], c));
    let n = page_lines(pages, opts, i) as usize;
    let x = choose|x: Vec<u8>|
        {
            &&& is_fit(w, h, d, opts.width_px as int, #[trigger] x@)
            &&& x@.len() == opts.width_px * page_lines(pages, opts, i)
            &&& if opts.preset == Preset::Text {
                a == x@
            } else {
                exists|sharp: Vec<u8>|
                    a == sharp@ && #[trigger] sharpened_by(sharpen, x, opts.width_px as usize, n, sharp)
            }
        };
    let y = choose|y: Vec<u8>|
        {
            &&& is_fit(w, h, d, opts.width_px as int, #[trigger] y@)
            &&& y@.len() == opts.width_px * page_lines(pages, opts, i)
            &&& if opts.preset == Preset::Text {
                b == y@
            } else {
                exists|sharp: Vec<u8>|
                    b == sharp@ && #[trigger] sharpened_by(sharpen, y, opts.width_px as usize, n, sharp)
            }
        };
    assert(is_fit(w, h, d, opts.width_px as int, x@));
    assert(is_fit(w, h, d, opts.width_px as int, y@));
    assert(x@ == y@);
    if opts.preset != Preset::Text {
        let u = choose|u: Vec<u8>|
            a == u@ && #[trigger] sharpened_by(sharpen, x, opts.width_px as usize, n, u);
        let v = choose|v: Vec<u8>|
            b == v@ && #[trigger] sharpened_by(sharpen, y, opts.width_px as usize, n, v);
        assert(sharpened_by(sharpen, x, opts.width_px as usize, n, u));
        assert(sharpened_by(sharpen, y, opts.width_px as usize, n, v));
        let s = choose|s: &[u8]| #[trigger]
            s@ == x@ && sharpen.ensures((s, opts.width_px as usize, n), u);
        let t = choose|t: &[u8]| #[trigger]
            t@ == y@ && sharpen.ensures((t, opts.width_px as usize, n), v);
        assert(sharpen.ensures((s, opts.width_px as usize, n), u));
        assert(sharpen.ensures((t, opts.width_px as usize, n), v));
    }
}

/// A document becomes one strip, where its pages fit in one way and the kernel gives one result.
pub proof fn lemma_one_strip<F: Fn(&[u8], usize, usize) -> Vec<u8>>(
    pages: Seq<GrayPage>,
    opts: RenderOptions,
    sharpen: F,
    a: GrayStrip,
    b: GrayStrip,
)
    requires
        steady(sharpen),
        pages_fit_one_way(pages, opts),
        is_strip_of(pages, opts, sharpen, a),
        is_strip_of(pages, opts, sharpen, b),
    ensures
        a.width == b.width,
        a.height == b.height,
        a.data@ == b.data@,
        a.pages == b.pages,
        a.layout == b.layout,
{
    let ink = inked(pages);
    if ink.len() > 0 {
        let g = gap(pages, opts) * opts.width_px;
        let x = choose|x: Seq<Seq<u8>>|
            {
                &&& x.len() == ink.len()
                &&& forall|k: int|
                    0 <= k < x.len() ==> is_page_part(pages, opts, sharpen, ink[k], #[trigger] x[k])
                &&& a.data@ == #[trigger] joined(x, g)
            };
        let y = choose|y: Seq<Seq<u8>>|
            {
                &&& y.len() == ink.len()
                &&& forall|k: int|
                    0 <= k < y.len() ==> is_page_part(pages, opts, sharpen, ink[k], #[trigger] y[k])
                &&& b.data@ == #[trigger] joined(y, g)
            };
        assert(a.data@ == joined(x, g));
        assert(b.data@ == joined(y, g));
        assert forall|k: int| 0 <= k < x.len() implies x[k] == y[k] by {
            assert(is_page_part(pages, opts, sharpen, ink[k], x[k]));
            assert(is_page_part(pages, opts, sharpen, ink[k], y[k]));
            lemma_one_part(pages, opts, sharpen, ink[k], x[k], y[k]);
        }
        assert(x =~= y);
    }
}

/// Blank pages carry nothing: with them and without them the same strip comes out, where the pages fit in one
/// way and the kernel gives one result.
pub proof fn lemma_blanks_same_strip<F: Fn(&[u8], usize, usize) -> Vec<u8>>(
    pages: Seq<GrayPage>,
    opts: RenderOptions,
    sharpen: F,
    a: GrayStrip,
    b: GrayStrip,
)
    requires
        opts.layout != Layout::Auto,
        first_bad(pages) is None,
        inked(pages).len() > 0,
        steady(sharpen),
        pages_fit_one_way(pages, opts),
        is_strip_of(pages, opts, sharpen, a),
        is_strip_of(without_blanks(pages), opts, sharpen, b),
    ensures
        a.width == b.width,
        a.height == b.height,
        a.data@ == b.data@,
        a.pages == b.pages,
        a.layout == b.layout,
{
    lemma_blanks_carry_nothing(pages, opts, sharpen, b);
    lemma_one_strip(pages, opts, sharpen, a, b);
}

proof fn lemma_same_part<F: Fn(&[u8], usize, usize) -> Vec<u8>>(
    a: Seq<GrayPage>,
    i: int,
    b: Seq<GrayPage>,
    j: int,
    opts: RenderOptions,
    sharpen: F,
    out: Seq<u8>,
)
    requires
        a[i] == b[j],
        page_crop(a, opts, i) == page_crop(b, opts, j),
    ensures
        is_page_part(a, opts, sharpen, i, out) == is_page_part(b, opts, sharpen, j, out),
{
    assert(page_lines(a, opts, i) == page_lines(b, opts, j));
}

/// Where everything is blank, a short white strip of one page comes out, or it is too long.
pub proof fn lemma_blank_strip<F: Fn(&[u8], usize, usize) -> Vec<u8>>(
    pages: Seq<GrayPage>,
    opts: RenderOptions,
    sharpen: F,
    strip: GrayStrip,
)
    requires
        pages.len() > 0,
        opts.width_px > 0,
        first_bad(pages) is None,
        forall|k: int| 0 <= k < pages.len() ==> !spec_has_ink(#[trigger] pages[k].data@),
    ensures
        prepare_error(pages, opts) is None <==> opts.max_lines_total >= 16,
        is_strip_of(pages, opts, sharpen, strip) ==> strip.height == 16 && strip.pages == 1
            && strip.data@ == white(16 * opts.width_px),
{
    lemma_no_ink(pages);
}

proof fn lemma_no_ink(pages: Seq<GrayPage>)
    requires
        forall|k: int| 0 <= k < pages.len() ==> !spec_has_ink(#[trigger] pages[k].data@),
    ensures
        inked(pages).len() == 0,
    decreases pages.len(),
{
    if pages.len() > 0 {
        assert(!spec_has_ink(pages[pages.len() - 1].data@));
        assert forall|k: int| 0 <= k < pages.len() - 1 implies !spec_has_ink(
            #[trigger] pages.drop_last()[k].data@,
        ) by {
            assert(!spec_has_ink(pages[k].data@));
        }
        lemma_no_ink(pages.drop_last());
    }
}

} // verus!
