//! What dithering does with the grays of an image.

use vstd::prelude::*;

use crate::render::dither::{
    atkinson_image, atkinson_step, gray_sum, nudge, spec_atkinson, spec_mean_threshold, spec_quantize_16,
};
use crate::render::packing::{bit_levels, is_binarized, level_grays};
use crate::render::Dither;

verus! {

// ------------------------------------------------------------------ error diffusion

/// The pixel at row `y`, column `x` comes before the one at row `v`, column `u`.
spec fn earlier(y: int, x: int, v: int, u: int) -> bool {
    y < v || y == v && x < u
}

/// The eighth of the error that is left of a value when its pixel became black (up to 127) or white.
pub open spec fn share(value: int) -> int {
    if value <= 127 {
        value / 8
    } else {
        -((255 - value) / 8)
    }
}

/// `value` with the share of another pixel, kept between black and white.
pub open spec fn with_share(value: int, from: int) -> int {
    if value + share(from) < 0 {
        0
    } else if value + share(from) > 255 {
        255
    } else {
        value + share(from)
    }
}

/// `value` with the share of the pixel at row `y`, column `x` of an image `w` wide, where there is one.
pub open spec fn with_share_of(value: int, v: Seq<int>, w: int, y: int, x: int) -> int {
    if 0 <= y && 0 <= x < w {
        with_share(value, v[y * w + x])
    } else {
        value
    }
}

/// `v` holds what each pixel stands at when its turn comes: its own gray, with the shares of the pixel two rows
/// above, of the three above it, and of the two to its left.
pub open spec fn is_diffusion(gray: Seq<u8>, w: int, h: int, v: Seq<int>) -> bool {
    &&& v.len() == w * h
    &&& forall|y: int, x: int|
        0 <= y < h && 0 <= x < w ==> #[trigger] v[y * w + x] == {
            let a = with_share_of(gray[y * w + x] as int, v, w, y - 2, x);
            let a = with_share_of(a, v, w, y - 1, x - 1);
            let a = with_share_of(a, v, w, y - 1, x);
            let a = with_share_of(a, v, w, y - 1, x + 1);
            let a = with_share_of(a, v, w, y, x - 2);
            with_share_of(a, v, w, y, x - 1)
        }
}

/// What the pixels stand at when their turn comes.
spec fn turns(gray: Seq<u8>, w: int, h: int) -> Seq<int> {
    Seq::new((w * h) as nat, |i: int| atkinson_image(gray, w, h, i as nat)[i])
}

/// `value` with the share of a pixel, where there is one and it comes before row `ny`, column `nx`.
spec fn share_before(value: int, v: Seq<int>, w: int, y: int, x: int, ny: int, nx: int) -> int {
    if earlier(y, x, ny, nx) {
        with_share_of(value, v, w, y, x)
    } else {
        value
    }
}

/// What the pixel at row `y`, column `x` stands at when the turn of row `ny`, column `nx` comes.
spec fn stands_at(gray: Seq<u8>, v: Seq<int>, w: int, y: int, x: int, ny: int, nx: int) -> int {
    let a = share_before(gray[y * w + x] as int, v, w, y - 2, x, ny, nx);
    let a = share_before(a, v, w, y - 1, x - 1, ny, nx);
    let a = share_before(a, v, w, y - 1, x, ny, nx);
    let a = share_before(a, v, w, y - 1, x + 1, ny, nx);
    let a = share_before(a, v, w, y, x - 2, ny, nx);
    share_before(a, v, w, y, x - 1, ny, nx)
}

proof fn lemma_place(w: int, y: int, x: int, v: int, u: int)
    requires
        0 <= x < w,
        0 <= u < w,
    ensures
        y * w + x == v * w + u <==> y == v && x == u,
        y * w + x < v * w + u <==> earlier(y, x, v, u),
{
    if y < v {
        assert(y * w + w <= v * w) by (nonlinear_arith)
            requires
                y + 1 <= v,
                w > 0,
        ;
    } else if y > v {
        assert(v * w + w <= y * w) by (nonlinear_arith)
            requires
                v + 1 <= y,
                w > 0,
        ;
    }
}

proof fn lemma_inside(w: int, h: int, y: int, x: int)
    requires
        0 <= x < w,
        0 <= y < h,
    ensures
        0 <= y * w + x < w * h,
        (y * w + x) / w == y,
        (y * w + x) % w == x,
{
    assert(0 <= y * w + x < w * h && (y * w + x) / w == y && (y * w + x) % w == x) by (nonlinear_arith)
        requires
            0 <= x < w,
            0 <= y < h,
    ;
}

/// One nudge changes one pixel.
proof fn lemma_nudge(img: Seq<int>, w: int, h: int, ty: int, tx: int, d: int, y: int, x: int)
    requires
        img.len() == w * h,
        0 <= y < h,
        0 <= x < w,
    ensures
        nudge(img, w, h, ty, tx, d).len() == img.len(),
        nudge(img, w, h, ty, tx, d)[y * w + x] == if ty == y && tx == x {
            if img[y * w + x] + d < 0 {
                0
            } else if img[y * w + x] + d > 255 {
                255
            } else {
                img[y * w + x] + d
            }
        } else {
            img[y * w + x]
        },
{
    lemma_inside(w, h, y, x);
    if 0 <= ty < h && 0 <= tx < w {
        lemma_inside(w, h, ty, tx);
        lemma_place(w, ty, tx, y, x);
    }
}

/// One step hands its share to the six neighbours, and leaves the other later pixels alone.
proof fn lemma_step(img: Seq<int>, w: int, h: int, ny: int, nx: int, y: int, x: int)
    requires
        img.len() == w * h,
        0 <= ny < h,
        0 <= nx < w,
        0 <= y < h,
        0 <= x < w,
        earlier(ny, nx, y, x),
        0 <= img[ny * w + nx] <= 255,
    ensures
        atkinson_step(img, w, h, ny, nx).len() == img.len(),
        atkinson_step(img, w, h, ny, nx)[y * w + x] == if (y == ny && (x == nx + 1 || x == nx + 2)) || (y
            == ny + 1 && (x == nx - 1 || x == nx || x == nx + 1)) || (y == ny + 2 && x == nx) {
            with_share(img[y * w + x], img[ny * w + nx])
        } else {
            img[y * w + x]
        },
{
    let v = img[ny * w + nx];
    let d = share(v);
    lemma_inside(w, h, ny, nx);
    lemma_inside(w, h, y, x);
    lemma_place(w, ny, nx, y, x);
    let new = if v > 127 {
        255int
    } else {
        0int
    };
    assert(crate::render::dither::eighth(v - new) == d);
    let a0 = img.update(ny * w + nx, new);
    let a1 = nudge(a0, w, h, ny, nx + 1, d);
    let a2 = nudge(a1, w, h, ny, nx + 2, d);
    let a3 = nudge(a2, w, h, ny + 1, nx - 1, d);
    let a4 = nudge(a3, w, h, ny + 1, nx, d);
    let a5 = nudge(a4, w, h, ny + 1, nx + 1, d);
    lemma_nudge(a0, w, h, ny, nx + 1, d, y, x);
    lemma_nudge(a1, w, h, ny, nx + 2, d, y, x);
    lemma_nudge(a2, w, h, ny + 1, nx - 1, d, y, x);
    lemma_nudge(a3, w, h, ny + 1, nx, d, y, x);
    lemma_nudge(a4, w, h, ny + 1, nx + 1, d, y, x);
    lemma_nudge(a5, w, h, ny + 2, nx, d, y, x);
}

proof fn lemma_image_range(gray: Seq<u8>, w: int, h: int, n: nat, y: int, x: int)
    requires
        gray.len() == w * h,
        0 < w,
        n <= w * h,
        0 <= y < h,
        0 <= x < w,
        n <= y * w + x,
    ensures
        atkinson_image(gray, w, h, n).len() == w * h,
        0 <= atkinson_image(gray, w, h, n)[y * w + x] <= 255,
    decreases n,
{
    lemma_inside(w, h, y, x);
    if n > 0 {
        let m = n - 1;
        let (ny, nx) = (m / w, m % w);
        assert(m == ny * w + nx && 0 <= nx < w && 0 <= ny < h) by (nonlinear_arith)
            requires
                ny == m / w,
                nx == m % w,
                0 <= m < w * h,
                0 < w,
        ;
        lemma_image_range(gray, w, h, m as nat, y, x);
        lemma_image_range(gray, w, h, m as nat, ny, nx);
        lemma_place(w, ny, nx, y, x);
        lemma_step(atkinson_image(gray, w, h, m as nat), w, h, ny, nx, y, x);
    }
}

/// A pixel whose turn is not over stands at its gray with the shares that came so far.
proof fn lemma_stands(gray: Seq<u8>, w: int, h: int, ny: int, nx: int, y: int, x: int)
    requires
        gray.len() == w * h,
        0 <= ny < h,
        0 <= nx < w,
        0 <= y < h,
        0 <= x < w,
        ny == y && nx == x || earlier(ny, nx, y, x),
    ensures
        atkinson_image(gray, w, h, (ny * w + nx) as nat)[y * w + x] == stands_at(
            gray,
            turns(gray, w, h),
            w,
            y,
            x,
            ny,
            nx,
        ),
    decreases ny * w + nx,
{
    lemma_inside(w, h, ny, nx);
    lemma_inside(w, h, y, x);
    let v = turns(gray, w, h);
    let n = ny * w + nx;
    if n == 0 {
        assert(ny == 0 && nx == 0) by {
            lemma_place(w, ny, nx, 0, 0);
            assert(0 * w == 0) by (nonlinear_arith);
        }
    } else {
        let (py, px) = if nx > 0 {
            (ny, nx - 1)
        } else {
            (ny - 1, w - 1)
        };
        assert(py * w + px == n - 1) by (nonlinear_arith)
            requires
                n == ny * w + nx,
                nx > 0 && py == ny && px == nx - 1 || nx == 0 && py == ny - 1 && px == w - 1,
        ;
        assert(ny > 0 || nx > 0) by {
            if ny == 0 && nx == 0 {
                assert(0 * w == 0) by (nonlinear_arith);
            }
        }
        lemma_inside(w, h, py, px);
        lemma_stands(gray, w, h, py, px, y, x);
        lemma_stands(gray, w, h, py, px, py, px);
        lemma_place(w, py, px, y, x);
        lemma_image_range(gray, w, h, (n - 1) as nat, py, px);
        let img = atkinson_image(gray, w, h, (n - 1) as nat);
        lemma_step(img, w, h, py, px, y, x);
        assert(v[n - 1] == img[n - 1]);
        assert((n - 1) / w == py && (n - 1) % w == px);
        assert(atkinson_image(gray, w, h, n as nat) == atkinson_step(img, w, h, py, px));
        assert forall|sy: int, sx: int| 0 <= sx < w implies #[trigger] earlier(sy, sx, ny, nx) == (earlier(
            sy,
            sx,
            py,
            px,
        ) || sy == py && sx == px) by {}
    }
}

/// Atkinson's dither hands on its errors: a pixel is black where it stands at 127 or less when its turn comes,
/// and it stands at its gray with an eighth of the error of each of its six earlier neighbours.
pub proof fn lemma_errors_are_handed_on(gray: Seq<u8>, w: int, h: int)
    requires
        gray.len() == w * h,
        0 < w,
        0 <= h,
    ensures
        exists|v: Seq<int>| #[trigger]
            is_diffusion(gray, w, h, v) && spec_atkinson(gray, w, h).len() == v.len() && forall|i: int|
                0 <= i < v.len() ==> #[trigger] spec_atkinson(gray, w, h)[i] == (v[i] <= 127),
{
    let v = turns(gray, w, h);
    assert(w * h >= 0) by (nonlinear_arith)
        requires
            w > 0,
            h >= 0,
    ;
    assert forall|y: int, x: int| 0 <= y < h && 0 <= x < w implies #[trigger] v[y * w + x] == {
        let a = with_share_of(gray[y * w + x] as int, v, w, y - 2, x);
        let a = with_share_of(a, v, w, y - 1, x - 1);
        let a = with_share_of(a, v, w, y - 1, x);
        let a = with_share_of(a, v, w, y - 1, x + 1);
        let a = with_share_of(a, v, w, y, x - 2);
        with_share_of(a, v, w, y, x - 1)
    } by {
        lemma_inside(w, h, y, x);
        lemma_stands(gray, w, h, y, x, y, x);
    }
    assert(is_diffusion(gray, w, h, v));
}

proof fn lemma_first_row(gray: Seq<u8>, w: int, h: int, v: Seq<int>, y: int, x: int)
    requires
        is_diffusion(gray, w, h, v),
        y == 0,
        0 <= x < w,
        1 <= h,
    ensures
        v[x] == {
            let a = if x >= 2 {
                with_share(gray[x] as int, v[x - 2])
            } else {
                gray[x] as int
            };
            if x >= 1 {
                with_share(a, v[x - 1])
            } else {
                a
            }
        },
{
    assert(y * w == 0) by (nonlinear_arith)
        requires
            y == 0,
    ;
    let at = v[y * w + x];
    assert(at == v[x]);
}

/// A flat mid gray comes out as a mix of dots: in the first four pixels of its first row there are black and
/// white ones.
pub proof fn lemma_flat_gray_is_mixed(gray: Seq<u8>, w: int, h: int, g: u8)
    requires
        gray.len() == w * h,
        4 <= w,
        1 <= h,
        forall|i: int| 0 <= i < gray.len() ==> #[trigger] gray[i] == g,
        100 <= g <= 155,
    ensures
        exists|i: int| 0 <= i < 4 && #[trigger] spec_atkinson(gray, w, h)[i],
        exists|i: int| 0 <= i < 4 && !#[trigger] spec_atkinson(gray, w, h)[i],
{
    lemma_errors_are_handed_on(gray, w, h);
    let s = spec_atkinson(gray, w, h);
    let v = choose|v: Seq<int>| #[trigger]
        is_diffusion(gray, w, h, v) && s.len() == v.len() && forall|i: int|
            0 <= i < v.len() ==> #[trigger] s[i] == (v[i] <= 127);
    assert(is_diffusion(gray, w, h, v));
    assert(w * h >= w) by (nonlinear_arith)
        requires
            w > 0,
            h >= 1,
    ;
    lemma_first_row(gray, w, h, v, 0, 0);
    lemma_first_row(gray, w, h, v, 0, 1);
    lemma_first_row(gray, w, h, v, 0, 2);
    lemma_first_row(gray, w, h, v, 0, 3);
    assert(s[0] == (v[0] <= 127) && s[1] == (v[1] <= 127) && s[2] == (v[2] <= 127) && s[3] == (v[3]
        <= 127));
}

// ------------------------------------------------------------------ thresholds

/// The threshold methods look at each pixel alone: below 180 it is black, below 128 without a method. What is
/// at least as dark as something black is black.
pub proof fn lemma_thresholds<F: Fn(&[u8], usize, usize) -> Vec<bool>>(
    gray: Seq<u8>,
    w: usize,
    h: usize,
    floyd_steinberg: F,
    out: Seq<bool>,
    i: int,
)
    requires
        0 <= i < gray.len(),
    ensures
        is_binarized(gray, w, h, Dither::Threshold, floyd_steinberg, out) ==> out.len() == gray.len()
            && out[i] == (gray[i] < 180),
        is_binarized(gray, w, h, Dither::Plain, floyd_steinberg, out) ==> out.len() == gray.len()
            && out[i] == (gray[i] < 128),
{
}

/// Error diffusion is left to the kernel.
pub proof fn lemma_kernel_decides<F: Fn(&[u8], usize, usize) -> Vec<bool>>(
    gray: &[u8],
    w: usize,
    h: usize,
    floyd_steinberg: F,
    v: Vec<bool>,
)
    requires
        floyd_steinberg.ensures((gray, w, h), v),
    ensures
        is_binarized(gray@, w, h, Dither::FloydSteinberg, floyd_steinberg, v@),
{
}

proof fn lemma_sum_bounds(gray: Seq<u8>, lo: int, hi: int)
    requires
        forall|i: int| 0 <= i < gray.len() ==> lo <= #[trigger] gray[i] <= hi,
    ensures
        lo * gray.len() <= gray_sum(gray) <= hi * gray.len(),
        (exists|i: int| 0 <= i < gray.len() && #[trigger] gray[i] > lo) ==> lo * gray.len() < gray_sum(gray),
    decreases gray.len(),
{
    let n = gray.len() as int;
    if n > 0 {
        let rest = gray.drop_last();
        assert forall|i: int| 0 <= i < rest.len() implies lo <= #[trigger] rest[i] <= hi by {
            assert(lo <= gray[i] <= hi);
        }
        lemma_sum_bounds(rest, lo, hi);
        assert(lo <= gray[n - 1] <= hi);
        assert(lo * n == lo * (n - 1) + lo && hi * n == hi * (n - 1) + hi) by (nonlinear_arith);
        if exists|i: int| 0 <= i < gray.len() && #[trigger] gray[i] > lo {
            let i = choose|i: int| 0 <= i < gray.len() && #[trigger] gray[i] > lo;
            if i < n - 1 {
                assert(rest[i] > lo);
            }
        }
    } else {
        assert(lo * 0 == 0 && hi * 0 == 0) by (nonlinear_arith);
    }
}

/// Against the mean, the lightest pixel of an image is white, the darkest is black unless all are alike, and
/// what is at least as dark as something black is black.
pub proof fn lemma_mean(gray: Seq<u8>, i: int)
    requires
        0 <= i < gray.len(),
    ensures
        spec_mean_threshold(gray).len() == gray.len(),
        (forall|j: int| 0 <= j < gray.len() ==> #[trigger] gray[j] <= gray[i])
            ==> !spec_mean_threshold(gray)[i],
        (forall|j: int| 0 <= j < gray.len() ==> gray[i] <= #[trigger] gray[j]) && (exists|j: int|
            0 <= j < gray.len() && #[trigger] gray[j] > gray[i]) ==> spec_mean_threshold(gray)[i],
        forall|j: int|
            0 <= j < gray.len() && #[trigger] gray[j] <= gray[i] && spec_mean_threshold(gray)[i]
                ==> spec_mean_threshold(gray)[j],
        spec_mean_threshold(gray)[i] <==> gray[i] * gray.len() < gray_sum(gray),
{
    let g = gray[i] as int;
    if forall|j: int| 0 <= j < gray.len() ==> #[trigger] gray[j] <= gray[i] {
        lemma_sum_bounds(gray, 0, g);
    }
    if forall|j: int| 0 <= j < gray.len() ==> gray[i] <= #[trigger] gray[j] {
        lemma_sum_bounds(gray, g, 255);
    }
    assert forall|j: int|
        0 <= j < gray.len() && #[trigger] gray[j] <= gray[i] && spec_mean_threshold(gray)[i] implies
        spec_mean_threshold(gray)[j] by {
        let n = gray.len() as int;
        let h = gray[j] as int;
        assert(h * n <= g * n) by (nonlinear_arith)
            requires
                h <= g,
                n >= 0,
        ;
    }
}

/// The sum of the grays, two parts put together.
pub proof fn lemma_sum_adds(a: Seq<u8>, b: Seq<u8>)
    ensures
        gray_sum(a + b) == gray_sum(a) + gray_sum(b),
        forall|g: u8| #[trigger] gray_sum(seq![g]) == g,
    decreases b.len(),
{
    assert forall|g: u8| #[trigger] gray_sum(seq![g]) == g by {
        let s = seq![g];
        assert(s.drop_last() =~= Seq::<u8>::empty());
        assert(gray_sum(s.drop_last()) == 0);
        assert(s.last() == g);
    }
    if b.len() == 0 {
        assert(a + b =~= a);
    } else {
        assert((a + b).drop_last() =~= a + b.drop_last());
        assert((a + b).last() == b.last());
        lemma_sum_adds(a, b.drop_last());
    }
}

// ------------------------------------------------------------------ levels

/// Sixteen levels split the grays evenly, from 0 for white to 15 for black, and a darker gray never gets a
/// lower level.
pub proof fn lemma_levels_split_grays(gray: Seq<u8>, i: int)
    requires
        0 <= i < gray.len(),
    ensures
        spec_quantize_16(gray).len() == gray.len(),
        0 <= spec_quantize_16(gray)[i] <= 15,
        16 * spec_quantize_16(gray)[i] <= 255 - gray[i] < 16 * spec_quantize_16(gray)[i] + 16,
{
}

/// A black pixel burns fully and a white one not at all; on paper the first is black and the second white.
pub proof fn lemma_dots_burn(bits: Seq<bool>, i: int)
    requires
        0 <= i < bits.len(),
    ensures
        bit_levels(bits).len() == bits.len(),
        level_grays(bit_levels(bits)).len() == bits.len(),
        bits[i] ==> bit_levels(bits)[i] == 15 && level_grays(bit_levels(bits))[i] == 0,
        !bits[i] ==> bit_levels(bits)[i] == 0 && level_grays(bit_levels(bits))[i] == 255,
{
}

/// The preview shows a level as a gray that is that level again, in even steps from white to black.
pub proof fn lemma_preview_shows_levels(levels: Seq<u8>, i: int)
    requires
        0 <= i < levels.len(),
        levels[i] <= 15,
    ensures
        level_grays(levels).len() == levels.len(),
        level_grays(levels)[i] + 17 * levels[i] == 255,
        spec_quantize_16(level_grays(levels))[i] == levels[i],
{
}

} // verus!
