//! Binarization and quantization kernels over whole numbers.
//!
//! All buffers are row-major 8-bit gray, 0 = black, 255 = white, `width * height` bytes.

use vstd::prelude::*;

verus! {

// ------------------------------------------------------------------ Atkinson

/// An eighth of an error, cut toward zero.
pub open spec fn eighth(err: int) -> int {
    if err >= 0 {
        err / 8
    } else {
        -((-err) / 8)
    }
}

/// `v` brought into 0..=255.
pub open spec fn clamp255(v: int) -> int {
    if v < 0 {
        0
    } else if v > 255 {
        255
    } else {
        v
    }
}

/// Adds `delta` to the pixel at column `x`, row `y`, where there is one, and clamps it.
pub open spec fn nudge(img: Seq<int>, w: int, h: int, y: int, x: int, delta: int) -> Seq<int> {
    if 0 <= y < h && 0 <= x < w {
        img.update(y * w + x, clamp255(img[y * w + x] + delta))
    } else {
        img
    }
}

/// One step of the Atkinson kernel at column `x`, row `y`: the pixel becomes black or white, and an
/// eighth of the error goes to each of six neighbours.
pub open spec fn atkinson_step(img: Seq<int>, w: int, h: int, y: int, x: int) -> Seq<int> {
    let v = img[y * w + x];
    let new = if v > 127 {
        255int
    } else {
        0int
    };
    let d = eighth(v - new);
    let a = img.update(y * w + x, new);
    let a = nudge(a, w, h, y, x + 1, d);
    let a = nudge(a, w, h, y, x + 2, d);
    let a = nudge(a, w, h, y + 1, x - 1, d);
    let a = nudge(a, w, h, y + 1, x, d);
    let a = nudge(a, w, h, y + 1, x + 1, d);
    nudge(a, w, h, y + 2, x, d)
}

/// The image after the first `n` pixels, taken row by row.
pub open spec fn atkinson_image(gray: Seq<u8>, w: int, h: int, n: nat) -> Seq<int>
    decreases n,
{
    if n == 0 {
        Seq::new(gray.len(), |i: int| gray[i] as int)
    } else {
        atkinson_step(
            atkinson_image(gray, w, h, (n - 1) as nat),
            w,
            h,
            (n - 1) / w,
            (n - 1) % w,
        )
    }
}

/// Which pixels are black: those that stand at 127 or less when their turn comes.
pub open spec fn spec_atkinson(gray: Seq<u8>, w: int, h: int) -> Seq<bool> {
    Seq::new((w * h) as nat, |i: int| atkinson_image(gray, w, h, i as nat)[i] <= 127)
}

/// The numbers of a buffer of small ints.
spec fn ints(v: Seq<i32>) -> Seq<int> {
    Seq::new(v.len(), |i: int| v[i] as int)
}

fn nudge_pixel(img: &mut Vec<i32>, w: usize, h: usize, y: usize, x: usize, delta: i32)
    requires
        old(img)@.len() == w * h,
        forall|i: int| 0 <= i < old(img)@.len() ==> 0 <= #[trigger] old(img)@[i] <= 255,
        -31 <= delta <= 31,
    ensures
        ints(final(img)@) == nudge(
            ints(old(img)@),
            w as int,
            h as int,
            y as int,
            x as int,
            delta as int,
        ),
        final(img)@.len() == w * h,
        forall|i: int| 0 <= i < final(img)@.len() ==> 0 <= #[trigger] final(img)@[i] <= 255,
{
    if y < h && x < w {
        assert(y * w + w <= w * h && 0 <= y * w) by (nonlinear_arith)
            requires
                y + 1 <= h,
        ;
        assert(img@.len() == img.len());
        let i: usize = y * w + x;
        let v: i32 = img[i] + delta;
        let c: i32 = if v < 0 {
            0
        } else if v > 255 {
            255
        } else {
            v
        };
        img.set(i, c);
    }
    assert(ints(img@) =~= nudge(
        ints(old(img)@),
        w as int,
        h as int,
        y as int,
        x as int,
        delta as int,
    ));
}

/// Atkinson dithering: six neighbours get an eighth of the error each, intermediate values clamped
/// to 0..=255. `true` = black.
pub fn atkinson(gray: &[u8], width: usize, height: usize) -> (r: Vec<bool>)
    requires
        gray@.len() == width * height,
    ensures
        r@ == spec_atkinson(gray@, width as int, height as int),
{
    let mut img: Vec<i32> = Vec::new();
    let mut i: usize = 0;
    while i < gray.len()
        invariant
            i <= gray.len(),
            img@.len() == i,
            forall|j: int| 0 <= j < i ==> #[trigger] img@[j] == gray@[j],
        decreases gray.len() - i,
    {
        img.push(gray[i] as i32);
        i += 1;
    }
    let mut out: Vec<bool> = Vec::new();
    let mut y: usize = 0;
    assert(ints(img@) =~= atkinson_image(gray@, width as int, height as int, 0));
    assert(0 * width == 0) by (nonlinear_arith);
    while y < height
        invariant
            y <= height,
            gray@.len() == width * height,
            img@.len() == width * height,
            out@.len() == y * width,
            ints(img@) == atkinson_image(gray@, width as int, height as int, (y * width) as nat),
            forall|j: int| 0 <= j < img@.len() ==> 0 <= #[trigger] img@[j] <= 255,
            forall|j: int|
                0 <= j < out@.len() ==> #[trigger] out@[j] == (atkinson_image(
                    gray@,
                    width as int,
                    height as int,
                    j as nat,
                )[j] <= 127),
        decreases height - y,
    {
        assert(y * width + width <= width * height && 0 <= y * width && (y + 1) * width == y * width
            + width) by (nonlinear_arith)
            requires
                y + 1 <= height,
        ;
        let mut x: usize = 0;
        while x < width
            invariant
                x <= width,
                y < height,
                gray@.len() == width * height,
                img@.len() == width * height,
                0 <= y * width,
                y * width + width <= width * height,
                out@.len() == y * width + x,
                ints(img@) == atkinson_image(
                    gray@,
                    width as int,
                    height as int,
                    (y * width + x) as nat,
                ),
                forall|j: int| 0 <= j < img@.len() ==> 0 <= #[trigger] img@[j] <= 255,
                forall|j: int|
                    0 <= j < out@.len() ==> #[trigger] out@[j] == (atkinson_image(
                        gray@,
                        width as int,
                        height as int,
                        j as nat,
                    )[j] <= 127),
            decreases width - x,
        {
            assert(img@.len() == img.len());
            let i: usize = y * width + x;
            assert((i as int) / (width as int) == y && (i as int) % (width as int) == x)
                by (nonlinear_arith)
                requires
                    i == y * width + x,
                    0 <= x < width,
                    0 <= y,
            ;
            let ghost before = ints(img@);
            let v: i32 = img[i];
            let new_val: i32 = if v > 127 {
                255
            } else {
                0
            };
            let err: i32 = v - new_val;
            let d: i32 = if err >= 0 {
                err / 8
            } else {
                -((-err) / 8)
            };
            img.set(i, new_val);
            assert(ints(img@) =~= before.update(i as int, new_val as int));
            out.push(new_val == 0);
            if x + 1 < width {
                nudge_pixel(&mut img, width, height, y, x + 1, d);
                if x + 2 < width {
                    nudge_pixel(&mut img, width, height, y, x + 2, d);
                }
            }
            if x > 0 {
                nudge_pixel(&mut img, width, height, y + 1, x - 1, d);
            }
            nudge_pixel(&mut img, width, height, y + 1, x, d);
            if x + 1 < width {
                nudge_pixel(&mut img, width, height, y + 1, x + 1, d);
            }
            if y + 1 < height {
                nudge_pixel(&mut img, width, height, y + 2, x, d);
            }
            assert(ints(img@) == atkinson_step(
                before,
                width as int,
                height as int,
                y as int,
                x as int,
            ));
            x += 1;
        }
        y += 1;
    }
    assert(height * width == width * height) by (nonlinear_arith);
    assert(out@ == spec_atkinson(gray@, width as int, height as int));
    out
}

// ------------------------------------------------------------------ thresholds

/// Black where the gray is below `t`.
pub open spec fn spec_threshold(gray: Seq<u8>, t: u8) -> Seq<bool> {
    Seq::new(gray.len(), |i: int| gray[i] < t)
}

/// Fixed threshold: gray < `t` is black.
pub fn threshold(gray: &[u8], t: u8) -> (r: Vec<bool>)
    ensures
        r@ == spec_threshold(gray@, t),
{
    let mut r: Vec<bool> = Vec::new();
    let mut i: usize = 0;
    while i < gray.len()
        invariant
            i <= gray.len(),
            r@ == spec_threshold(gray@.take(i as int), t),
        decreases gray.len() - i,
    {
        r.push(gray[i] < t);
        i += 1;
        assert(r@ =~= spec_threshold(gray@.take(i as int), t));
    }
    assert(gray@.take(gray@.len() as int) == gray@);
    r
}

/// The sum of the grays.
pub open spec fn gray_sum(gray: Seq<u8>) -> nat
    decreases gray.len(),
{
    if gray.len() == 0 {
        0
    } else {
        gray_sum(gray.drop_last()) + gray.last() as nat
    }
}

/// Black where the gray is below the mean: `gray * count < sum`.
pub open spec fn spec_mean_threshold(gray: Seq<u8>) -> Seq<bool> {
    Seq::new(gray.len(), |i: int| gray[i] * gray.len() < gray_sum(gray))
}

/// gray < mean is black.
pub fn mean_threshold(gray: &[u8]) -> (r: Vec<bool>)
    ensures
        r@ == spec_mean_threshold(gray@),
{
    let n: u128 = gray.len() as u128;
    let mut sum: u128 = 0;
    let mut i: usize = 0;
    while i < gray.len()
        invariant
            i <= gray.len(),
            sum == gray_sum(gray@.take(i as int)),
            sum <= 255 * i,
        decreases gray.len() - i,
    {
        assert(gray@.take(i as int + 1).drop_last() == gray@.take(i as int));
        sum = sum + gray[i] as u128;
        i += 1;
    }
    assert(gray@.take(gray@.len() as int) == gray@);
    let mut r: Vec<bool> = Vec::new();
    let mut j: usize = 0;
    while j < gray.len()
        invariant
            j <= gray.len(),
            n == gray@.len(),
            sum == gray_sum(gray@),
            r@.len() == j,
            forall|k: int|
                0 <= k < j ==> #[trigger] r@[k] == (gray@[k] * gray@.len() < gray_sum(gray@)),
        decreases gray.len() - j,
    {
        let g: u128 = gray[j] as u128;
        assert(g * n <= 255 * n) by (nonlinear_arith)
            requires
                g <= 255,
        ;
        r.push(g * n < sum);
        j += 1;
    }
    assert(r@ == spec_mean_threshold(gray@));
    r
}

// ------------------------------------------------------------------ quantization

/// Sixteen equal bins, 0 = white to 15 = black.
pub open spec fn spec_quantize_16(gray: Seq<u8>) -> Seq<u8> {
    Seq::new(gray.len(), |i: int| ((255 - gray[i]) / 16) as u8)
}

/// Straight 16-bin quantization, 0 = white to 15 = black.
pub fn quantize_16(gray: &[u8]) -> (r: Vec<u8>)
    ensures
        r@ == spec_quantize_16(gray@),
        forall|i: int| 0 <= i < r@.len() ==> #[trigger] r@[i] <= 15,
{
    let mut r: Vec<u8> = Vec::new();
    let mut i: usize = 0;
    while i < gray.len()
        invariant
            i <= gray.len(),
            r@ == spec_quantize_16(gray@.take(i as int)),
        decreases gray.len() - i,
    {
        r.push((255 - gray[i]) / 16);
        i += 1;
        assert(r@ =~= spec_quantize_16(gray@.take(i as int)));
    }
    assert(gray@.take(gray@.len() as int) == gray@);
    r
}

} // verus!
