//! How images become gray pages.

use vstd::prelude::*;

use crate::raster::GrayPage;
use crate::render::imagein::{is_loaded, is_page_of, over_white, pixel_gray};
use crate::render::RenderError;

verus! {

/// What is opaque keeps its color, what is transparent is white, and what is between lies between, lighter the
/// less it covers.
pub proof fn lemma_on_white(c: u8, a: u8, more: u8)
    requires
        a <= more,
    ensures
        over_white(c, 255) == c,
        over_white(c, 0) == 255,
        over_white(255, a) == 255,
        c <= over_white(c, more) <= over_white(c, a) <= 255,
{
    assert(c * a + 255 * (255 - a) >= c * more + 255 * (255 - more) && c * more + 255 * (255 - more) >= 255 * c && c
        * a + 255 * (255 - a) <= 255 * 255 && c * more >= 0 && c * a >= 0 && c * 255 + 255 * (255 - 255) == 255 * c
        && 255 * a + 255 * (255 - a) == 255 * 255 && c * 0 + 255 * (255 - 0) == 255 * 255) by (nonlinear_arith)
        requires
            0 <= c <= 255,
            0 <= a <= more <= 255,
    ;
}

/// A pixel without color that covers its place is as light as it is; one that covers nothing is white.
pub proof fn lemma_pixels_of_images(rgba: Seq<u8>, i: int, v: u8)
    ensures
        rgba[4 * i] == v && rgba[4 * i + 1] == v && rgba[4 * i + 2] == v && rgba[4 * i + 3] == 255 ==> pixel_gray(
            rgba,
            i,
        ) == v,
        rgba[4 * i + 3] == 0 ==> pixel_gray(rgba, i) == 255,
{
    lemma_on_white(v, 0, 255);
    lemma_on_white(rgba[4 * i], 0, 255);
    lemma_on_white(rgba[4 * i + 1], 0, 255);
    lemma_on_white(rgba[4 * i + 2], 0, 255);
}

/// A gray image that covers its place becomes the page with its pixels, each at its place; one without pixels is
/// refused, as is one that cannot be decoded.
pub proof fn lemma_pages_of_images(
    r: Result<GrayPage, RenderError>,
    w: u32,
    h: u32,
    rgba: Seq<u8>,
    x: int,
    y: int,
    v: u8,
)
    requires
        is_page_of(r, Ok((w, h, rgba))),
        0 <= x < w,
        0 <= y < h,
        rgba[4 * (y * w + x)] == v && rgba[4 * (y * w + x) + 1] == v && rgba[4 * (y * w + x) + 2] == v && rgba[4 * (y
            * w + x) + 3] == 255,
    ensures
        r is Ok,
        (r->Ok_0).width == w,
        (r->Ok_0).height == h,
        (r->Ok_0).data@[y * w + x] == v,
{
    lemma_pixels_of_images(rgba, y * w + x, v);
    assert(0 <= y * w + x < w * h) by (nonlinear_arith)
        requires
            0 <= x < w,
            0 <= y < h,
    ;
}

/// An image that is loaded has pixels, and is refused where it has none or cannot be decoded.
pub proof fn lemma_loaded_images(r: Result<GrayPage, RenderError>, bytes: Seq<u8>)
    requires
        is_loaded(r, bytes),
    ensures
        r matches Ok(p) ==> p.width > 0 && p.height > 0,
        r is Err ==> r->Err_0 is Image,
{
}

} // verus!
