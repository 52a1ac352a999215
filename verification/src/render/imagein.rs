//! Image documents: PNG and JPEG files to gray pages, with their brightness by Rec. 709, transparency
//! laid on white, and turned as their orientation says.

use vstd::prelude::*;

use crate::raster::pages::{luma, luma_of};
use crate::raster::GrayPage;
use crate::render::{RenderError, RenderErrorView};
use crate::text::owned;

verus! {

/// The bytes begin with the PNG or the JPEG magic.
pub open spec fn spec_is_image(b: Seq<u8>) -> bool {
    ||| b.len() >= 4 && b[0] == 0x89 && b[1] == 0x50 && b[2] == 0x4E && b[3] == 0x47
    ||| b.len() >= 3 && b[0] == 0xFF && b[1] == 0xD8 && b[2] == 0xFF
}

/// Whether the bytes begin with the PNG or the JPEG magic.
pub fn is_image(b: &[u8]) -> (r: bool)
    ensures
        r == spec_is_image(b@),
{
    (b.len() >= 4 && b[0] == 0x89 && b[1] == 0x50 && b[2] == 0x4E && b[3] == 0x47) || (b.len() >= 3
        && b[0] == 0xFF && b[1] == 0xD8 && b[2] == 0xFF)
}

/// No document is both an image and a raster stream.
pub proof fn lemma_formats_disjoint(b: Seq<u8>)
    ensures
        !(spec_is_image(b) && crate::raster::spec_sync(b) is Some),
{
}

/// The resolution that an image is taken to have.
pub const IMAGE_DPI: u32 = 203;

/// What came of decoding an image: its size and four bytes for every pixel, or what is wrong with it.
pub open spec fn decoded_view(r: Result<(u32, u32, Vec<u8>), String>) -> Result<
    (u32, u32, Seq<u8>),
    Seq<char>,
> {
    match r {
        Ok((w, h, d)) => Ok((w, h, d@)),
        Err(e) => Err(e@),
    }
}

/// Decoding `bytes` can give `r`. (Decoders may differ in the last bit of a pixel from one machine to
/// another, so there may be more than one.)
pub uninterp spec fn can_decode_to(
    bytes: Seq<u8>,
    r: Result<(u32, u32, Seq<u8>), Seq<char>>,
) -> bool;

/// `image::ImageReader`, its decoder's `orientation`, `image::DynamicImage::from_decoder`,
/// `apply_orientation` and `into_rgba8`: what decoding these bytes can give, with at least four bytes for
/// every pixel.
#[verifier::external_body]
fn decode_rgba(bytes: &[u8]) -> (r: Result<(u32, u32, Vec<u8>), String>)
    ensures
        can_decode_to(bytes@, decoded_view(r)),
        r matches Ok((w, h, d)) ==> d@.len() >= 4 * (w * h),
{
    let reader = image::ImageReader::new(std::io::Cursor::new(bytes));
    let guessed = reader.with_guessed_format().map_err(|e| e.to_string())?;
    let mut decoder = guessed.into_decoder().map_err(|e| e.to_string())?;
    let turn = image::ImageDecoder::orientation(&mut decoder).map_err(|e| e.to_string())?;
    let mut img = image::DynamicImage::from_decoder(decoder).map_err(|e| e.to_string())?;
    img.apply_orientation(turn);
    let rgba = img.into_rgba8();
    Ok((rgba.width(), rgba.height(), rgba.into_raw()))
}

/// A color value over white, to the nearest whole number.
pub open spec fn over_white(c: u8, a: u8) -> u8 {
    ((c * a + 255 * (255 - a) + 127) / 255) as u8
}

fn lay_on_white(c: u8, a: u8) -> (r: u8)
    ensures
        r == over_white(c, a),
{
    assert(c * a <= 255 * a && c * a >= 0) by (nonlinear_arith)
        requires
            0 <= c <= 255,
            0 <= a,
    ;
    let n: u32 = c as u32 * a as u32 + 255 * (255 - a as u32) + 127;
    (n / 255) as u8
}

/// The gray of a pixel.
pub open spec fn pixel_gray(rgba: Seq<u8>, i: int) -> u8 {
    let a = rgba[4 * i + 3];
    luma(over_white(rgba[4 * i], a), over_white(rgba[4 * i + 1], a), over_white(rgba[4 * i + 2], a))
}

/// An image as a gray page.
pub fn gray_page(width: u32, height: u32, rgba: &[u8]) -> (r: GrayPage)
    requires
        rgba@.len() >= 4 * (width * height),
    ensures
        r.width == width,
        r.height == height,
        r.dpi == IMAGE_DPI,
        r.data@ == Seq::new((width * height) as nat, |i: int| pixel_gray(rgba@, i)),
{
    assert(0 <= width * height <= 0xffff_ffff * 0xffff_ffff) by (nonlinear_arith)
        requires
            0 <= width <= 0xffff_ffff,
            0 <= height <= 0xffff_ffff,
    ;
    let n: u64 = width as u64 * height as u64;
    assert(rgba@.len() == rgba.len());
    let mut data: Vec<u8> = Vec::new();
    let mut i: usize = 0;
    while (i as u64) < n
        invariant
            i <= n,
            n == width * height,
            4 * n <= rgba.len(),
            rgba@.len() == rgba.len(),
            data@.len() == i,
            forall|k: int| 0 <= k < i ==> #[trigger] data@[k] == pixel_gray(rgba@, k),
        decreases n - i,
    {
        let a: u8 = rgba[4 * i + 3];
        data.push(
            luma_of(
                lay_on_white(rgba[4 * i], a),
                lay_on_white(rgba[4 * i + 1], a),
                lay_on_white(rgba[4 * i + 2], a),
            ),
        );
        i += 1;
    }
    assert(data@ =~= Seq::new((width * height) as nat, |i: int| pixel_gray(rgba@, i)));
    GrayPage { width, height, dpi: IMAGE_DPI, data }
}

/// `r` is what comes of a decoded image: its gray page. An image that could not be decoded, or has no
/// pixels, is refused.
pub open spec fn is_page_of(
    r: Result<GrayPage, RenderError>,
    d: Result<(u32, u32, Seq<u8>), Seq<char>>,
) -> bool {
    match d {
        Ok((w, h, rgba)) => if w == 0 || h == 0 {
            r matches Err(e) && e@ == RenderErrorView::Image("empty image"@)
        } else {
            &&& r matches Ok(p)
            &&& p.width == w
            &&& p.height == h
            &&& p.dpi == IMAGE_DPI
            &&& p.data@ == Seq::new((w * h) as nat, |i: int| pixel_gray(rgba, i))
        },
        Err(t) => r matches Err(e) && e@ == RenderErrorView::Image(t),
    }
}

/// What comes of a decoded image: its gray page, or an error.
pub fn page_of(d: Result<(u32, u32, Vec<u8>), String>) -> (r: Result<GrayPage, RenderError>)
    requires
        d matches Ok((w, h, rgba)) ==> rgba@.len() >= 4 * (w * h),
    ensures
        is_page_of(r, decoded_view(d)),
{
    match d {
        Ok((w, h, rgba)) => {
            if w == 0 || h == 0 {
                return Err(RenderError::Image(owned("empty image")));
            }
            Ok(gray_page(w, h, rgba.as_slice()))
        },
        Err(e) => Err(RenderError::Image(e)),
    }
}

/// `r` is what can come of an image: the page, or the error, of what decoding it can give.
pub open spec fn is_loaded(r: Result<GrayPage, RenderError>, bytes: Seq<u8>) -> bool {
    exists|d: Result<(u32, u32, Seq<u8>), Seq<char>>| #[trigger]
        can_decode_to(bytes, d) && is_page_of(r, d)
}

/// Decodes an image to gray at a nominal resolution (images have no physical size). An image that cannot
/// be decoded, or has no pixels, is refused.
pub fn load(bytes: &[u8]) -> (r: Result<GrayPage, RenderError>)
    ensures
        is_loaded(r, bytes@),
        r matches Ok(p) ==> p.valid(),
{
    let d = decode_rgba(bytes);
    let ghost v = decoded_view(d);
    assert(can_decode_to(bytes@, v));
    let r = page_of(d);
    proof {
        if r is Ok {
            let p = r->Ok_0;
            assert(p.width * p.height >= 0) by (nonlinear_arith)
                requires
                    p.width >= 0,
                    p.height >= 0,
            ;
        }
    }
    r
}

} // verus!
