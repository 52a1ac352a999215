//! From a document to a gray strip.

use vstd::prelude::*;

use crate::engine::DocFormat;
use crate::raster::pages::{page_views, spec_decode, PageView, RasterErrorView};
use crate::raster::{decode, GrayPage, Limits, RasterError};
use crate::render::imagein::{is_loaded, load};
use crate::render::strip::{
    can_prepare, is_preparable, is_strip_of, keeps_size, prepare, prepare_error, GrayStrip,
};
use crate::render::{RenderError, RenderOptions};
use crate::text::owned;

verus! {

/// What is said of a document of a kind that is not known.
pub const UNKNOWN_FORMAT: &'static str = "unsupported document format";

/// `r` is what comes of decoding a document: pages, or what is said of one that cannot be decoded.
pub open spec fn is_decoded(
    r: Result<Vec<GrayPage>, String>,
    doc: Seq<u8>,
    format: DocFormat,
    limits: Limits,
) -> bool {
    match format {
        DocFormat::PwgRaster => match r {
            Ok(pages) => spec_decode(doc, limits) == Ok::<Seq<PageView>, RasterErrorView>(
                page_views(pages@),
            ),
            Err(t) => exists|e: RasterError|
                t@ == #[trigger] e.text() && spec_decode(doc, limits) == Err::<
                    Seq<PageView>,
                    RasterErrorView,
                >(e.model()),
        },
        DocFormat::Image => match r {
            Ok(pages) => {
                &&& pages@.len() == 1
                &&& pages@[0].valid()
                &&& is_loaded(Ok(pages@[0]), doc)
            },
            Err(t) => exists|e: RenderError| t@ == e@.text() && #[trigger] is_loaded(Err(e), doc),
        },
        DocFormat::Unknown => r matches Err(t) && t@ == UNKNOWN_FORMAT@,
    }
}

/// Decodes a document.
pub fn decode_document(doc: &[u8], format: DocFormat, limits: &Limits) -> (r: Result<
    Vec<GrayPage>,
    String,
>)
    ensures
        is_decoded(r, doc@, format, *limits),
{
    match format {
        DocFormat::PwgRaster => match decode(doc, limits) {
            Ok(p) => Ok(p),
            Err(e) => {
                let t = e.message();
                assert(t@ == e.text());
                Err(t)
            },
        },
        DocFormat::Image => match load(doc) {
            Ok(p) => {
                let mut v: Vec<GrayPage> = Vec::new();
                v.push(p);
                Ok(v)
            },
            Err(e) => {
                let t = e.message();
                assert(is_loaded(Err(e), doc@));
                Err(t)
            },
        },
        DocFormat::Unknown => Err(owned(UNKNOWN_FORMAT)),
    }
}

/// `r` is what comes of pages: a strip and the number of pages, or what is said of pages that cannot be
/// rendered.
pub open spec fn is_rendered<F: Fn(&[u8], usize, usize) -> Vec<u8>>(
    r: Result<(GrayStrip, u32), String>,
    pages: Seq<GrayPage>,
    opts: RenderOptions,
    sharpen: F,
) -> bool {
    match r {
        Ok((strip, n)) => prepare_error(pages, opts) is None && is_strip_of(
            pages,
            opts,
            sharpen,
            strip,
        ) && n == pages.len(),
        Err(t) => prepare_error(pages, opts) matches Some(e) && t@ == e.text(),
    }
}

/// Renders pages to a strip.
pub fn render_pages<F: Fn(&[u8], usize, usize) -> Vec<u8>>(
    pages: Vec<GrayPage>,
    opts: &RenderOptions,
    sharpen: F,
) -> (r: Result<(GrayStrip, u32), String>)
    requires
        pages@.len() <= u32::MAX,
        can_prepare(pages@, *opts),
        keeps_size(sharpen),
    ensures
        is_rendered(r, pages@, *opts, sharpen),
{
    let n: u32 = pages.len() as u32;
    match prepare(pages, opts, sharpen) {
        Ok(s) => Ok((s, n)),
        Err(e) => Err(e.message()),
    }
}

/// From a document to a strip, with the number of its pages; `None` where a page cannot be brought to the
/// head's width (see `can_prepare`).
pub fn prepare_document<F: Fn(&[u8], usize, usize) -> Vec<u8>>(
    doc: &[u8],
    format: DocFormat,
    limits: &Limits,
    opts: &RenderOptions,
    sharpen: F,
) -> (r: Option<Result<(GrayStrip, u32), String>>)
    requires
        keeps_size(sharpen),
    ensures
        exists|d: Result<Vec<GrayPage>, String>|
            {
                &&& #[trigger] is_decoded(d, doc@, format, *limits)
                &&& match d {
                    Ok(pages) => match r {
                        Some(v) => can_prepare(pages@, *opts) && is_rendered(
                            v,
                            pages@,
                            *opts,
                            sharpen,
                        ),
                        None => !can_prepare(pages@, *opts),
                    },
                    Err(t) => r == Some(Err::<(GrayStrip, u32), String>(t)),
                }
            },
{
    let d = decode_document(doc, format, limits);
    assert(is_decoded(d, doc@, format, *limits));
    match d {
        Ok(pages) => {
            proof {
                if format == DocFormat::PwgRaster {
                    crate::raster::pages::lemma_decoded_pages(doc@, *limits);
                    assert(page_views(pages@).len() == pages@.len());
                }
            }
            if !is_preparable(&pages, opts) {
                return None;
            }
            Some(render_pages(pages, opts, sharpen))
        },
        Err(t) => Some(Err(t)),
    }
}

} // verus!
