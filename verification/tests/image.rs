use catprinterd::engine::prep::{decode_document, prepare_document};
use catprinterd::engine::DocFormat;
use catprinterd::raster::{GrayPage, Limits};
use catprinterd::render::imagein::{is_image, load, page_of};
use catprinterd::render::packing::preview_png_bytes;
use catprinterd::render::{RenderError, RenderOptions};

fn png(w: u32, h: u32, px: impl Fn(u32, u32) -> [u8; 4]) -> Vec<u8> {
    let img = image::RgbaImage::from_fn(w, h, |x, y| image::Rgba(px(x, y)));
    let mut out = std::io::Cursor::new(Vec::new());
    img.write_to(&mut out, image::ImageFormat::Png).unwrap();
    out.into_inner()
}

#[test]
fn transparency_is_laid_on_white() {
    let doc = png(4, 1, |x, _| match x {
        0 => [0, 0, 0, 255],
        1 => [0, 0, 0, 0],
        2 => [0, 0, 0, 128],
        _ => [255, 255, 255, 255],
    });
    assert!(is_image(&doc));
    assert_eq!(DocFormat::sniff(&doc), DocFormat::Image);
    let p = load(&doc).unwrap();
    assert_eq!((p.width, p.height, p.dpi), (4, 1, 203));
    assert_eq!(p.data, vec![0, 255, 127, 255]);
}

#[test]
fn broken_images_are_refused() {
    assert!(matches!(load(b"\x89PNG nothing"), Err(RenderError::Image(_))));
    assert!(is_image(&[0xFF, 0xD8, 0xFF]));
    assert!(!is_image(b"RaS2"));
    assert!(matches!(page_of(Ok((0, 3, vec![]))), Err(RenderError::Image(t)) if t == "empty image"));
    assert!(matches!(page_of(Err("no".into())), Err(RenderError::Image(t)) if t == "no"));
    let p = page_of(Ok((1, 1, vec![9, 9, 9, 255]))).unwrap();
    assert_eq!(p.data, vec![9]);
}

#[test]
fn a_picture_goes_through_to_a_strip() {
    let doc = png(192, 100, |x, y| if (60..120).contains(&x) && (20..80).contains(&y) { [0, 0, 0, 255] } else { [255; 4] });
    let pages = decode_document(&doc, DocFormat::Image, &Limits::default()).unwrap();
    assert_eq!(pages.len(), 1);
    let keep = |g: &[u8], _w: usize, _h: usize| g.to_vec();
    let (strip, n) =
        prepare_document(&doc, DocFormat::Image, &Limits::default(), &RenderOptions::default(), keep)
            .unwrap()
            .unwrap();
    assert_eq!(n, 1);
    assert_eq!(strip.width, 384);
    assert_eq!(strip.data.len(), (strip.width * strip.height) as usize);
    assert!(strip.data.iter().any(|v| *v < 128));
}

#[test]
fn previews_hold_the_page() {
    let mut p = GrayPage::new_white(3, 2, 203);
    p.data[4] = 17;
    let b = preview_png_bytes(&p).unwrap();
    assert_eq!(load(&b).unwrap().data, p.data);
    p.data.pop();
    assert!(matches!(preview_png_bytes(&p), Err(RenderError::Internal(_))));
}
