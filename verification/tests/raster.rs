use catprinterd::raster::{decode, inspect, is_raster, Limits, RasterError, Sync, HEADER_LEN};

struct Page {
    w: u32,
    h: u32,
    bpc: u32,
    bpp: u32,
    bpl: u32,
    order: u32,
    space: u32,
    lines: Vec<u8>,
}

fn gray(w: u32, h: u32, lines: Vec<u8>) -> Page {
    Page { w, h, bpc: 8, bpp: 8, bpl: w, order: 0, space: 18, lines }
}

fn stream(sync: &[u8; 4], pages: &[Page]) -> Vec<u8> {
    let big = sync[0] == b'R';
    let mut out = sync.to_vec();
    for p in pages {
        let mut head = vec![0u8; HEADER_LEN];
        head[64..74].copy_from_slice(b"stationery");
        head[644..652].copy_from_slice(b"48x297mm");
        for (at, v) in [
            (276, 203),
            (280, 203),
            (340, 1),
            (352, 136),
            (356, 842),
            (372, p.w),
            (376, p.h),
            (384, p.bpc),
            (388, p.bpp),
            (392, p.bpl),
            (396, p.order),
            (400, p.space),
            (452, 2),
        ] {
            let b = if big { v.to_be_bytes() } else { v.to_le_bytes() };
            head[at..at + 4].copy_from_slice(&b);
        }
        out.extend(head);
        out.extend(&p.lines);
    }
    out
}

fn limits() -> Limits {
    Limits::default()
}

#[test]
fn gray_lines_are_unpacked_in_both_byte_orders() {
    // a line three times: a run of 3, then two literals; then a line that is white from its second pixel
    let lines = vec![2, 2, 10, 255, 20, 30, 0, 0, 7, 128];
    for sync in [b"RaS2", b"2SaR"] {
        let doc = stream(sync, &[gray(5, 4, lines.clone())]);
        assert!(is_raster(&doc));
        let pages = decode(&doc, &limits()).unwrap();
        assert_eq!(pages.len(), 1);
        assert_eq!((pages[0].width, pages[0].height, pages[0].dpi), (5, 4, 203));
        let row = [10, 10, 10, 20, 30];
        let want: Vec<u8> =
            [row, row, row, [7, 255, 255, 255, 255]].concat();
        assert_eq!(pages[0].data, want);
    }
}

#[test]
fn raw_lines_are_taken_as_they_are() {
    for sync in [b"RaS3", b"3SaR"] {
        let doc = stream(sync, &[gray(3, 2, vec![1, 2, 3, 4, 5, 6])]);
        assert_eq!(decode(&doc, &limits()).unwrap()[0].data, vec![1, 2, 3, 4, 5, 6]);
    }
}

#[test]
fn black_bits_and_colors_become_gray() {
    let black = Page { w: 10, h: 1, bpc: 1, bpp: 1, bpl: 2, order: 0, space: 3, lines: vec![0xA0, 0x40] };
    let doc = stream(b"RaS3", &[black]);
    assert_eq!(
        decode(&doc, &limits()).unwrap()[0].data,
        vec![0, 255, 0, 255, 255, 255, 255, 255, 255, 0]
    );
    let color = Page {
        w: 4,
        h: 1,
        bpc: 8,
        bpp: 24,
        bpl: 12,
        order: 0,
        space: 19,
        lines: vec![255, 255, 255, 0, 0, 0, 255, 0, 0, 0, 255, 0],
    };
    let doc = stream(b"RaS3", &[color]);
    let d = &decode(&doc, &limits()).unwrap()[0].data;
    assert_eq!(d[..2], [255, 0]);
    assert!(d[2] < d[3], "green is brighter than red: {d:?}");
    assert_eq!(d[2], 54);
    assert_eq!(d[3], 182);
}

#[test]
fn every_page_is_read() {
    let doc = stream(b"RaS3", &[gray(2, 1, vec![1, 2]), gray(1, 2, vec![3, 4])]);
    let pages = decode(&doc, &limits()).unwrap();
    assert_eq!(pages.len(), 2);
    assert_eq!(pages[1].data, vec![3, 4]);
    let heads = inspect(&doc).unwrap();
    assert_eq!(heads.len(), 2);
    assert_eq!(heads[0].sync, Sync::V3BigEndian);
    assert_eq!(heads[0].media_type, "");
    assert_eq!(heads[0].page_size_name, "48x297mm");
    assert_eq!(heads[0].hw_resolution, (203, 203));
    assert_eq!(heads[0].page_size_pt, (136, 842));
    assert_eq!((heads[1].width, heads[1].height), (1, 2));
    assert_eq!(heads[0].color_space, 18);
    assert_eq!(heads[0].num_copies, 1);
    assert_eq!(heads[0].total_page_count, 2);
}

#[test]
fn what_is_wrong_is_said() {
    assert!(matches!(decode(b"PNG?", &limits()), Err(RasterError::BadSync)));
    assert!(!is_raster(b"Ra"));
    let doc = stream(b"RaS3", &[gray(3, 2, vec![1, 2, 3, 4])]);
    let e = decode(&doc, &limits()).unwrap_err();
    assert!(matches!(e, RasterError::Truncated { page: 1, line: 1 }), "{e:?}");
    assert_eq!(e.message(), "truncated raster stream at page 1, line 1");
    let mut p = gray(3, 1, vec![1, 2, 3]);
    p.space = 6;
    let e = decode(&stream(b"RaS3", &[p]), &limits()).unwrap_err();
    assert_eq!(e.message(), "unsupported raster format: colorspace 6, 8 bpp, order 0");
    let mut p = gray(3, 1, vec![1, 2, 3]);
    p.bpl = 4;
    let e = decode(&stream(b"RaS3", &[p]), &limits()).unwrap_err();
    assert_eq!(e.message(), "raster header inconsistent: bytes per line");
    let e = decode(&stream(b"RaS3", &[gray(0, 1, vec![])]), &limits()).unwrap_err();
    assert_eq!(e.message(), "raster header inconsistent: empty page");
}

#[test]
fn limits_are_kept() {
    let two = stream(b"RaS3", &[gray(2, 2, vec![0; 4]), gray(2, 2, vec![0; 4])]);
    let message = |l: Limits| decode(&two, &l).unwrap_err().message();
    assert_eq!(
        message(Limits { max_pages: 1, ..limits() }),
        "raster exceeds limits: too many pages"
    );
    assert_eq!(
        message(Limits { max_width: 1, ..limits() }),
        "raster exceeds limits: page too wide"
    );
    assert_eq!(
        message(Limits { max_height: 1, ..limits() }),
        "raster exceeds limits: page too long"
    );
    assert_eq!(
        message(Limits { max_pixels_total: 7, ..limits() }),
        "raster exceeds limits: too many pixels"
    );
    assert!(decode(&two, &Limits { max_pages: 2, max_width: 2, max_height: 2, max_pixels_total: 8 }).is_ok());
}
