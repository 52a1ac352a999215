use catprinterd::protocol::PrintMode;
use catprinterd::raster::GrayPage;
use catprinterd::render::{
    self, binarize, fit_width, imagein, is_packable, is_preparable, lines_to_mm, mode_for, preview_png_bytes, Dither, GrayStrip,
    Layout, Packed, Preset, RenderError, RenderOptions, Tone, BLANK_STRIP_LINES, MIN_LINES,
};

fn floyd_steinberg(gray: &[u8], width: usize, height: usize) -> Vec<bool> {
    let mut work: Vec<f32> = gray.iter().map(|&v| v as f32).collect();
    let mut out = vec![false; width * height];
    for y in 0..height {
        for x in 0..width {
            let i = y * width + x;
            let old = work[i];
            let black = old < 128.0;
            let new = if black { 0.0 } else { 255.0 };
            out[i] = black;
            let err = old - new;
            if x + 1 < width {
                work[i + 1] += err * (7.0 / 16.0);
            }
            if y + 1 < height {
                let below = i + width;
                if x > 0 {
                    work[below - 1] += err * (3.0 / 16.0);
                }
                work[below] += err * (5.0 / 16.0);
                if x + 1 < width {
                    work[below + 1] += err * (1.0 / 16.0);
                }
            }
        }
    }
    out
}

fn thermal_curve(gray: &[u8], contrast: f64, midtone: f64) -> Vec<u8> {
    let denom = if contrast > 0.0 {
        (contrast * 0.5).tanh()
    } else {
        0.0
    };
    gray.iter()
        .map(|&v| {
            let mut x = (v as f64 / 255.0).clamp(0.0, 1.0);
            if midtone > 0.0 && midtone != 1.0 {
                x = x.powf(midtone);
            }
            if contrast > 0.0 && denom != 0.0 {
                x = 0.5 * (1.0 + (contrast * (x - 0.5)).tanh() / denom);
            }
            (x * 255.0).round().clamp(0.0, 255.0) as u8
        })
        .collect()
}

fn quantize_16_serpentine_fs(gray: &[u8], width: usize, height: usize) -> Vec<u8> {
    let mut work: Vec<f64> = gray.iter().map(|&v| v as f64).collect();
    let mut out = vec![0u8; width * height];
    for y in 0..height {
        let ltr = y % 2 == 0;
        let step: isize = if ltr { 1 } else { -1 };
        for k in 0..width {
            let x = if ltr { k } else { width - 1 - k };
            let i = y * width + x;
            let val = work[i].clamp(0.0, 255.0);
            let level = (((255.0 - val) as i32) >> 4).clamp(0, 15);
            out[i] = level as u8;
            let recon = 247.0 - 16.0 * level as f64;
            let err = val - recon;
            let nx = x as isize + step;
            let nx_ok = nx >= 0 && (nx as usize) < width;
            if nx_ok {
                work[y * width + nx as usize] += err * (7.0 / 16.0);
            }
            let ny = y + 1;
            if ny < height {
                let px = x as isize - step;
                if px >= 0 && (px as usize) < width {
                    work[ny * width + px as usize] += err * (3.0 / 16.0);
                }
                work[ny * width + x] += err * (5.0 / 16.0);
                if nx_ok {
                    work[ny * width + nx as usize] += err * (1.0 / 16.0);
                }
            }
        }
    }
    out
}

fn gaussian_blur(gray: &[u8], width: usize, height: usize, sigma: f32) -> Vec<f32> {
    let radius = (sigma * 3.0).ceil().max(1.0) as isize;
    let kernel: Vec<f32> = (-radius..=radius)
        .map(|i| (-((i * i) as f32) / (2.0 * sigma * sigma)).exp())
        .collect();
    let ksum: f32 = kernel.iter().sum();
    let kernel: Vec<f32> = kernel.iter().map(|k| k / ksum).collect();

    let mut tmp = vec![0f32; width * height];
    for y in 0..height {
        let row = &gray[y * width..(y + 1) * width];
        for x in 0..width {
            let mut acc = 0f32;
            for (ki, k) in kernel.iter().enumerate() {
                let sx = (x as isize + ki as isize - radius).clamp(0, width as isize - 1) as usize;
                acc += row[sx] as f32 * k;
            }
            tmp[y * width + x] = acc;
        }
    }
    let mut out = vec![0f32; width * height];
    for x in 0..width {
        for y in 0..height {
            let mut acc = 0f32;
            for (ki, k) in kernel.iter().enumerate() {
                let sy = (y as isize + ki as isize - radius).clamp(0, height as isize - 1) as usize;
                acc += tmp[sy * width + x] * k;
            }
            out[y * width + x] = acc;
        }
    }
    out
}

fn unsharp(
    gray: &[u8],
    width: usize,
    height: usize,
    sigma: f32,
    percent: u32,
    threshold: u8,
) -> Vec<u8> {
    if width == 0 || height == 0 {
        return Vec::new();
    }
    let blurred = gaussian_blur(gray, width, height, sigma);
    gray.iter()
        .zip(blurred.iter())
        .map(|(&o, &b)| {
            let diff = o as f32 - b;
            if diff.abs() > threshold as f32 {
                (o as f32 + diff * percent as f32 / 100.0)
                    .round()
                    .clamp(0.0, 255.0) as u8
            } else {
                o
            }
        })
        .collect()
}

fn curve_of(p: Preset) -> (f64, f64) {
    match p {
        Preset::Default => (1.1, 1.12),
        Preset::Picture => (1.6, 1.22),
        Preset::Text | Preset::Document => (2.4, 1.35),
    }
}

fn prepare(pages: Vec<GrayPage>, o: &RenderOptions) -> Result<GrayStrip, RenderError> {
    render::prepare(pages, o, |g: &[u8], w: usize, h: usize| unsharp(g, w, h, 1.0, 55, 2))
}

fn pack(s: &GrayStrip, o: &RenderOptions, mode: PrintMode, width: u32) -> Result<Packed, RenderError> {
    render::pack(
        s,
        o,
        mode,
        width,
        floyd_steinberg,
        |g: &[u8], p: Preset| thermal_curve(g, curve_of(p).0, curve_of(p).1),
        quantize_16_serpentine_fs,
    )
}

fn white(w: u32, h: u32, dpi: u32) -> GrayPage {
    GrayPage::new_white(w, h, dpi)
}

fn fill(p: &mut GrayPage, x0: u32, y0: u32, x1: u32, y1: u32, v: u8) {
    for y in y0..y1 {
        for x in x0..x1 {
            let i = (y * p.width + x) as usize;
            p.data[i] = v;
        }
    }
}

fn opts(preset: Preset, tone: Tone) -> RenderOptions {
    RenderOptions {
        preset,
        tone,
        ..Default::default()
    }
}

fn doodle_page() -> GrayPage {
    let mut p = white(800, 1100, 100);
    for x in 200..600u32 {
        for t in -3i32..4 {
            let y = 400 + (40.0 * ((x as f64) / 30.0).sin()) as i32 + t;
            if (0..1100).contains(&y) {
                p.data[(y as u32 * 800 + x) as usize] = 0;
            }
        }
    }
    fill(&mut p, 300, 700, 460, 820, 90);
    p
}

#[test]
fn preset_and_tone_aliases() {
    assert_eq!(Preset::parse("Picture"), Some(Preset::Picture));
    assert_eq!(Preset::parse("photo"), Some(Preset::Picture));
    assert_eq!(Preset::parse("TEXT"), Some(Preset::Text));
    assert_eq!(Preset::parse("Document"), Some(Preset::Document));
    assert_eq!(Preset::parse("doc"), Some(Preset::Document));
    assert_eq!(Preset::parse("auto"), Some(Preset::Default));
    assert_eq!(Preset::parse("neon"), None);
    assert_eq!(Tone::parse("Grayscale"), Some(Tone::Grayscale));
    assert_eq!(Tone::parse("BlackWhite"), Some(Tone::BlackWhite));
    assert_eq!(Tone::parse("grey"), Some(Tone::Grayscale));
    assert_eq!(Tone::parse("mono"), Some(Tone::BlackWhite));
    assert_eq!(Tone::parse("bi-level"), Some(Tone::BlackWhite));
    assert_eq!(Tone::parse("sepia"), None);
    assert_eq!(
        Dither::parse("floyd-steinberg"),
        Some(Dither::FloydSteinberg)
    );
    assert_eq!(Dither::parse("mean_threshold"), Some(Dither::Mean));
}

#[test]
fn preset_table_matches_python() {
    assert_eq!(Preset::Default.intensity(), 0x5D);
    assert_eq!(Preset::Picture.intensity(), 0x78);
    assert_eq!(Preset::Text.intensity(), 0x68);
    assert!(!Preset::Document.trim());
    assert!(!Preset::Text.unsharp());
    assert_eq!(curve_of(Preset::Picture), (1.6, 1.22));
    assert!(!Preset::Text.gray_dither());
    assert_eq!(mode_for(Tone::Grayscale, true), PrintMode::Gray4);
    assert_eq!(mode_for(Tone::Grayscale, false), PrintMode::Mono);
    assert_eq!(mode_for(Tone::BlackWhite, true), PrintMode::Mono);
}

#[test]
fn trim_doodle_on_a4_crops_tight() {
    let mut p = white(1100, 800, 100);
    fill(&mut p, 300, 400, 500, 520, 0);
    let o = RenderOptions {
        layout: Layout::Tape,
        ..opts(Preset::Default, Tone::BlackWhite)
    };
    let s = prepare(vec![p], &o).unwrap();
    assert_eq!(s.width, 384);
    assert!(s.height > 200 && s.height < 260, "height {}", s.height);
    assert!(s.data.iter().any(|&v| v < 10));
    assert_eq!(s.layout, Layout::Tape);
}

#[test]
fn all_white_is_a_16_row_strip() {
    let s = prepare(
        vec![white(200, 200, 203)],
        &opts(Preset::Default, Tone::BlackWhite),
    )
    .unwrap();
    assert_eq!((s.width, s.height), (384, BLANK_STRIP_LINES));
    assert!(s.data.iter().all(|&v| v == 255));
    assert_eq!(s.pages, 1);
}

#[test]
fn fit_width_shrinks_grows_and_pads() {
    let (w, h, _) = fit_width(800, 100, &vec![0u8; 800 * 100], 384);
    assert_eq!(w, 384);
    assert!(h > 1);
    let (w, h, d) = fit_width(40, 20, &vec![0u8; 800], 384);
    assert_eq!((w, h), (384, 192));
    assert_eq!(d.len(), 384 * 192);
    let mut narrow = vec![255u8; 380 * 4];
    for y in 0..4 {
        narrow[y * 380 + 10] = 0;
    }
    let (w, h, d) = fit_width(380, 4, &narrow, 384);
    assert_eq!((w, h), (384, 4));
    assert_eq!(d[12], 0);
    assert_eq!(d.iter().filter(|&&v| v == 0).count(), 4);
    let wide = vec![0u8; 388 * 2];
    let (w, h, d) = fit_width(388, 2, &wide, 384);
    assert_eq!((w, h), (384, 2));
    assert_eq!(d.len(), 384 * 2);
}

#[test]
fn text_threshold_keeps_ink_solid() {
    let mut g = vec![255u8; 384 * 32];
    for y in 8..24 {
        for x in 40..80 {
            g[y * 384 + x] = 20;
        }
    }
    let bits = binarize(&g, 384, 32, Dither::Threshold, floyd_steinberg);
    assert!(bits[12 * 384 + 50]);
    assert!(!bits[0]);
}

#[test]
fn png_default_is_384_and_has_ink() {
    let o = RenderOptions {
        layout: Layout::Tape,
        ..opts(Preset::Default, Tone::BlackWhite)
    };
    let s = prepare(vec![doodle_page()], &o).unwrap();
    assert_eq!(s.width, 384);
    assert!(s.height < 600 && s.height > 20, "{}", s.height);
    let p = pack(&s, &o, PrintMode::Mono, 384).unwrap();
    assert!(p.preview.data.contains(&0));
    assert!(p.preview.data.iter().all(|&v| v == 0 || v == 255));
    assert_eq!(p.row_bytes, 48);
    assert_eq!(p.data.len(), p.lines as usize * 48);
}

#[test]
fn document_keeps_full_page_default_trims() {
    let mut sheet = white(800, 1100, 100);
    fill(&mut sheet, 100, 20, 700, 40, 0);
    fill(&mut sheet, 100, 1060, 700, 1080, 0);
    let full = prepare(
        vec![sheet.clone()],
        &opts(Preset::Document, Tone::BlackWhite),
    )
    .unwrap();
    assert_eq!(full.layout, Layout::Sheet);
    assert_eq!((full.width, full.height), (384, 528));
    let p = pack(
        &full,
        &opts(Preset::Document, Tone::BlackWhite),
        PrintMode::Mono,
        384,
    )
    .unwrap();
    assert!(p.preview.data[..30 * 384].contains(&0));
    assert!(p.preview.data[(528 - 30) * 384..].contains(&0));

    let mut page = white(800, 1100, 100);
    fill(&mut page, 360, 520, 440, 580, 0);
    let trimmed = prepare(
        vec![page.clone()],
        &RenderOptions {
            layout: Layout::Tape,
            ..opts(Preset::Default, Tone::BlackWhite)
        },
    )
    .unwrap();
    let whole = prepare(vec![page], &opts(Preset::Document, Tone::BlackWhite)).unwrap();
    assert!(trimmed.height < 400, "{}", trimmed.height);
    assert_eq!(whole.height, 528);
    assert!(whole.height > trimmed.height);
}

#[test]
fn auto_layout_from_page_width() {
    let mut tape = white(384, 100, 203);
    fill(&mut tape, 10, 10, 20, 20, 0);
    assert_eq!(
        prepare(vec![tape], &opts(Preset::Default, Tone::BlackWhite))
            .unwrap()
            .layout,
        Layout::Tape
    );
    let mut a4 = white(1678, 300, 203);
    fill(&mut a4, 10, 10, 20, 20, 0);
    let s = prepare(vec![a4], &opts(Preset::Default, Tone::BlackWhite)).unwrap();
    assert_eq!(s.layout, Layout::Sheet);
    assert_eq!(s.height, (300.0 * 384.0 / 1678.0f64).round() as u32);
    let mut img = white(100, 50, 0);
    fill(&mut img, 0, 0, 10, 10, 0);
    assert_eq!(
        prepare(vec![img], &opts(Preset::Default, Tone::BlackWhite))
            .unwrap()
            .layout,
        Layout::Tape
    );
}

#[test]
fn multipage_gap_blank_drop_and_column_union() {
    let mut p1 = white(384, 100, 203);
    fill(&mut p1, 20, 10, 40, 30, 0);
    let blank = white(384, 100, 203);
    let mut p2 = white(384, 100, 203);
    fill(&mut p2, 300, 10, 340, 30, 0);
    let o = RenderOptions {
        page_gap_lines: 24,
        ..opts(Preset::Text, Tone::BlackWhite)
    };
    let s = prepare(vec![p1, blank, p2], &o).unwrap();
    assert_eq!(s.pages, 2);
    let per_page = (36.0 * 384.0 / 336.0f64).round() as u32;
    assert_eq!(s.height, per_page * 2 + 24, "{}", s.height);
    let first = &s.data[..(per_page * 384) as usize];
    assert!(first.iter().any(|&v| v < 128));
    let gap = &s.data[(per_page * 384) as usize..((per_page + 24) * 384) as usize];
    assert!(gap.iter().all(|&v| v == 255));
}

#[test]
fn too_long_is_an_error_not_a_truncation() {
    let mut tall = white(384, 20000, 203);
    fill(&mut tall, 0, 0, 384, 20000, 0);
    let err = prepare(vec![tall], &opts(Preset::Default, Tone::BlackWhite)).unwrap_err();
    match err {
        RenderError::TooLong {
            lines,
            max_lines,
            mm,
            max_mm,
        } => {
            assert_eq!(lines, 20000);
            assert_eq!(max_lines, 8000);
            assert_eq!(mm, lines_to_mm(20000));
            assert_eq!(max_mm, 1001);
        }
        other => panic!("{other:?}"),
    }
}

#[test]
fn segments_split_pad_and_keep_send_order() {
    let mut strip_page = white(384, 250, 203);
    fill(&mut strip_page, 0, 0, 384, 1, 0);
    let o = RenderOptions {
        max_lines_per_request: 100,
        rotate_180: true,
        trim_override: Some(false),
        ..opts(Preset::Text, Tone::BlackWhite)
    };
    let s = prepare(vec![strip_page], &o).unwrap();
    assert_eq!(s.height, 250);
    let p = pack(&s, &o, PrintMode::Mono, 384).unwrap();
    assert_eq!(p.segments.len(), 3);
    assert_eq!(p.segments[0].lines, 100);
    assert_eq!(p.segments[1].lines, 100);
    assert_eq!(p.segments[2].lines, MIN_LINES);
    assert_eq!(p.lines, 290);
    assert_eq!(p.data.len(), 290 * 48);
    for s in &p.segments {
        assert_eq!(s.bytes.len(), s.lines as usize * 48);
    }
    let last_seg = &p.data[p.segments[2].bytes.clone()];
    let last_real_row = &last_seg[49 * 48..50 * 48];
    assert!(last_real_row.iter().all(|&b| b == 0xFF));
    let first_row = &p.data[..48];
    assert!(first_row.iter().all(|&b| b == 0));
    assert!(last_seg[50 * 48..].iter().all(|&b| b == 0));
    assert!(p.preview.data[..384].iter().all(|&v| v == 0));
    assert!(p.preview.data[384..].iter().all(|&v| v == 255));
}

#[test]
fn rotate_180_reverses_rows_and_pixels() {
    let mut page = white(384, 100, 203);
    fill(&mut page, 0, 0, 8, 1, 0);
    let o = RenderOptions {
        trim_override: Some(false),
        ..opts(Preset::Text, Tone::BlackWhite)
    };
    let s = prepare(vec![page], &o).unwrap();
    let p = pack(&s, &o, PrintMode::Mono, 384).unwrap();
    let last_row = &p.data[99 * 48..100 * 48];
    assert_eq!(last_row[47], 0xFF);
    assert!(last_row[..47].iter().all(|&b| b == 0));
    assert!(p.data[..99 * 48].iter().all(|&b| b == 0));
    let o2 = RenderOptions {
        rotate_180: false,
        ..o
    };
    let p2 = pack(&s, &o2, PrintMode::Mono, 384).unwrap();
    assert_eq!(p2.data[0], 0xFF);
    assert!(p2.data[1..].iter().all(|&b| b == 0));
}

#[test]
fn mono_bit_order_is_lsb_leftmost() {
    let mut page = white(384, 100, 203);
    fill(&mut page, 0, 0, 1, 1, 0);
    let o = RenderOptions {
        rotate_180: false,
        trim_override: Some(false),
        ..opts(Preset::Text, Tone::BlackWhite)
    };
    let s = prepare(vec![page], &o).unwrap();
    let p = pack(&s, &o, PrintMode::Mono, 384).unwrap();
    assert_eq!(p.data[0], 0x01);
    let mut page = white(384, 100, 203);
    fill(&mut page, 7, 0, 8, 1, 0);
    let s = prepare(vec![page], &o).unwrap();
    let p = pack(&s, &o, PrintMode::Mono, 384).unwrap();
    assert_eq!(p.data[0], 0x80);
}

#[test]
fn gray4_pack_nibbles_and_padding() {
    let mut page = white(384, 100, 203);
    fill(&mut page, 0, 0, 1, 1, 0);
    let o = RenderOptions {
        rotate_180: false,
        trim_override: Some(false),
        ..opts(Preset::Text, Tone::Grayscale)
    };
    let s = prepare(vec![page], &o).unwrap();
    let p = pack(&s, &o, PrintMode::Gray4, 384).unwrap();
    assert_eq!(p.mode, PrintMode::Gray4);
    assert_eq!(p.row_bytes, 192);
    assert_eq!(p.data[0], 0xF0);
    assert_eq!(p.data.len() % 192, 0);
    assert!(p.data.len() >= 17280);
    assert_eq!(p.lines, 100);
    assert_eq!(p.preview.data[0], 0);
    assert_eq!(p.preview.data[1], 255);
}

#[test]
fn picture_grayscale_is_4bpp_and_uses_levels() {
    let mut page = white(200, 80, 203);
    fill(&mut page, 0, 0, 200, 80, 130);
    fill(&mut page, 20, 40, 80, 41, 10);
    let o = opts(Preset::Picture, Tone::Grayscale);
    let s = prepare(vec![page], &o).unwrap();
    assert_eq!(s.width, 384);
    let p = pack(&s, &o, PrintMode::Gray4, 384).unwrap();
    assert_eq!(p.data.len() % 192, 0);
    assert!(p.data.len() >= 17280);
    let mut levels: Vec<u8> = p.data.iter().flat_map(|&b| [b >> 4, b & 0x0F]).collect();
    levels.sort_unstable();
    levels.dedup();
    assert!(levels.iter().any(|&l| (1..15).contains(&l)), "{levels:?}");
}

#[test]
fn text_grayscale_keeps_solid_ink() {
    let mut page = white(384, 64, 203);
    fill(&mut page, 40, 16, 80, 48, 0);
    let o = RenderOptions {
        rotate_180: false,
        trim_override: Some(false),
        ..opts(Preset::Text, Tone::Grayscale)
    };
    let s = prepare(vec![page], &o).unwrap();
    let p = pack(&s, &o, PrintMode::Gray4, 384).unwrap();
    let level = |x: usize, y: usize| {
        let b = p.data[y * 192 + x / 2];
        if x % 2 == 0 {
            b >> 4
        } else {
            b & 0x0F
        }
    };
    assert!(level(60, 32) >= 12, "{}", level(60, 32));
    assert!(level(2, 2) <= 1, "{}", level(2, 2));
}

#[test]
fn default_tone_is_still_1bpp() {
    let mut page = white(80, 40, 203);
    fill(&mut page, 0, 0, 80, 40, 0);
    let o = opts(Preset::Default, Tone::BlackWhite);
    let s = prepare(vec![page], &o).unwrap();
    let p = pack(&s, &o, mode_for(o.tone, true), 384).unwrap();
    assert_eq!(p.mode, PrintMode::Mono);
    assert!(p.preview.data.iter().all(|&v| v == 0 || v == 255));
}

#[test]
fn pack_resamples_to_model_width() {
    let mut page = white(384, 50, 203);
    fill(&mut page, 0, 0, 384, 50, 0);
    let o = RenderOptions {
        trim_override: Some(false),
        ..opts(Preset::Text, Tone::BlackWhite)
    };
    let s = prepare(vec![page], &o).unwrap();
    let p = pack(&s, &o, PrintMode::Mono, 576).unwrap();
    assert_eq!(p.width, 576);
    assert_eq!(p.row_bytes, 72);
    assert_eq!(p.preview.width, 576);
    assert_eq!(p.preview.height, 75);
}

#[test]
fn preview_png_roundtrip() {
    let mut page = white(16, 8, 203);
    fill(&mut page, 0, 0, 8, 8, 0);
    let bytes = preview_png_bytes(&page).unwrap();
    assert!(bytes.starts_with(&[0x89, b'P', b'N', b'G']));
    let back = imagein::load(&bytes).unwrap();
    assert_eq!(back.data, page.data);
}

#[test]
fn blank_strip_is_held_to_the_limit() {
    let o = RenderOptions { max_lines_total: 15, ..opts(Preset::Text, Tone::BlackWhite) };
    match prepare(vec![white(384, 100, 203)], &o) {
        Err(RenderError::TooLong { lines, mm, max_lines, max_mm }) => {
            assert_eq!(lines, 16);
            assert_eq!(mm, lines_to_mm(16));
            assert_eq!(max_lines, 15);
            assert_eq!(max_mm, lines_to_mm(15));
        }
        _ => panic!("a blank strip of 16 lines is over the limit"),
    }
    let o = RenderOptions { max_lines_total: 16, ..o };
    let s = prepare(vec![white(384, 100, 203), white(100, 10, 203)], &o).unwrap();
    assert_eq!((s.width, s.height, s.pages), (384, 16, 1));
    assert_eq!(s.data, vec![255u8; 384 * 16]);
}

#[test]
fn blank_pages_carry_nothing() {
    for layout in [Layout::Tape, Layout::Sheet] {
        let o = RenderOptions { layout, ..opts(Preset::Picture, Tone::BlackWhite) };
        let mut first = white(500, 300, 203);
        fill(&mut first, 40, 50, 200, 90, 10);
        let mut second = white(384, 120, 203);
        fill(&mut second, 300, 20, 380, 60, 60);
        let gray = GrayPage { data: vec![245; 90 * 40], ..white(90, 40, 100) };
        let all = vec![
            gray.clone(),
            first.clone(),
            white(1000, 7, 300),
            second.clone(),
            gray,
        ];
        let a = prepare(all, &o).unwrap();
        let b = prepare(vec![first, second], &o).unwrap();
        assert_eq!(a.pages, 2);
        assert_eq!(a, b);
        assert_eq!(a.data.len(), (a.width * a.height) as usize);
    }
}

#[test]
fn upside_down_is_mirrored() {
    let mut page = white(384, 40, 203);
    fill(&mut page, 3, 1, 50, 7, 0);
    fill(&mut page, 100, 20, 300, 39, 120);
    for mode in [PrintMode::Mono, PrintMode::Gray4] {
        let up = RenderOptions {
            rotate_180: false,
            trim_override: Some(false),
            ..opts(Preset::Text, Tone::Grayscale)
        };
        let s = prepare(vec![page.clone()], &up).unwrap();
        for width in [192, 376, 384, 392] {
            let a = pack(&s, &up, mode, width).unwrap();
            let b = pack(&s, &RenderOptions { rotate_180: true, ..up }, mode, width).unwrap();
            assert_eq!(a.preview.data, b.preview.data);
            assert_eq!(a.segments.len(), 1);
            let n = a.preview.height as usize * a.row_bytes;
            assert_eq!(a.data.len(), b.data.len());
            for i in 0..n {
                let x = a.data[n - 1 - i];
                let want = match mode {
                    PrintMode::Mono => x.reverse_bits(),
                    PrintMode::Gray4 => x.rotate_left(4),
                };
                assert_eq!(b.data[i], want);
            }
            assert!(a.data[n..].iter().chain(b.data[n..].iter()).all(|&x| x == 0));
            assert!(a.data[..n].iter().any(|&x| x != 0));
        }
    }
}

#[test]
fn names_in_any_spelling() {
    for p in [Preset::Default, Preset::Picture, Preset::Text, Preset::Document] {
        assert_eq!(Preset::parse(p.name()), Some(p));
        assert_eq!(Preset::parse(&p.name().to_uppercase()), Some(p));
        assert_eq!(Preset::parse(&format!(" {}\n", p.name())), Some(p));
    }
    for t in [Tone::BlackWhite, Tone::Grayscale] {
        assert_eq!(Tone::parse(t.name()), Some(t));
        assert_eq!(Tone::parse(&t.name().to_uppercase()), Some(t));
        assert_eq!(Tone::parse(&format!("\t{} ", t.name())), Some(t));
    }
    assert_eq!(Preset::parse("normal"), Some(Preset::Default));
    assert_eq!(Preset::parse("graphics"), Some(Preset::Picture));
    assert_eq!(Preset::parse("HIGH"), Some(Preset::Picture));
    assert_eq!(Preset::parse("draft"), Some(Preset::Text));
}

#[test]
fn dither_names_read_back() {
    for d in [
        Dither::FloydSteinberg,
        Dither::Atkinson,
        Dither::Threshold,
        Dither::Mean,
        Dither::Plain,
    ] {
        assert_eq!(Dither::parse(d.name()), Some(d));
        assert_eq!(Dither::parse(&d.name().to_uppercase()), Some(d));
        assert_eq!(Dither::parse(&format!("\t{} ", d.name())), Some(d));
    }
}

#[test]
fn what_the_scaler_can_take() {
    let mut page = white(10, 1_400_000, 203);
    page.data[5] = 0;
    let pages = vec![page];
    let o = RenderOptions {
        width_px: 24,
        trim_override: Some(false),
        max_lines_total: u32::MAX,
        ..opts(Preset::Text, Tone::BlackWhite)
    };
    assert!(!is_preparable(&pages, &o), "both sides are too long");
    assert!(is_preparable(&pages, &RenderOptions { width_px: 5, ..o }), "near widths are not scaled");
    assert!(is_preparable(&pages, &RenderOptions { width_px: 1, ..o }), "the scaled side is short");
    assert!(is_preparable(&pages, &RenderOptions { max_lines_total: 8000, ..o }), "it is too long anyway");
    assert!(is_preparable(&vec![], &o));
    let strip = GrayStrip {
        width: 10,
        height: 1_400_000,
        data: vec![255; 14_000_000],
        pages: 1,
        layout: Layout::Tape,
    };
    assert!(!is_packable(&strip, &o, 24, true));
    assert!(is_packable(&strip, &o, 10, true));
    assert!(is_packable(&strip, &o, 1, false));
    assert!(is_packable(&GrayStrip { height: 0, ..strip }, &o, 24, true));
}
