use catprinterd::ipp::media::{
    a4, all, find_size, is_document_media_name, letter, media_col, media_col_database,
    parse_media_name, strings_en, tape, tape_miniature_y_hmm, MediaHint, A4_PHYS_X_HMM,
    A4_PHYS_Y_HMM, LETTER_PHYS_X_HMM, LETTER_PHYS_Y_HMM, TAPE_X_HMM,
};
use catprinterd::ipp::value::Value;

#[test]
fn parses_pwg_names() {
    assert_eq!(
        parse_media_name("custom_cat-tape_48x297mm"),
        Some((4800, 29700))
    );
    assert_eq!(
        parse_media_name("na_letter_8.5x11in"),
        Some((letter().x_hmm, letter().y_hmm))
    );
    assert_eq!(
        parse_media_name("iso_a4_210x297mm"),
        Some((a4().x_hmm, a4().y_hmm))
    );
    assert_eq!(parse_media_name("custom_48x1000mm"), Some((4800, 100000)));
    assert_eq!(parse_media_name("Custom.48x1000mm"), Some((4800, 100000)));
    assert_eq!(
        parse_media_name("om_whatever_100x150mm"),
        Some((10000, 15000))
    );
    assert_eq!(parse_media_name("nonsense"), None);
    assert_eq!(parse_media_name("custom_0x10mm"), None);
}

#[test]
fn database_has_range_entry_and_labels() {
    match media_col_database() {
        Value::Array(v) => assert_eq!(v.len(), all().len() + 1),
        _ => panic!(),
    }
    let s = strings_en();
    assert!(s.contains("\"media.custom_cat-tape_48x297mm\" = \"Cat tape 48 mm\";"));
    assert!(s.contains("\"media.iso_a4_210x297mm\" = \"Document A4\";"));
    assert!(s.contains("\"print-quality.4\" = \"Default\";"));
    assert!(s.contains("\"print-quality.5\" = \"Picture\";"));
    assert!(s.contains("\"print-color-mode.bi-level\" = \"Black and white\";"));
    assert!(s.contains("\"media-type.labels\" = \"Sticker\";"));
    assert!(s.contains("\"cupsPrintQuality.Draft\" = \"Text\";"));
    assert!(s.contains("\"ColorModel.FastGray\" = \"Black and white\";"));
    assert!(MediaHint {
        x_hmm: 4800,
        y_hmm: 1,
        name: None
    }
    .is_tape());
    assert!(!MediaHint {
        x_hmm: 21000,
        y_hmm: 1,
        name: None
    }
    .is_tape());
    assert_eq!(find_size(4800, 29700).map(|m| m.name), Some(tape().name));
}

#[test]
fn document_pages_are_tape_width_with_a4_letter_aspect() {
    assert_eq!(a4().x_hmm, TAPE_X_HMM);
    assert_eq!(letter().x_hmm, TAPE_X_HMM);
    assert_eq!(a4().x_hmm, 4800);
    let a4_y = tape_miniature_y_hmm(A4_PHYS_X_HMM, A4_PHYS_Y_HMM);
    let letter_y = tape_miniature_y_hmm(LETTER_PHYS_X_HMM, LETTER_PHYS_Y_HMM);
    assert_eq!(a4().y_hmm, a4_y);
    assert_eq!(letter().y_hmm, letter_y);
    assert!(a4().y_hmm.abs_diff(6789) <= 100, "A4 y={}", a4().y_hmm);
    assert!(
        letter().y_hmm.abs_diff(6212) <= 100,
        "Letter y={}",
        letter().y_hmm
    );
    match media_col(Some(a4())) {
        Value::Collection(c) => {
            let size = c
                .iter()
                .find(|(n, _)| n.as_str() == "media-size")
                .map(|(_, v)| v)
                .unwrap();
            let Value::Collection(ms) = size else {
                panic!("{size:?}")
            };
            let get = |k: &str| {
                ms.iter()
                    .find(|(n, _)| n.as_str() == k)
                    .and_then(|(_, v)| match v {
                        Value::Integer(i) => Some(*i),
                        _ => None,
                    })
            };
            assert_eq!(get("x-dimension"), Some(a4().x_hmm));
            assert_eq!(get("y-dimension"), Some(a4().y_hmm));
        }
        other => panic!("{other:?}"),
    }
    let doc = MediaHint {
        x_hmm: a4().x_hmm,
        y_hmm: a4().y_hmm,
        name: Some(a4().name.into()),
    };
    assert!(
        doc.is_document(),
        "named Document A4 at 48 mm is still Document"
    );
    assert!(!doc.is_tape(), "must not trim homework as tape");
    let small = MediaHint {
        x_hmm: letter().x_hmm,
        y_hmm: letter().y_hmm,
        name: Some("Letter".into()),
    };
    assert!(small.is_document());
    let roll = MediaHint {
        x_hmm: tape().x_hmm,
        y_hmm: tape().y_hmm,
        name: Some(tape().name.into()),
    };
    assert!(roll.is_tape());
    assert!(!roll.is_document());
    assert!(is_document_media_name("iso_a4_210x297mm"));
    assert!(is_document_media_name("A4"));
    assert!(!is_document_media_name("custom_cat-tape_48x297mm"));
}

#[test]
fn reads_fractions_of_a_unit() {
    assert_eq!(parse_media_name("oe_photo-l_3.5x5in"), Some((8890, 12700)));
    assert_eq!(parse_media_name("Custom.3.5x5in"), Some((8890, 12700)));
    assert_eq!(parse_media_name("CUSTOM.72x36.5"), Some((2540, 1288)));
    assert_eq!(parse_media_name("custom_48.5x.5mm"), Some((4850, 50)));
    assert_eq!(parse_media_name("custom_+48.x0.004mm"), Some((4800, 0)));
    assert_eq!(parse_media_name("custom_0.005x0.0149999mm"), Some((1, 1)));
    assert_eq!(parse_media_name("a.b_48x10mm"), Some((4800, 1000)));
    assert_eq!(parse_media_name("a.48x10mm"), None);
    assert_eq!(parse_media_name("custom_1.2.3x10mm"), None);
    assert_eq!(parse_media_name("custom_-5x10mm"), None);
    assert_eq!(parse_media_name("custom_0.000x10mm"), None);
    assert_eq!(parse_media_name("custom_.x10mm"), None);
}

#[test]
fn reads_powers_of_ten() {
    assert_eq!(parse_media_name("custom_1e3x10mm"), Some((100000, 1000)));
    assert_eq!(parse_media_name("custom_1.25E+1x2500e-2mm"), Some((1250, 2500)));
    assert_eq!(parse_media_name("custom_125e-1x1e-9mm"), Some((1250, 0)));
    assert_eq!(parse_media_name("custom_1e99999x1mm"), Some((i32::MAX, 100)));
    assert_eq!(
        parse_media_name("custom_1e-99999999999999999999999999999999999999999x1mm"),
        Some((0, 100))
    );
    assert_eq!(
        parse_media_name("custom_1e99999999999999999999999999999999999999999x1mm"),
        Some((i32::MAX, 100))
    );
    assert_eq!(parse_media_name("custom_infx10mm"), Some((i32::MAX, 1000)));
    assert_eq!(parse_media_name("custom_10xinfinityin"), Some((25400, i32::MAX)));
    assert_eq!(parse_media_name("custom_nanx10mm"), None);
    assert_eq!(parse_media_name("custom_1ex10mm"), None);
    assert_eq!(parse_media_name("custom_1e1.5x10mm"), None);
    assert_eq!(
        parse_media_name("custom_123456789012345678901234567890x1mm"),
        Some((i32::MAX, 100))
    );
}

#[test]
fn names_read_back() {
    for m in all() {
        assert_eq!(parse_media_name(m.name), Some((m.x_hmm, m.y_hmm)));
        assert_eq!(parse_media_name(&m.name.to_uppercase()), Some((m.x_hmm, m.y_hmm)));
    }
    for (w, h) in [(1, 1), (48, 297), (210, 21_474_836)] {
        assert_eq!(
            parse_media_name(&format!("custom_{w}x{h}mm")),
            Some((100 * w, 100 * h))
        );
    }
}
