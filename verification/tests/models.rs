use catprinterd::models::classic::{energy_for, first_progress, last_progress, Stream, StreamStep};
use catprinterd::models::{detect, lookup, Family};
use catprinterd::printer::Phase;

#[test]
fn registry_lookup_is_case_insensitive() {
    assert_eq!(lookup("mxw01").unwrap().family, Family::Mxw01);
    assert_eq!(lookup(" GB03 ").unwrap().family, Family::Classic);
    assert!(lookup("Phomemo").is_none());
}

#[test]
fn detect_prefers_name_then_gatt_shape_then_force() {
    let d = detect(Some("GT01"), true, None);
    assert_eq!(d.family, Family::Classic);
    assert!(d.known);
    let d = detect(Some("CAT-9000"), true, None);
    assert_eq!(d.family, Family::Mxw01);
    assert!(!d.known);
    assert!(d.label.contains("unknown"));
    let d = detect(None, false, None);
    assert_eq!(d.family, Family::Classic);
    let d = detect(Some("MXW01"), true, Some(Family::Classic));
    assert_eq!(d.family, Family::Classic);
    assert!(!d.caps.grayscale_4bpp);
}

#[test]
fn energy_scales_and_clamps() {
    assert!(energy_for(0x5D) > 0x5000 && energy_for(0x5D) < 0x6000);
    assert_eq!(energy_for(0xFF), 0xFF00);
    assert_eq!(energy_for(0), 0x2000);
}

#[test]
fn family_names_read_back() {
    for f in [Family::Mxw01, Family::Classic] {
        assert_eq!(Family::parse(f.name()), Some(f));
    }
}

#[test]
fn classic_stream_goes_out_in_pieces() {
    let p = first_progress();
    assert_eq!((p.phase, p.percent, p.message.as_str()), (Phase::Printing, 5, "Sending image"));
    let mut s = Stream::new(50, 23);
    assert_eq!(s.next(false), StreamStep::Write { start: 0, end: 20 });
    assert_eq!(s.next(true), StreamStep::Cancelled);
    let p = s.wrote();
    assert_eq!((p.phase, p.percent, p.message.as_str()), (Phase::Printing, 41, "Printing"));
    assert_eq!(s.next(false), StreamStep::Write { start: 20, end: 40 });
    assert_eq!(s.wrote().percent, 77);
    assert_eq!(s.next(false), StreamStep::Write { start: 40, end: 50 });
    assert_eq!(s.wrote().percent, 95);
    assert_eq!(s.next(true), StreamStep::Sent);
    assert_eq!(Stream::new(0, 5).next(false), StreamStep::Sent);
    assert_eq!(Stream::new(500, 247).next(false), StreamStep::Write { start: 0, end: 244 });
    let p = last_progress();
    assert_eq!((p.phase, p.percent, p.message.as_str()), (Phase::Finishing, 100, "Printed"));
}
