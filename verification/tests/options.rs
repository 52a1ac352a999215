use catprinterd::ipp::codec::{
    parse, v_enum, v_int, v_kw, v_name, Coll, Group, Request, Resp, Status,
};
use catprinterd::ipp::options::JobOptions;
use catprinterd::ipp::value::Value;
use catprinterd::render::{Layout, Preset, RenderOptions, Tone};


fn req_with(job: Vec<(&str, Value)>) -> Request {
    let mut r = Resp::new(0x0200, Status::SuccessfulOk, 1);
    r.add(Group::OperationAttributes, "job-name", v_name("Homework"));
    r.add(
        Group::OperationAttributes,
        "requesting-user-name",
        v_name("kid"),
    );
    for (n, v) in job {
        r.add(Group::JobAttributes, n, v);
    }
    parse(&r.into_bytes()).unwrap()
}

#[test]
fn quality_maps_to_presets() {
    let base = RenderOptions::default();
    let o = JobOptions::from_request(&req_with(vec![("print-quality", v_enum(3))]), 10);
    let ro = o.render_options(&base, false);
    assert_eq!((ro.preset, ro.tone), (Preset::Text, Tone::BlackWhite));
    let o = JobOptions::from_request(&req_with(vec![("print-quality", v_enum(5))]), 10);
    let ro = o.render_options(&base, false);
    assert_eq!((ro.preset, ro.tone), (Preset::Picture, Tone::Grayscale));
    let o = JobOptions::from_request(
        &req_with(vec![
            ("print-quality", v_enum(5)),
            ("print-color-mode", v_kw("bi-level")),
        ]),
        10,
    );
    assert_eq!(o.render_options(&base, false).tone, Tone::BlackWhite);
    let o = JobOptions::from_request(
        &req_with(vec![("print-content-optimize", v_kw("photo"))]),
        10,
    );
    assert_eq!(o.render_options(&base, false).preset, Preset::Picture);
    let o = JobOptions::from_request(
        &req_with(vec![
            ("print-quality", v_enum(3)),
            ("print-content-optimize", v_kw("photo")),
        ]),
        10,
    );
    assert_eq!(
        o.render_options(&base, false).preset,
        Preset::Text,
        "quality wins over content-optimize"
    );
    let o = JobOptions::from_request(&req_with(vec![]), 10);
    assert_eq!(o.render_options(&base, true).layout, Layout::Tape);
    assert_eq!(o.job_name, "Homework");
    assert_eq!(o.user, "kid");
}

#[test]
fn copies_and_media() {
    let o = JobOptions::from_request(&req_with(vec![("copies", v_int(50))]), 10);
    assert_eq!(o.copies, 10);
    let mc = Coll::new()
        .add(
            "media-size",
            Coll::new()
                .add("x-dimension", v_int(21000))
                .add("y-dimension", v_int(29700))
                .build(),
        )
        .add("media-size-name", v_kw("iso_a4_210x297mm"))
        .build();
    let o = JobOptions::from_request(&req_with(vec![("media-col", mc)]), 10);
    assert_eq!(o.media.as_ref().unwrap().x_hmm, 21000);
    assert!(o.is_sheet_media());
    let o = JobOptions::from_request(
        &req_with(vec![("media", v_kw("custom_cat-tape_48x297mm"))]),
        10,
    );
    assert!(!o.is_sheet_media());
    let o = JobOptions::from_request(&req_with(vec![("orientation-requested", v_enum(4))]), 10);
    assert_eq!(o.ignored, vec!["orientation-requested"]);
}
