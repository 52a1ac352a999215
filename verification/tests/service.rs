use std::io::Write;

use catprinterd::engine::run::{AttemptEnd, JobRun, RunStep};
use catprinterd::engine::{Engine, EngineConfig, JobState, Now, Work};
use catprinterd::http::{BodyReader, BodyStep};
use catprinterd::ipp::codec::{
    parse, v_charset, v_enum, v_int, v_kw, v_kws, v_lang, v_mime, v_name, v_text, v_uri, Coll, Group,
    Request,
};
use catprinterd::ipp::media;
use catprinterd::ipp::service::{IppOutcome, IppService};
use catprinterd::ipp::value::Value;
use catprinterd::ipp::{
    PrinterConfig, OP_CANCEL_JOB, OP_CANCEL_MY_JOBS, OP_CLOSE_JOB, OP_CREATE_JOB,
    OP_GET_JOBS, OP_GET_JOB_ATTRIBUTES, OP_GET_PRINTER_ATTRIBUTES, OP_IDENTIFY_PRINTER, OP_PRINT_JOB,
    OP_SEND_DOCUMENT, OP_VALIDATE_JOB,
};
use catprinterd::printer::PrintReport;
use catprinterd::render::{Layout, Preset, Tone};

const NOW: Now = Now { ms: 5_000, unix: 1_800_000_000 };

fn service_with(cfg: EngineConfig) -> IppService {
    let engine = Engine::start(cfg, 1, 1_800_000_000);
    let cfg = PrinterConfig {
        name: "CatPrinter".into(),
        info: "Cat Printer".into(),
        location: "here".into(),
        make_model: "Cat Printer MXW01".into(),
        model_label: "MXW01".into(),
        host: "127.0.0.1".into(),
        port: 8095,
        uuid: "urn:uuid:12345678-1234-5678-1234-567812345678".into(),
        resolutions: vec![203],
        max_document_kb: 65536,
        max_copies: 10,
        started: 1_800_000_000,
    };
    IppService::new(engine, cfg)
}

fn service() -> IppService {
    service_with(EngineConfig::default())
}

fn field(b: &mut Vec<u8>, tag: u8, name: &str, value: &[u8]) {
    b.push(tag);
    b.extend((name.len() as u16).to_be_bytes());
    b.extend(name.as_bytes());
    b.extend((value.len() as u16).to_be_bytes());
    b.extend(value);
}

fn attr(b: &mut Vec<u8>, name: &str, v: &Value) {
    match v {
        Value::Integer(i) => field(b, 0x21, name, &i.to_be_bytes()),
        Value::Boolean(t) => field(b, 0x22, name, &[*t as u8]),
        Value::Enum(i) => field(b, 0x23, name, &i.to_be_bytes()),
        Value::TextWithoutLanguage(s) => field(b, 0x41, name, s.as_bytes()),
        Value::NameWithoutLanguage(s) => field(b, 0x42, name, s.as_bytes()),
        Value::Keyword(s) => field(b, 0x44, name, s.as_bytes()),
        Value::Uri(s) => field(b, 0x45, name, s.as_bytes()),
        Value::Charset(s) => field(b, 0x47, name, s.as_bytes()),
        Value::NaturalLanguage(s) => field(b, 0x48, name, s.as_bytes()),
        Value::MimeMediaType(s) => field(b, 0x49, name, s.as_bytes()),
        Value::Array(vs) => {
            for (i, v) in vs.iter().enumerate() {
                attr(b, if i == 0 { name } else { "" }, v);
            }
        }
        Value::Collection(ms) => {
            field(b, 0x34, name, b"");
            for (n, v) in ms {
                field(b, 0x4a, "", n.as_bytes());
                attr(b, "", v);
            }
            field(b, 0x37, "", b"");
        }
        other => panic!("no encoding for {other:?}"),
    }
}

fn build_req(version: u16, op: u16, id: i32, ops: Vec<(&str, Value)>, payload: &[u8]) -> Vec<u8> {
    build_job(version, op, id, ops, vec![], payload)
}

fn build_job(
    version: u16,
    op: u16,
    id: i32,
    ops: Vec<(&str, Value)>,
    job: Vec<(&str, Value)>,
    payload: &[u8],
) -> Vec<u8> {
    let mut b = Vec::new();
    b.extend(version.to_be_bytes());
    b.extend(op.to_be_bytes());
    b.extend(id.to_be_bytes());
    b.push(0x01);
    for (n, v) in &ops {
        attr(&mut b, n, v);
    }
    if !job.is_empty() {
        b.push(0x02);
        for (n, v) in &job {
            attr(&mut b, n, v);
        }
    }
    b.push(0x03);
    b.extend(payload);
    b
}

fn std_ops<'a>(more: Vec<(&'a str, Value)>) -> Vec<(&'a str, Value)> {
    let mut v = vec![
        ("attributes-charset", v_charset("utf-8")),
        ("attributes-natural-language", v_lang("en")),
        ("printer-uri", v_uri("ipp://127.0.0.1:8095/ipp/print")),
    ];
    v.extend(more);
    v
}

fn status_of(bytes: &[u8]) -> u16 {
    u16::from_be_bytes([bytes[2], bytes[3]])
}

fn ask(svc: &mut IppService, req: Vec<u8>) -> IppOutcome {
    let out = svc.handle(&req, true, NOW);
    assert_eq!(out.http_status, 200);
    out
}

fn back(out: &IppOutcome) -> Request {
    parse(&out.body).unwrap()
}

fn word(w: &mut [u8], at: usize, v: u32) {
    w[at..at + 4].copy_from_slice(&v.to_be_bytes());
}

/// A raster of one page of `h` lines of the tape's width, with a black bar at the left.
fn raster(h: u32) -> Vec<u8> {
    let mut head = vec![0u8; 1796];
    for (at, v) in [
        (276, 203),
        (280, 203),
        (372, 384),
        (376, h),
        (384, 8),
        (388, 8),
        (392, 384),
        (400, 18),
    ] {
        word(&mut head, at, v);
    }
    let mut b = b"RaS2".to_vec();
    b.extend(head);
    for _ in 0..h {
        b.push(0);
        b.extend([127, 0, 127, 255, 127, 255]);
    }
    b
}

#[test]
fn validation_rules() {
    let mut svc = service();
    // request-id 0
    let out = ask(&mut svc, build_req(0x0101, OP_GET_PRINTER_ATTRIBUTES, 0, std_ops(vec![]), b""));
    assert_eq!(status_of(&out.body), 0x0400);
    // version 0.0
    let out = ask(&mut svc, build_req(0x0000, OP_GET_PRINTER_ATTRIBUTES, 1, std_ops(vec![]), b""));
    assert_eq!(status_of(&out.body), 0x0503);
    // wrong order
    let out = ask(
        &mut svc,
        build_req(
            0x0101,
            OP_GET_PRINTER_ATTRIBUTES,
            1,
            vec![
                ("attributes-natural-language", v_lang("en")),
                ("attributes-charset", v_charset("utf-8")),
                ("printer-uri", v_uri("ipp://x/ipp/print")),
            ],
            b"",
        ),
    );
    assert_eq!(status_of(&out.body), 0x0400);
    // no printer-uri
    let out = ask(
        &mut svc,
        build_req(
            0x0101,
            OP_GET_PRINTER_ATTRIBUTES,
            1,
            vec![
                ("attributes-charset", v_charset("utf-8")),
                ("attributes-natural-language", v_lang("en")),
            ],
            b"",
        ),
    );
    assert_eq!(status_of(&out.body), 0x0400);
    // unknown op
    let out = ask(&mut svc, build_req(0x0200, 0x0010, 1, std_ops(vec![]), b""));
    assert_eq!(status_of(&out.body), 0x0501);
    // good
    let out = ask(
        &mut svc,
        build_req(
            0x0200,
            OP_GET_PRINTER_ATTRIBUTES,
            1,
            std_ops(vec![("requested-attributes", v_kws(&["all", "media-col-database"]))]),
            b"",
        ),
    );
    assert_eq!(status_of(&out.body), 0x0000);
    let r = back(&out);
    assert!(r.get(Some(Group::PrinterAttributes), "media-col-database").is_some());
    assert_eq!(
        r.get_strs(Some(Group::PrinterAttributes), "ipp-features-supported"),
        vec!["ipp-everywhere"]
    );
    assert!(r
        .get_ints(Some(Group::PrinterAttributes), "operations-supported")
        .contains(&0x3C));
    // requested-attributes filter
    let out = ask(
        &mut svc,
        build_req(
            0x0101,
            OP_GET_PRINTER_ATTRIBUTES,
            1,
            std_ops(vec![("requested-attributes", v_kw("printer-uri-supported"))]),
            b"",
        ),
    );
    let r = back(&out);
    assert!(r.get(Some(Group::PrinterAttributes), "printer-uri-supported").is_some());
    assert!(r.get(Some(Group::PrinterAttributes), "printer-name").is_none());
    assert!(r.get(Some(Group::PrinterAttributes), "media-col-database").is_none());
}

fn database_xy(r: &Request, name: &str) -> Option<(i32, i32)> {
    let entries = match r.get(Some(Group::PrinterAttributes), "media-col-database") {
        Some(Value::Array(a)) => a,
        _ => return None,
    };
    let find = |ms: &Vec<(String, Value)>, k: &str| {
        ms.iter().position(|(n, _)| n == k)
    };
    for e in entries {
        if let Value::Collection(ms) = e {
            let named = find(ms, "media-size-name").map(|i| &ms[i].1);
            if !matches!(named, Some(Value::Keyword(k)) if k == name) {
                continue;
            }
            if let Some(Value::Collection(size)) = find(ms, "media-size").map(|i| &ms[i].1) {
                let x = find(size, "x-dimension").map(|i| &size[i].1);
                let y = find(size, "y-dimension").map(|i| &size[i].1);
                if let (Some(Value::Integer(x)), Some(Value::Integer(y))) = (x, y) {
                    return Some((*x, *y));
                }
            }
        }
    }
    None
}

#[test]
fn document_and_tone_attributes() {
    let mut svc = service();
    let out = ask(
        &mut svc,
        build_req(
            0x0200,
            OP_GET_PRINTER_ATTRIBUTES,
            1,
            std_ops(vec![("requested-attributes", v_kws(&["all", "media-col-database"]))]),
            b"",
        ),
    );
    assert_eq!(status_of(&out.body), 0x0000);
    let r = back(&out);
    let colors = r.get_strs(Some(Group::PrinterAttributes), "print-color-mode-supported");
    assert!(colors.iter().any(|c| c == "bi-level") && colors.iter().any(|c| c == "monochrome"));
    assert_eq!(
        r.get_str(Some(Group::PrinterAttributes), "print-color-mode-default").as_deref(),
        Some("bi-level")
    );
    assert_eq!(
        r.get_strs(Some(Group::PrinterAttributes), "pwg-raster-document-type-supported"),
        vec!["sgray_8"]
    );
    assert_eq!(
        r.get_ints(Some(Group::PrinterAttributes), "print-quality-supported"),
        vec![3, 4, 5]
    );
    let a4 = media::a4();
    let letter = media::letter();
    assert_eq!(database_xy(&r, a4.name), Some((a4.x_hmm, a4.y_hmm)));
    assert_eq!(database_xy(&r, letter.name), Some((letter.x_hmm, letter.y_hmm)));
    assert_eq!(
        r.get_str(Some(Group::PrinterAttributes), "printer-uuid").as_deref(),
        Some("urn:uuid:12345678-1234-5678-1234-567812345678")
    );
}

#[test]
fn minidoc_a4_fake_job_keeps_default_style_and_sheet() {
    let mut svc = service();
    let a4 = media::a4();
    let mc = Coll::new()
        .add(
            "media-size",
            Coll::new()
                .add("x-dimension", v_int(a4.x_hmm))
                .add("y-dimension", v_int(a4.y_hmm))
                .build(),
        )
        .add("media-size-name", v_kw(a4.name))
        .build();
    let body = build_job(
        0x0200,
        OP_PRINT_JOB,
        1,
        std_ops(vec![
            ("document-format", v_mime("image/pwg-raster")),
            ("job-name", v_name("Homework")),
        ]),
        vec![
            ("media-col", mc),
            ("print-quality", v_enum(4)),
            ("print-color-mode", v_kw("bi-level")),
        ],
        &raster(4),
    );
    let out = ask(&mut svc, body);
    assert_eq!(status_of(&out.body), 0x0000, "Print-Job rejected");
    let id = match out.work {
        Some(Work::Print(id)) => id,
        other => panic!("no work: {other:?}"),
    };
    let start = svc.engine.store.take(id, false, NOW).unwrap();
    assert_eq!(start.render.preset, Preset::Default);
    assert_eq!(start.render.layout, Layout::Sheet);
    assert_eq!(start.render.width_px, 384);
    assert_eq!(start.render.tone, Tone::BlackWhite);
    assert_eq!(start.name, "Homework");
}

#[test]
fn print_job_lifecycle_with_fake_printer() {
    let mut svc = service();
    // Unsupported format
    let out = ask(
        &mut svc,
        build_req(
            0x0101,
            OP_PRINT_JOB,
            5,
            std_ops(vec![("document-format", v_mime("application/pdf"))]),
            b"%PDF-1.4",
        ),
    );
    assert_eq!(status_of(&out.body), 0x040A);
    // Garbage bytes with octet-stream
    let out = ask(
        &mut svc,
        build_req(
            0x0101,
            OP_PRINT_JOB,
            6,
            std_ops(vec![("document-format", v_mime("application/octet-stream"))]),
            b"hello",
        ),
    );
    assert_eq!(status_of(&out.body), 0x040A);
    // Get-Jobs default: no jobs yet
    let out = ask(&mut svc, build_req(0x0101, OP_GET_JOBS, 7, std_ops(vec![]), b""));
    assert_eq!(status_of(&out.body), 0x0000);
    // Create-Job + Send-Document without last-document: bad request
    let out = ask(
        &mut svc,
        build_req(0x0101, OP_CREATE_JOB, 8, std_ops(vec![("job-name", v_name("j"))]), b""),
    );
    let r = back(&out);
    let id = r.get_int(Some(Group::JobAttributes), "job-id").unwrap();
    assert_eq!(r.get_int(Some(Group::JobAttributes), "job-state"), Some(3));
    let out = ask(
        &mut svc,
        build_req(0x0101, OP_SEND_DOCUMENT, 9, std_ops(vec![("job-id", v_int(id))]), b"RaS2"),
    );
    assert_eq!(status_of(&out.body), 0x0400);
    // Cancel it
    let cancel = |n: i32, id: i32| {
        build_req(0x0101, OP_CANCEL_JOB, n, std_ops(vec![("job-id", v_int(id))]), b"")
    };
    let out = ask(&mut svc, cancel(10, id));
    assert_eq!(status_of(&out.body), 0x0000);
    let out = ask(&mut svc, cancel(11, id));
    assert_eq!(status_of(&out.body), 0x0404, "cancel of terminal job → not-possible");
    let out = ask(&mut svc, cancel(12, 999));
    assert_eq!(status_of(&out.body), 0x0406);
    // Get-Jobs completed lists it, default attrs = job-id, job-uri only
    let out = ask(
        &mut svc,
        build_req(
            0x0101,
            OP_GET_JOBS,
            13,
            std_ops(vec![("which-jobs", v_kw("completed"))]),
            b"",
        ),
    );
    let r = back(&out);
    assert_eq!(r.get_int(Some(Group::JobAttributes), "job-id"), Some(id));
    assert!(r.get(Some(Group::JobAttributes), "job-state").is_none());
    // Get-Job-Attributes: full set
    let out = ask(
        &mut svc,
        build_req(0x0101, OP_GET_JOB_ATTRIBUTES, 14, std_ops(vec![("job-id", v_int(id))]), b""),
    );
    let r = back(&out);
    assert_eq!(r.get_int(Some(Group::JobAttributes), "job-state"), Some(7));
    assert!(r.get(Some(Group::JobAttributes), "job-printer-up-time").is_some());
    // Identify with unsupported action
    let out = ask(
        &mut svc,
        build_req(
            0x0101,
            OP_IDENTIFY_PRINTER,
            15,
            std_ops(vec![("identify-actions", v_kw("sound"))]),
            b"",
        ),
    );
    assert_eq!(status_of(&out.body), 0x0001);
    let out = ask(&mut svc, build_req(0x0101, OP_IDENTIFY_PRINTER, 16, std_ops(vec![]), b""));
    assert_eq!(status_of(&out.body), 0x0000);
    // Validate-Job ok
    let out = ask(
        &mut svc,
        build_req(
            0x0101,
            OP_VALIDATE_JOB,
            17,
            std_ops(vec![("document-format", v_mime("image/pwg-raster"))]),
            b"",
        ),
    );
    assert_eq!(status_of(&out.body), 0x0000);
    // Cancel-My-Jobs / Close-Job on unknown job
    let out = ask(
        &mut svc,
        build_req(
            0x0101,
            OP_CANCEL_MY_JOBS,
            18,
            std_ops(vec![("requesting-user-name", v_name("kid"))]),
            b"",
        ),
    );
    assert_eq!(status_of(&out.body), 0x0000);
    let out = ask(
        &mut svc,
        build_req(0x0101, OP_CLOSE_JOB, 19, std_ops(vec![("job-id", v_int(4242))]), b""),
    );
    assert_eq!(status_of(&out.body), 0x0406);
}

#[test]
fn long_multibyte_job_name_does_not_panic() {
    let mut svc = service();
    // longer than the 255-byte name limit, and every 255-byte cut lands inside a 2-byte char
    let long = "é".repeat(400);
    let out = ask(
        &mut svc,
        build_req(
            0x0200,
            OP_PRINT_JOB,
            21,
            std_ops(vec![
                ("requesting-user-name", v_name("kid")),
                ("job-name", v_text(&long)),
                ("document-format", v_mime("image/pwg-raster")),
            ]),
            &raster(4),
        ),
    );
    assert_eq!(status_of(&out.body), 0x0000);
    let echoed = back(&out).get_str(Some(Group::JobAttributes), "job-name").unwrap();
    assert!(echoed.len() <= 255 && echoed.chars().all(|c| c == 'é'));
}

#[test]
fn crate_parser_panic_is_contained() {
    let mut svc = service();
    // textWithLanguage whose inner language length exceeds the value
    let mut b = build_req(0x0200, OP_GET_PRINTER_ATTRIBUTES, 9, std_ops(vec![]), b"");
    b.pop();
    field(&mut b, 0x35, "job-name", &[0x00, 0x05, b'e', b'n']); // claims 5 language bytes, has 2
    b.push(0x03);
    let out = svc.handle(&b, true, NOW);
    assert_eq!(out.http_status, 200);
    assert_eq!(status_of(&out.body), 0x0400);
}

fn gzip(data: &[u8]) -> Vec<u8> {
    let mut e = flate2::write::GzEncoder::new(Vec::new(), flate2::Compression::default());
    e.write_all(data).unwrap();
    e.finish().unwrap()
}

fn zlib(data: &[u8]) -> Vec<u8> {
    let mut e = flate2::write::ZlibEncoder::new(Vec::new(), flate2::Compression::default());
    e.write_all(data).unwrap();
    e.finish().unwrap()
}

fn raw_deflate(data: &[u8]) -> Vec<u8> {
    let mut e = flate2::write::DeflateEncoder::new(Vec::new(), flate2::Compression::default());
    e.write_all(data).unwrap();
    e.finish().unwrap()
}

fn packed_job(id: i32, how: &str, doc: &[u8]) -> Vec<u8> {
    build_req(
        0x0200,
        OP_PRINT_JOB,
        id,
        std_ops(vec![
            ("compression", v_kw(how)),
            ("document-format", v_mime("image/pwg-raster")),
        ]),
        doc,
    )
}

#[test]
fn gzip_bomb_is_rejected_with_request_value_too_long() {
    let mut svc =
        service_with(EngineConfig { max_document_bytes: 1024 * 1024, ..EngineConfig::default() });
    let bomb = gzip(&vec![0u8; 8 * 1024 * 1024]);
    assert!(bomb.len() < 64 * 1024);
    let out = ask(&mut svc, packed_job(31, "gzip", &bomb));
    assert_eq!(status_of(&out.body), 0x0409);
    // deflate path too
    let z = zlib(&vec![0u8; 8 * 1024 * 1024]);
    let out = ask(&mut svc, packed_job(32, "deflate", &z));
    assert_eq!(status_of(&out.body), 0x0409);
    assert!(svc.engine.store.jobs.is_empty());
}

fn report() -> PrintReport {
    PrintReport {
        model: "MXW01 (fake)".into(),
        family: None,
        lines: 100,
        segments: 1,
        copies: 1,
        complete_confirmed: true,
        mtu: None,
        battery: None,
        elapsed_ms: 5,
    }
}

#[test]
fn gzip_pwg_roundtrip_prints() {
    let mut svc = service();
    let doc = raster(4);
    let out = ask(&mut svc, packed_job(41, "gzip", &gzip(&doc)));
    assert_eq!(status_of(&out.body), 0x0000);
    let id = back(&out).get_int(Some(Group::JobAttributes), "job-id").unwrap();
    assert_eq!(out.work, Some(Work::Print(id as u32)));
    let start = svc.engine.store.take(id as u32, false, NOW).unwrap();
    assert_eq!(start.doc, doc);
    let mut run = JobRun::new(id as u32, NOW);
    run.begin_attempt();
    match run.attempt_ended(&mut svc.engine.store, AttemptEnd::Finished(Ok(report())), false, NOW) {
        RunStep::Over(o) => svc.engine.store.conclude(&run, &o, false, NOW),
        RunStep::Pause { .. } => panic!("no pause after success"),
    }
    let out = ask(
        &mut svc,
        build_req(0x0200, OP_GET_JOB_ATTRIBUTES, 42, std_ops(vec![("job-id", v_int(id))]), b""),
    );
    assert_eq!(back(&out).get_int(Some(Group::JobAttributes), "job-state"), Some(9));
}

#[test]
fn deflate_comes_with_and_without_its_header() {
    let doc = raster(2);
    for packed in [zlib(&doc), raw_deflate(&doc)] {
        let mut svc = service();
        let out = ask(&mut svc, packed_job(41, "deflate", &packed));
        assert_eq!(status_of(&out.body), 0x0000);
        assert_eq!(svc.engine.store.jobs[&1].doc.as_deref(), Some(doc.as_slice()));
    }
    let mut svc = service();
    let out = ask(&mut svc, packed_job(42, "gzip", b"not gzip"));
    assert_ne!(status_of(&out.body), 0x0000);
    assert!(svc.engine.store.jobs.is_empty());
    let out = ask(&mut svc, packed_job(43, "lzma", &doc));
    assert_eq!(status_of(&out.body), 0x040F);
}

#[test]
fn job_uuid_is_derived_from_its_uri() {
    let mut svc = service();
    let out = ask(&mut svc, packed_job(5, "none", &raster(2)));
    let id = back(&out).get_int(Some(Group::JobAttributes), "job-id").unwrap();
    let out = ask(
        &mut svc,
        build_req(0x0200, OP_GET_JOB_ATTRIBUTES, 6, std_ops(vec![("job-id", v_int(id))]), b""),
    );
    let ns = uuid::Uuid::NAMESPACE_URL;
    let name = format!("ipp://127.0.0.1:8095/ipp/print/{id}");
    let want = format!("urn:uuid:{}", uuid::Uuid::new_v5(&ns, name.as_bytes()));
    assert_eq!(
        back(&out).get_str(Some(Group::JobAttributes), "job-uuid"),
        Some(want)
    );
}

#[test]
fn answers_echo_version_and_id() {
    let mut svc = service();
    for (version, id) in [(0x0101u16, 7), (0x0200, 99)] {
        let out = ask(&mut svc, build_req(version, OP_GET_JOBS, id, std_ops(vec![]), b""));
        let r = back(&out);
        assert_eq!((r.version, r.request_id), (version, id));
        assert_eq!(r.first_group_tag(), Some(Group::OperationAttributes));
        assert_eq!(
            r.operation_attr_names()[..2],
            ["attributes-charset".to_string(), "attributes-natural-language".to_string()]
        );
    }
}

#[test]
fn unreadable_bodies() {
    let mut svc = service();
    let out = svc.handle(b"abc", true, NOW);
    assert_eq!(out.http_status, 400);
    // a good header with a broken rest is answered in kind
    let mut b = vec![2u8, 0, 0, 0x0b, 0, 0, 0, 9, 1];
    b.extend([0x47, 0xff]);
    let out = svc.handle(&b, true, NOW);
    assert_eq!(out.http_status, 200);
    assert_eq!(status_of(&out.body), 0x0400);
    assert_eq!(out.body[4..8], [0, 0, 0, 9]);
}

#[test]
fn refused_requests_change_nothing() {
    let mut svc = service();
    ask(&mut svc, packed_job(1, "none", &raster(2)));
    let before = svc.engine.store.jobs.len();
    let out = ask(
        &mut svc,
        build_req(
            0x0101,
            OP_PRINT_JOB,
            5,
            std_ops(vec![("document-format", v_mime("application/pdf"))]),
            &raster(2),
        ),
    );
    assert_eq!(status_of(&out.body), 0x040A);
    assert_eq!(svc.engine.store.jobs.len(), before);
    assert_eq!(out.work, None);
    let out = ask(&mut svc, build_req(0x0101, OP_PRINT_JOB, 5, std_ops(vec![]), b""));
    assert_eq!(status_of(&out.body), 0x0400);
}

#[test]
fn busy_and_stopping_printers_say_so() {
    let mut svc = service_with(EngineConfig { queue_max: 1, ..EngineConfig::default() });
    ask(&mut svc, packed_job(1, "none", &raster(2)));
    let out = ask(&mut svc, packed_job(2, "none", &raster(2)));
    assert_eq!(status_of(&out.body), 0x0507);
    svc.engine.begin_shutdown(NOW);
    let out = ask(&mut svc, packed_job(3, "none", &raster(2)));
    assert_eq!(status_of(&out.body), 0x0507);
}

#[test]
fn created_job_takes_a_document_once() {
    let mut svc = service();
    let out = ask(&mut svc, build_req(0x0200, OP_CREATE_JOB, 1, std_ops(vec![]), b""));
    assert_eq!(out.work, None);
    let id = back(&out).get_int(Some(Group::JobAttributes), "job-id").unwrap();
    let send = |n: i32| {
        build_req(
            0x0200,
            OP_SEND_DOCUMENT,
            n,
            std_ops(vec![("job-id", v_int(id)), ("last-document", Value::Boolean(true))]),
            &raster(3),
        )
    };
    let out = ask(&mut svc, send(2));
    assert_eq!(status_of(&out.body), 0x0000);
    assert_eq!(out.work, Some(Work::Print(id as u32)));
    let out = ask(&mut svc, send(3));
    assert_ne!(status_of(&out.body), 0x0000);
    assert_eq!(out.work, None);
    assert_eq!(svc.engine.store.jobs[&(id as u32)].state, JobState::Pending);
}

#[test]
fn streaming_send_document_slower_than_stale_window_prints() {
    let mut svc =
        service_with(EngineConfig { stale_document_ms: 200, ..EngineConfig::default() });
    let at = |ms: u64| Now { ms, unix: 1_800_000_000 };
    let create = build_req(
        0x0200,
        OP_CREATE_JOB,
        1,
        std_ops(vec![("document-format", v_mime("image/pwg-raster"))]),
        b"",
    );
    let out = svc.handle(&create, true, at(0));
    let id = back(&out).get_int(Some(Group::JobAttributes), "job-id").unwrap();
    let doc = raster(400);
    let msg = build_req(
        0x0200,
        OP_SEND_DOCUMENT,
        2,
        std_ops(vec![("job-id", v_int(id)), ("last-document", Value::Boolean(true))]),
        &doc,
    );
    // the attributes first, then the document in chunks, slower than the stale window
    let mut reader = BodyReader::new(2 * 1024 * 1024, 60_000, 0);
    let mut now = 0;
    let mut touched = 0;
    let mut off = 0;
    while off < msg.len() {
        let end = (off + 1000).min(msg.len());
        match reader.frame(&msg[off..end], now) {
            BodyStep::Touch(j) => {
                assert_eq!(j, id as u32);
                touched += 1;
                svc.engine.touch(j, at(now));
                svc.engine.store.tick(at(now + 120));
            }
            BodyStep::More => {}
            other => panic!("{other:?}"),
        }
        off = end;
        now += 2500;
    }
    assert!(touched >= 1);
    let out = svc.handle(&reader.buf, true, at(now));
    assert_eq!(status_of(&out.body), 0x0000);
    assert_eq!(out.work, Some(Work::Print(id as u32)));
    assert_eq!(svc.engine.store.jobs[&(id as u32)].doc.as_deref(), Some(doc.as_slice()));
}

#[test]
fn history_is_kept() {
    let mut svc = service();
    let out = ask(&mut svc, packed_job(1, "none", &raster(2)));
    let id = back(&out).get_int(Some(Group::JobAttributes), "job-id").unwrap();
    let cancel = build_req(0x0200, OP_CANCEL_JOB, 2, std_ops(vec![("job-id", v_int(id))]), b"");
    ask(&mut svc, cancel);
    let before = format!("{:?}", svc.engine.store.jobs[&(id as u32)]);
    ask(&mut svc, packed_job(3, "none", &raster(2)));
    ask(
        &mut svc,
        build_req(
            0x0200,
            OP_CANCEL_MY_JOBS,
            4,
            std_ops(vec![("requesting-user-name", v_name("anonymous"))]),
            b"",
        ),
    );
    assert_eq!(before, format!("{:?}", svc.engine.store.jobs[&(id as u32)]));
    assert_eq!(svc.engine.store.jobs.len(), 2);
    assert_eq!(svc.engine.store.next_id, id as u32 + 2);
}
