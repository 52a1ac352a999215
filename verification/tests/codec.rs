use catprinterd::ipp::codec::{
    civil_from_unix, parse, utf8_prefix, v_array, v_charset, v_datetime, v_int, v_kw, v_lang, v_mime, v_name,
    v_range, v_res, v_text, v_unknown, v_uri, value_to_string, Coll, Group, ReqBuilder, Resp, Status,
};
use catprinterd::ipp::value::Value;
use catprinterd::ipp::OP_GET_PRINTER_ATTRIBUTES;

#[test]
fn civil_dates() {
    assert_eq!(civil_from_unix(0), (1970, 1, 1, 0, 0, 0));
    assert_eq!(civil_from_unix(951_782_400), (2000, 2, 29, 0, 0, 0));
    assert_eq!(civil_from_unix(1_786_752_000), (2026, 8, 15, 0, 0, 0));
}

#[test]
fn response_roundtrip_with_collections_and_groups() {
    let mut r = Resp::new(0x0200, Status::SuccessfulOk, 42);
    r.add(
        Group::PrinterAttributes,
        "printer-name",
        v_name("CatPrinter"),
    );
    r.add(Group::PrinterAttributes, "copies-supported", v_range(1, 99));
    r.add(
        Group::PrinterAttributes,
        "printer-geo-location",
        v_unknown(),
    );
    r.add(
        Group::PrinterAttributes,
        "printer-resolution-supported",
        v_res(203),
    );
    r.add(
        Group::PrinterAttributes,
        "media-col-database",
        v_array(vec![
            Coll::new()
                .add(
                    "media-size",
                    Coll::new()
                        .add("x-dimension", v_int(4800))
                        .add("y-dimension", v_int(29700))
                        .build(),
                )
                .add("media-source", v_kw("main"))
                .build(),
            Coll::new()
                .add(
                    "media-size",
                    Coll::new()
                        .add("x-dimension", v_int(21000))
                        .add("y-dimension", v_int(29700))
                        .build(),
                )
                .build(),
        ]),
    );
    {
        let g = r.push_group(Group::JobAttributes);
        g.add("job-id", v_int(1))
            .add("job-uri", v_uri("ipp://127.0.0.1:8095/ipp/print/1"));
    }
    {
        let g = r.push_group(Group::JobAttributes);
        g.add("job-id", v_int(2));
    }
    let bytes = r.into_bytes();
    let back = parse(&bytes).unwrap();
    assert_eq!(back.version, 0x0200);
    assert_eq!(back.op, 0);
    assert_eq!(back.request_id, 42);
    assert_eq!(
        back.get_str(Some(Group::PrinterAttributes), "printer-name")
            .as_deref(),
        Some("CatPrinter")
    );
    assert!(matches!(
        back.get(Some(Group::PrinterAttributes), "copies-supported"),
        Some(Value::RangeOfInteger { min: 1, max: 99 })
    ));
    assert!(matches!(
        back.get(Some(Group::PrinterAttributes), "printer-geo-location"),
        Some(Value::Other { tag: 0x12, .. })
    ));
    let db = back
        .get(Some(Group::PrinterAttributes), "media-col-database")
        .unwrap();
    match db {
        Value::Array(a) => assert_eq!(a.len(), 2),
        other => panic!("expected array, got {other:?}"),
    }
    assert!(
        matches!(back.get_member(Some(Group::PrinterAttributes), "media-col-database", "media-source"), Some(Value::Keyword(k)) if k.as_str() == "main")
    );
    let job_groups = back
        .groups
        .iter()
        .filter(|g| g.tag == Group::JobAttributes)
        .count();
    assert_eq!(job_groups, 2);
    assert!(back.payload.is_empty());
}

#[test]
fn parse_keeps_payload_and_operation_order() {
    let mut b = vec![1u8, 1, 0, 2, 0, 0, 0, 7, 0x01];
    fn attr(b: &mut Vec<u8>, tag: u8, name: &str, val: &str) {
        b.push(tag);
        b.extend((name.len() as u16).to_be_bytes());
        b.extend(name.as_bytes());
        b.extend((val.len() as u16).to_be_bytes());
        b.extend(val.as_bytes());
    }
    attr(&mut b, 0x47, "attributes-charset", "utf-8");
    attr(&mut b, 0x48, "attributes-natural-language", "en");
    attr(
        &mut b,
        0x45,
        "printer-uri",
        "ipp://127.0.0.1:8095/ipp/print",
    );
    b.push(0x03);
    b.extend(b"RaS2payload");
    let req = parse(&b).unwrap();
    assert_eq!(req.op, 2);
    assert_eq!(req.request_id, 7);
    assert_eq!(
        req.operation_attr_names(),
        vec![
            "attributes-charset",
            "attributes-natural-language",
            "printer-uri"
        ]
    );
    assert_eq!(&req.payload[..], b"RaS2payload");
    assert_eq!(req.first_group_tag(), Some(Group::OperationAttributes));
}

#[test]
fn truncation_is_char_boundary_safe() {
    let e = "é".repeat(600);
    for v in [
        v_name(&e),
        v_kw(&e),
        v_mime(&e),
        v_charset(&e),
        v_lang(&e),
        v_uri(&e),
    ] {
        let s = value_to_string(&v).unwrap();
        assert!(!s.is_empty());
        assert!(s.len() <= 1023, "{}", s.len());
        assert!(s.chars().all(|c| c == 'é'));
    }
    assert!(value_to_string(&v_name(&e)).unwrap().len() <= 255);
    let dash = "—".repeat(500);
    let t = value_to_string(&v_text(&dash)).unwrap();
    assert!(t.len() <= 1023 && t.len() >= 1020, "{}", t.len());
    assert!(t.chars().all(|c| c == '—'));
    assert_eq!(value_to_string(&v_text("héllo")).unwrap(), "héllo");
    assert_eq!(utf8_prefix("aé", 2), "a");
    assert_eq!(utf8_prefix("aé", 3), "aé");
    assert_eq!(utf8_prefix("", 0), "");
}

#[test]
fn req_builder_rejects_huge_uri() {
    let uri = format!("ipp://localhost/printers/{}", "q".repeat(2000));
    let e = ReqBuilder::new(OP_GET_PRINTER_ATTRIBUTES, &uri).unwrap_err();
    assert!(e.message().ends_with(", max: 1023"), "{}", e.message());
    assert!(ReqBuilder::new(
        OP_GET_PRINTER_ATTRIBUTES,
        "ipp://localhost/p"
    )
    .is_ok());
}

#[test]
fn every_kind_of_value_reads_back() {
    let values: Vec<Value> = vec![
        Value::Integer(-7),
        Value::Enum(3),
        Value::OctetString(vec![0, 255, 7]),
        Value::TextWithoutLanguage("héllo".into()),
        Value::NameWithoutLanguage("name".into()),
        Value::TextWithLanguage { language: "de".into(), text: "Katze".into() },
        Value::NameWithLanguage { language: "fr".into(), name: "chat".into() },
        Value::Charset("utf-8".into()),
        Value::NaturalLanguage("en".into()),
        Value::Uri("ipp://h/p".into()),
        Value::UriScheme("ipp".into()),
        Value::RangeOfInteger { min: -1, max: 9 },
        Value::Boolean(true),
        Value::Boolean(false),
        Value::Keyword("auto".into()),
        Value::MimeMediaType("image/png".into()),
        v_datetime(1_786_752_000),
        Value::Resolution { cross_feed: 203, feed: 406, units: 3 },
        Value::NoValue,
        Value::Other { tag: 0x12, data: vec![] },
        Value::Array(vec![Value::Enum(1), Value::Enum(2)]),
        Coll::new().add("b", v_int(1)).add("a", v_kw("x")).build(),
    ];
    for v in values {
        let shown = format!("{v:?}");
        let mut r = Resp::new(0x0200, Status::SuccessfulOk, 3);
        r.add(Group::PrinterAttributes, "x", v);
        let back = parse(&r.into_bytes()).unwrap();
        let got = back.get(Some(Group::PrinterAttributes), "x").unwrap();
        assert_eq!(format!("{got:?}"), shown);
    }
}

#[test]
fn dates_are_clamped() {
    assert_eq!(format!("{:?}", v_datetime(-5)), format!("{:?}", v_datetime(0)));
    match v_datetime(i64::MAX) {
        Value::DateTime(d) => {
            assert_eq!((d.year, d.month, d.day, d.hour, d.minutes, d.seconds), (65535, 12, 31, 23, 59, 59))
        }
        other => panic!("{other:?}"),
    }
}

#[test]
fn request_uris_are_canonical() {
    let b = ReqBuilder::new(OP_GET_PRINTER_ATTRIBUTES, "http://me:pw@localhost:631/printers/x?wait=1")
        .unwrap()
        .into_bytes();
    let r = parse(&b).unwrap();
    assert_eq!((r.version, r.op, r.request_id), (0x0200, OP_GET_PRINTER_ATTRIBUTES, 1));
    assert_eq!(
        r.get_str(Some(Group::OperationAttributes), "printer-uri").as_deref(),
        Some("ipp://localhost:631/printers/x")
    );
    let b = ReqBuilder::new(OP_GET_PRINTER_ATTRIBUTES, "not a uri").unwrap().into_bytes();
    assert!(parse(&b).unwrap().get(None, "printer-uri").is_none());
}

#[test]
fn unreadable_messages_say_why() {
    assert_eq!(parse(b"abc").unwrap_err().message(), "malformed IPP request: shorter than an IPP header");
    let mut b = vec![2u8, 0, 0, 0x0b, 0, 0, 0, 1, 1];
    b.extend([0x7f]);
    assert!(parse(&b).unwrap_err().message().contains("Invalid tag: 127"));
    let mut b = vec![2u8, 0, 0, 0x0b, 0, 0, 0, 1, 1];
    b.extend([0x42, 0, 1, b'x', 0, 1, 0xff, 3]);
    let r = parse(&b).unwrap();
    assert!(matches!(r.get(None, "x"), Some(Value::NonUtf8 { tag: 0x42, .. })));
}

#[test]
fn answers_keep_to_the_two_version_families() {
    let version = |v: u16| {
        let b = Resp::new(v, Status::SuccessfulOk, 7).into_bytes();
        u16::from_be_bytes([b[0], b[1]])
    };
    assert_eq!(version(0x0100), 0x0100);
    assert_eq!(version(0x0101), 0x0101);
    assert_eq!(version(0x0202), 0x0202);
    assert_eq!(version(0x0300), 0x0101);
    assert_eq!(version(0x0000), 0x0101);
}
