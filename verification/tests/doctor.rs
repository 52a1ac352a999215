use catprinterd::ble::bluez::{Objects, Props, IFACE_DEVICE};
use catprinterd::ble::host::{collect_host_facts, UsbEntry};
use catprinterd::ble::objects::Prop;
use catprinterd::doctor::{
    autosuspend_from_facts, bluetooth_blocked, connect_transport, device_snapshot_from_objects,
    health_version, is_le_address_type, offers_connect_device, parse_lpstat_d, parse_lpstat_v,
    response_body, rssi_for_report, uri_points_at_port, DeviceSnapshot, DoctorFacts, DoctorReport,
    RfkillEntry,
};

fn facts() -> DoctorFacts {
    DoctorFacts {
        port: 8095,
        queue: "CatPrinter".into(),
        adopted_address: Some("AA:BB:CC:DD:EE:FF".into()),
        experimental: true,
        adapter: Some(("/org/bluez/hci0".into(), true)),
        connect_device: Some(true),
        device: DeviceSnapshot {
            trusted: true,
            connected: false,
            rssi: Some(-40),
            address_type: Some("Public".into()),
        },
        blocked: Some(false),
        autosuspend: Some(false),
        lpstat_v: "device for CatPrinter: ipp://127.0.0.1:8095/ipp/print\n".into(),
        lpstat_d: "system default destination: Office\n".into(),
        daemon_version: Some("0.2.6".into()),
    }
}

#[test]
fn report_has_the_facts() {
    let r = DoctorReport::from_facts(facts());
    assert!(r.adopted);
    assert!(r.trusted_le);
    assert_eq!(r.connect_transport, "le");
    assert!(r.connect_device);
    assert!(r.experimental);
    assert!(r.queue_present);
    assert_eq!(r.queue_uri.as_deref(), Some("ipp://127.0.0.1:8095/ipp/print"));
    assert!(r.queue_points_at_daemon);
    assert!(!r.queue_is_default);
    assert_eq!(r.port, 8095);
    assert!(r.daemon_up);
    assert_eq!(r.adapter_powered, Some(true));
    assert_eq!(r.rssi, None);
    let lines = r.prose();
    assert_eq!(lines[0], ("adopted", "AA:BB:CC:DD:EE:FF (trusted LE)".into()));
    assert_eq!(lines[1], ("connect", "le (ConnectDevice available)".into()));
    assert_eq!(
        lines[3],
        ("queue", "CatPrinter → ipp://127.0.0.1:8095/ipp/print".into())
    );
    assert_eq!(lines[4], ("daemon", "up (0.2.6) on :8095".into()));
    assert_eq!(lines[5], ("adapter", "powered, unblocked, autosuspend=off".into()));
    assert_eq!(lines[6], ("rssi", "(omitted — no live reading)".into()));
}

#[test]
fn report_of_nothing() {
    let r = DoctorReport::from_facts(DoctorFacts {
        adopted_address: None,
        experimental: false,
        adapter: None,
        connect_device: None,
        device: DeviceSnapshot::default(),
        blocked: None,
        autosuspend: None,
        lpstat_v: String::new(),
        lpstat_d: "system default destination: catprinter\n".into(),
        daemon_version: None,
        ..facts()
    });
    assert_eq!(r.connect_transport, "classic");
    assert!(r.queue_is_default);
    let lines = r.prose();
    assert_eq!(lines[0].1, "no");
    assert_eq!(lines[3].1, "CatPrinter missing");
    assert_eq!(lines[4].1, "down on :8095");
    assert_eq!(lines[5].1, "unknown, block unknown, autosuspend unknown");
}

#[test]
fn stale_rssi_is_omitted_live_or_held_is_kept() {
    assert_eq!(rssi_for_report(false, Some(-39), None), (None, None));
    assert_eq!(rssi_for_report(false, None, None), (None, None));
    assert_eq!(rssi_for_report(true, Some(-52), None), (Some(-52), Some(0)));
    let (rssi, age) = rssi_for_report(false, Some(-40), Some(40));
    assert_eq!(rssi, Some(-40));
    assert!(age.is_some_and(|a| a >= 40));
}

#[test]
fn connect_transport_follows_connect_device() {
    assert_eq!(connect_transport(true), "le");
    assert_eq!(connect_transport(false), "classic");
}

#[test]
fn lpstat_parsers() {
    assert_eq!(
        parse_lpstat_v(
            "device for CatPrinter: ipp://127.0.0.1:8095/ipp/print\n",
            "CatPrinter"
        )
        .as_deref(),
        Some("ipp://127.0.0.1:8095/ipp/print")
    );
    assert!(parse_lpstat_v(
        "device for Other: ipp://127.0.0.1:631/ipp/print\n",
        "CatPrinter"
    )
    .is_none());
    assert_eq!(
        parse_lpstat_d("system default destination: Office\n").as_deref(),
        Some("Office")
    );
    assert!(uri_points_at_port("ipp://127.0.0.1:8095/ipp/print", 8095));
    assert!(!uri_points_at_port("ipp://127.0.0.1:631/ipp/print", 8095));
}

#[test]
fn lpstat_lines_of_other_kinds() {
    let two = "device for Other: usb://x\ndevice for catprinter: ipp://a\n";
    assert_eq!(parse_lpstat_v(two, "CatPrinter").as_deref(), Some("ipp://a"));
    let mixed = "lpstat: something\ndevice for CatPrinter: ipp://a\n";
    assert_eq!(parse_lpstat_v(mixed, "CatPrinter"), None);
    assert_eq!(parse_lpstat_d("no system default destination\n"), None);
    assert_eq!(parse_lpstat_d("system default destination: None\n"), None);
}

#[test]
fn rfkill_sysfs_reads_bluetooth_only() {
    let entry = |kind: &str, soft: &str| RfkillEntry {
        kind: Some(kind.into()),
        soft: Some(soft.into()),
        hard: Some("0\n".into()),
    };
    assert_eq!(
        bluetooth_blocked(&vec![entry("bluetooth\n", "1\n"), entry("wlan\n", "0\n")]),
        Some(true)
    );
    assert_eq!(
        bluetooth_blocked(&vec![entry("bluetooth\n", "0\n"), entry("wlan\n", "0\n")]),
        Some(false)
    );
    assert_eq!(bluetooth_blocked(&vec![entry("wlan\n", "1\n")]), None);
    let unreadable = RfkillEntry { kind: None, soft: None, hard: None };
    assert_eq!(bluetooth_blocked(&vec![entry("bluetooth\n", "1\n"), unreadable]), None);
}

#[test]
fn autosuspend_from_power_control() {
    let none = collect_host_facts(&vec![], None, &vec![]);
    assert_eq!(autosuspend_from_facts(&none), None);
    let mk = |power: &str| UsbEntry {
        name: "1-1:1.0".into(),
        class: Some("e0".into()),
        subclass: Some("01".into()),
        protocol: Some("01".into()),
        power: Some(power.into()),
        driver: None,
        parent_power: None,
        parent_class: None,
        parent_vendor: None,
        parent_product: None,
    };
    assert_eq!(
        autosuspend_from_facts(&collect_host_facts(&vec![mk("auto")], None, &vec![])),
        Some(true)
    );
    assert_eq!(
        autosuspend_from_facts(&collect_host_facts(&vec![mk("on")], None, &vec![])),
        Some(false)
    );
}

#[test]
fn snapshot_of_the_device() {
    let mut objs = Objects::new();
    objs.insert(
        "/org/bluez/hci0/dev_AA_BB_CC_DD_EE_FF".into(),
        vec![(
            IFACE_DEVICE.into(),
            Props {
                entries: vec![
                    ("Address".into(), Prop::Str("AA:BB:CC:DD:EE:FF".into())),
                    ("Trusted".into(), Prop::Bool(true)),
                    ("AddressType".into(), Prop::Str("random".into())),
                    ("RSSI".into(), Prop::I16(-51)),
                ],
            },
        )],
    );
    let s = device_snapshot_from_objects(&objs, "/org/bluez/hci0", "aa:bb:cc:dd:ee:ff").unwrap();
    assert!(s.trusted);
    assert!(!s.connected);
    assert_eq!(s.rssi, Some(-51));
    assert!(is_le_address_type(s.address_type.as_deref()));
    assert!(!is_le_address_type(Some("br/edr")));
    assert!(!is_le_address_type(None));
    assert!(device_snapshot_from_objects(&objs, "/org/bluez/hci1", "aa:bb:cc:dd:ee:ff").is_none());
}

#[test]
fn daemon_version_from_the_answer() {
    let out = "HTTP/1.0 200 OK\r\ncontent-type: application/json\r\n\r\n{\"version\": \"1.2.3\"}\n";
    assert_eq!(health_version(out).as_deref(), Some("1.2.3"));
    assert_eq!(response_body(out).as_deref(), Some("{\"version\": \"1.2.3\"}\n"));
    assert_eq!(health_version("HTTP/1.0 200 OK\r\n\r\nnot json"), None);
    assert_eq!(health_version("HTTP/1.0 200 OK\r\n\r\n{\"version\": 3}"), None);
    assert_eq!(health_version("no head"), None);
    assert_eq!(response_body("a\r\n\r\nb\r\n\r\nc").as_deref(), Some("b"));
    assert!(offers_connect_device("<method name=\"ConnectDevice\">"));
    assert!(!offers_connect_device("<method name=\"StartDiscovery\">"));
}
