use catprinterd::ble::bluez::{
    AdapterHealth, BusError, ConnectFailureKind, LiveDevice, Recovery, RecoveryStep, IFACE_ADAPTER,
    IFACE_CHAR, IFACE_DEVICE, IFACE_SERVICE,
};
use catprinterd::ble::discovery::{Candidate, DeviceHint, Scan, SETTLE_MS};
use catprinterd::ble::objects::{value_bytes, Item, Objects, Prop, Props};
use catprinterd::ble::session::{
    acquire_step, classify_io, connect_verdict, data_char, driver_for, fallback_mtu, max_payload, mtu_of,
    no_answer, reply_payload, resolve_chars, row_bytes, session_caps, wait_step, write_type, Acquire,
    AcquireStep, Bulk, ConnectCall, ConnectRun, ConnectStep, ConnectVerdict, IoAction, WaitStep,
};
use catprinterd::ble::{
    cached_candidate, open_adapter, probe, AdapterStep, AvoidList, BlePrinter, Copies, CopyStep, Probe,
    Rest, RestStep, Search, SearchStep, AVOID_TTL_MS,
};
use catprinterd::config::NotifyMode;
use catprinterd::models::{family_caps, Family};
use catprinterd::printer::{Condition, PrintError};
use catprinterd::protocol::mxw01::cmd_get_status;

fn text(s: &str) -> Prop {
    Prop::Str(s.to_string())
}

fn put(objs: &mut Objects, path: &str, iface: &str, props: Vec<(&str, Prop)>) {
    let entries = props.into_iter().map(|(k, v)| (k.to_string(), v)).collect();
    objs.insert(path.to_string(), vec![(iface.to_string(), Props { entries })]);
}

fn adapter(powered: bool) -> Objects {
    let mut o = Objects::new();
    put(
        &mut o,
        "/org/bluez/hci0",
        IFACE_ADAPTER,
        vec![("Address", text("AA:BB:CC:DD:EE:FF")), ("Powered", Prop::Bool(powered))],
    );
    o
}

fn candidate(address: &str, rssi: Option<i16>, connected: bool) -> Candidate {
    Candidate {
        path: format!("/org/bluez/hci0/dev_{}", address.replace(':', "_")),
        address: address.into(),
        name: Some("MXW01".into()),
        rssi,
        connected,
        uuids: vec![],
    }
}

#[test]
fn avoided_devices_come_back_after_a_while() {
    let mut l = AvoidList::new();
    l.note("aa:bb", 0);
    l.note("cc:dd", 1000);
    assert_eq!(l.avoided(2000), vec!["AA:BB", "CC:DD"]);
    assert_eq!(l.avoided(AVOID_TTL_MS), vec!["CC:DD"]);
    assert!(l.avoided(AVOID_TTL_MS + 1000).is_empty());
    l.note("aa:bb", 0);
    l.note("AA:BB", 5);
    assert_eq!(l.avoided(6), vec!["AA:BB"]);
}

#[test]
fn searching_skips_devices_that_are_no_cat_printers() {
    let mut l = AvoidList::new();
    let mut s = Search::new(false);
    let wrong = || Err(PrintError::NotCatPrinter("missing AE01".into()));
    for _ in 0..3 {
        s.begin_scan();
        if s.scans < 3 {
            assert!(matches!(s.connect_ended(wrong(), "aa:bb", &mut l, 10), SearchStep::Scan));
        }
    }
    assert!(matches!(
        s.connect_ended(wrong(), "aa:bb", &mut l, 10),
        SearchStep::Fail(PrintError::NotFound)
    ));
    assert_eq!(s.avoid(&mut l, 11), vec!["AA:BB"]);
    let hinted = Search::new(true);
    assert!(hinted.avoid(&mut l, 11).is_empty());
    assert!(matches!(
        hinted.connect_ended(wrong(), "aa:bb", &mut l, 10),
        SearchStep::Fail(PrintError::NotCatPrinter(_))
    ));
    assert!(matches!(s.connect_ended(Ok(()), "aa:bb", &mut l, 10), SearchStep::Open));
    assert!(matches!(
        s.connect_ended(Err(PrintError::LinkLost), "aa:bb", &mut l, 10),
        SearchStep::Fail(PrintError::LinkLost)
    ));
}

#[test]
fn adapters_are_used_or_brought_back() {
    assert!(matches!(open_adapter(&adapter(true), None), AdapterStep::Use(a) if a.path == "/org/bluez/hci0"));
    assert!(
        matches!(open_adapter(&adapter(false), None), AdapterStep::Recover { path } if path == "/org/bluez/hci0")
    );
    assert!(matches!(probe(None, None), Probe::NoAdapter));
    assert!(matches!(probe(Some(&adapter(true)), None), Probe::Adapter(_)));
    assert!(matches!(probe(Some(&adapter(false)), None), Probe::Off { .. }));
    assert!(matches!(probe(Some(&Objects::new()), None), Probe::NoAdapter | Probe::Off { path: None }));
}

#[test]
fn recovery_asks_for_power_once() {
    let mut r = Recovery::new(100);
    assert!(matches!(r.seen(Some(AdapterHealth::Unpowered)), RecoveryStep::AskPower));
    assert!(matches!(r.seen(Some(AdapterHealth::Unpowered)), RecoveryStep::Wait));
    assert!(matches!(r.seen(None), RecoveryStep::Wait));
    assert!(matches!(r.seen(Some(AdapterHealth::Powered)), RecoveryStep::Usable));
    assert!(!r.over(4099));
    assert!(r.over(4100));
}

#[test]
fn scans_settle_before_they_pick() {
    let mut s = Scan::new(false, 8000, 0);
    assert!(s.goes_on(0));
    assert!(!s.poll(&vec![], 10));
    assert!(!s.poll(&vec![candidate("AA:01", Some(-70), false)], 20));
    assert!(s.poll(
        &vec![candidate("AA:01", Some(-70), false), candidate("AA:02", Some(-40), false)],
        20 + SETTLE_MS
    ));
    assert_eq!(s.finish().unwrap().address, "AA:02");
    let s = Scan::new(false, 8000, 0);
    assert!(!s.goes_on(8000));
    assert!(matches!(s.finish(), Err(PrintError::NotFound)));
    let mut s = Scan::new(true, 8000, 0);
    assert!(s.poll(&vec![candidate("AA:01", Some(-70), false)], 20));
}

#[test]
fn cached_devices_must_be_there() {
    let mut o = adapter(true);
    put(
        &mut o,
        "/org/bluez/hci0/dev_AA_01",
        IFACE_DEVICE,
        vec![("Address", text("AA:01")), ("Name", text("MXW01"))],
    );
    let hint = DeviceHint::Name("MXW01".into());
    assert!(cached_candidate(&o, "/org/bluez/hci0", Some(&hint), &[]).is_none());
    put(
        &mut o,
        "/org/bluez/hci0/dev_AA_01",
        IFACE_DEVICE,
        vec![("Address", text("AA:01")), ("Name", text("MXW01")), ("RSSI", Prop::I16(-60))],
    );
    assert_eq!(
        cached_candidate(&o, "/org/bluez/hci0", Some(&hint), &[]).unwrap().address,
        "AA:01"
    );
}

#[test]
fn connecting_gives_up_after_its_attempts() {
    let mut run = ConnectRun::new(3, Some(-85), false);
    let live = || Some(LiveDevice { path: "/dev".into(), rssi: None, connected: false });
    assert!(matches!(run.resolved(live()), ConnectStep::Connect { path } if path == "/dev"));
    assert!(matches!(
        run.failed(ConnectFailureKind::HostAbort, "le-connection-abort-by-local"),
        ConnectStep::Pause { pause_ms: 2500, refresh_discovery: true }
    ));
    assert!(matches!(run.resolved(None), ConnectStep::Pause { pause_ms: 800, refresh_discovery: true }));
    match run.failed(ConnectFailureKind::Timeout, "timed out") {
        ConnectStep::Fail(PrintError::ConnectFailed { attempts, last, hint }) => {
            assert_eq!(attempts, 3);
            assert!(last.contains("timed out"));
            assert!(hint.contains("far away") && hint.contains("phone app"));
        }
        other => panic!("{other:?}"),
    }
    let mut run = ConnectRun::new(3, None, true);
    assert!(matches!(
        run.failed(ConnectFailureKind::AdapterOff, "off"),
        ConnectStep::Fail(PrintError::AdapterOff)
    ));
}

#[test]
fn connect_calls_are_judged() {
    let err = |name: &str| {
        ConnectCall::Failed(BusError::Method { name: name.into(), message: Some("x".into()) })
    };
    assert!(matches!(connect_verdict(&ConnectCall::Connected), ConnectVerdict::Connected));
    assert!(matches!(connect_verdict(&err("org.bluez.Error.AlreadyConnected")), ConnectVerdict::Connected));
    assert!(matches!(connect_verdict(&err("org.bluez.Error.InProgress")), ConnectVerdict::Wait));
    assert!(matches!(
        connect_verdict(&ConnectCall::TimedOut),
        ConnectVerdict::Failed { kind: ConnectFailureKind::Timeout, .. }
    ));
    assert_eq!(wait_step(true, 9, 5), WaitStep::Done);
    assert_eq!(wait_step(false, 5, 5), WaitStep::TimedOut);
    assert_eq!(wait_step(false, 4, 5), WaitStep::Again);
}

fn gatt(chars: &[&str]) -> Objects {
    let mut o = Objects::new();
    let dev = "/org/bluez/hci0/dev_AA";
    put(
        &mut o,
        &format!("{dev}/service0"),
        IFACE_SERVICE,
        vec![("UUID", text("0000AE30-0000-1000-8000-00805f9b34fb"))],
    );
    for c in chars {
        put(
            &mut o,
            &format!("{dev}/service0/{c}"),
            IFACE_CHAR,
            vec![("UUID", text(&format!("0000{c}-0000-1000-8000-00805F9B34FB")))],
        );
    }
    o
}

#[test]
fn characteristics_are_found() {
    let dev = "/org/bluez/hci0/dev_AA";
    let c = resolve_chars(&gatt(&["ae01", "ae02", "ae03"]), dev).unwrap();
    assert!(c.control.ends_with("/ae01") && c.notify.ends_with("/ae02") && c.has_ae03);
    assert!(data_char(&c).ends_with("/ae03"));
    let c = resolve_chars(&gatt(&["ae01", "ae02"]), dev).unwrap();
    assert!(!c.has_ae03 && data_char(&c).ends_with("/ae01"));
    for (have, lack) in
        [(vec!["ae02"], "missing AE01"), (vec!["ae01"], "missing AE02")]
    {
        assert!(matches!(resolve_chars(&gatt(&have), dev), Err(PrintError::NotCatPrinter(t)) if t == lack));
    }
    assert!(
        matches!(resolve_chars(&Objects::new(), dev), Err(PrintError::NotCatPrinter(t)) if t == "missing the AE30 service")
    );
}

#[test]
fn mtu_and_channels() {
    assert_eq!(max_payload(23), 20);
    assert_eq!(mtu_of(None), 23);
    assert_eq!(mtu_of(Some(247)), 247);
    assert!(matches!(acquire_step(0, Acquire::Channel(247), 48), AcquireStep::Use));
    assert!(matches!(acquire_step(0, Acquire::Channel(23), 48), AcquireStep::PauseAndRetry));
    assert!(matches!(acquire_step(1, Acquire::Channel(23), 48), AcquireStep::Fallback));
    assert!(fallback_mtu(Some(247), 48).is_ok());
    assert!(matches!(fallback_mtu(None, 48), Err(PrintError::MtuTooSmall { mtu: 23 })));
    assert_eq!(write_type(&vec!["write".into()]), "request");
    assert_eq!(write_type(&vec!["write-without-response".into()]), "command");
    assert_eq!(
        write_type(&vec!["write".into(), "write-without-response".into()]),
        "command"
    );
    assert_eq!(write_type(&vec!["notify".into(), "write".into()]), "request");
    assert_eq!(write_type(&vec![]), "command");
    assert!(session_caps(family_caps(Family::Mxw01), 247).grayscale_4bpp);
    assert!(!session_caps(family_caps(Family::Mxw01), 100).grayscale_4bpp);
    assert_eq!(row_bytes(Family::Mxw01, family_caps(Family::Mxw01)), 192);
    assert_eq!(row_bytes(Family::Mxw01, session_caps(family_caps(Family::Mxw01), 100)), 48);
    assert_eq!(classify_io(Some(11)), IoAction::Retry);
    assert_eq!(classify_io(None), IoAction::LinkLost);
}

#[test]
fn bulk_data_goes_in_whole_rows() {
    let data: Vec<u8> = (0..480).map(|i| (i % 251) as u8).collect();
    let mut b = Bulk::new(247, false, 48);
    let mut sent = Vec::new();
    while let Some(piece) = b.next(&data) {
        assert!(piece.len() <= 240 && piece.len() % 48 == 0);
        sent.extend_from_slice(piece);
        let n = piece.len();
        b.wrote(n);
    }
    assert_eq!(sent, data);
    let b = Bulk::new(247, true, 48);
    assert_eq!(b.chunk, 48);
}

#[test]
fn replies_are_matched_to_their_requests() {
    let raw = cmd_get_status();
    assert_eq!(reply_payload(&raw, 0xA1), Some(vec![0]));
    assert_eq!(reply_payload(&raw, 0xA9), None);
    assert_eq!(reply_payload(b"junk", 0xA1), None);
    assert!(matches!(no_answer(0xA1), PrintError::NoAnswer(_)));
    assert_eq!(value_bytes(&Prop::List(vec![Item::Byte(1), Item::Byte(2)])), Some(vec![1, 2]));
    assert_eq!(value_bytes(&Prop::Bool(true)), None);
}

#[test]
fn drivers_follow_name_and_shape() {
    let o = Objects::new();
    assert_eq!(driver_for(Some("MXW01"), &o, "/dev", true, None).family, Family::Mxw01);
    assert_eq!(driver_for(None, &o, "/dev", false, None).family, Family::Classic);
    assert_eq!(driver_for(Some("MXW01"), &o, "/dev", true, Some(Family::Classic)).family, Family::Classic);
}

#[test]
fn copies_rest_between_prints() {
    let mut c = Copies::new(2);
    assert!(matches!(
        c.next(false, Family::Mxw01),
        CopyStep::Print { rest_first: false, progress: Some(_) }
    ));
    assert!(matches!(c.next(true, Family::Mxw01), CopyStep::Cancelled));
    c.printed(true, Some(50));
    assert!(matches!(
        c.next(false, Family::Mxw01),
        CopyStep::Print { rest_first: true, progress: Some(p) } if p.percent == 50 && p.message == "Copy 2/2"
    ));
    assert!(matches!(c.next(false, Family::Classic), CopyStep::Print { rest_first: false, .. }));
    c.printed(false, None);
    assert!(matches!(c.next(false, Family::Mxw01), CopyStep::Finished));
    assert!(!c.confirmed);
    let c = Copies::new(0);
    assert!(matches!(c.next(false, Family::Mxw01), CopyStep::Print { progress: None, .. }));
}

#[test]
fn printers_know_what_to_look_for() {
    let p = BlePrinter {
        device_hint: Some("aa:bb:cc:dd:ee:ff".into()),
        adapter: None,
        forced_family: None,
        slow: false,
        pacing_ms: 8,
        notify_mode: NotifyMode::Props,
        state_dir: None,
    };
    assert!(matches!(p.hint(), Some(DeviceHint::Address(_))));
}

#[test]
fn the_head_comes_to_rest_between_copies() {
    let condition = |ok: bool, state: &str| Condition {
        ok,
        state: state.into(),
        battery: None,
        temperature: None,
        error: None,
        message: "m".into(),
    };
    let mut rest = Rest::new();
    assert!(matches!(rest.next(false), RestStep::Ask));
    assert!(matches!(rest.next(true), RestStep::Failed(PrintError::Cancelled)));
    assert!(matches!(
        rest.answered(condition(true, "printing")),
        RestStep::Pause { ms: 500 }
    ));
    assert!(matches!(rest.answered(condition(true, "standby")), RestStep::AtRest));
    assert!(matches!(
        rest.answered(condition(false, "standby")),
        RestStep::Failed(PrintError::Condition(c)) if c.message == "m"
    ));
    assert_eq!(rest.polls, 3);
    for _ in 3..40 {
        assert!(matches!(rest.next(false), RestStep::Ask));
        assert!(matches!(
            rest.answered(condition(true, "ejecting")),
            RestStep::Pause { .. }
        ));
    }
    assert!(matches!(
        rest.next(true),
        RestStep::Failed(PrintError::Timeout("waiting for the previous copy"))
    ));
}
