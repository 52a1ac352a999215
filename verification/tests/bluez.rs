use catprinterd::ble::bluez::{
    adapter_from_device_path, adapter_health_from_objects, classify_connect_error,
    classify_connect_name_message, compact_bdaddr, connect_readiness, device_path_for,
    resolve_device_from_objects, AdapterHealth, BusError, ConnectFailureKind, ConnectReadiness,
    LiveDevice, Objects, Props, IFACE_ADAPTER, IFACE_DEVICE,
};
use catprinterd::ble::objects::Prop;


fn insert_iface(objs: &mut Objects, path: &str, iface: &str, props: Vec<(&str, Prop)>) {
    let entries = props.into_iter().map(|(k, v)| (k.to_string(), v)).collect();
    objs.insert(path.to_string(), vec![(iface.to_string(), Props { entries })]);
}

fn insert_empty(objs: &mut Objects, path: &str) {
    objs.insert(path.to_string(), Vec::new());
}

fn text(s: &str) -> Prop {
    Prop::Str(s.to_string())
}

#[test]
fn compact_and_conventional_path() {
    assert_eq!(compact_bdaddr("aa:bb:cc:dd:ee:ff"), "AABBCCDDEEFF");
    assert_eq!(compact_bdaddr("AA_BB_CC_DD_EE_FF"), "AABBCCDDEEFF");
    assert_eq!(
        device_path_for("/org/bluez/hci0", "48:0f:57:17:06:9d"),
        "/org/bluez/hci0/dev_48_0F_57_17_06_9D"
    );
    assert_eq!(
        device_path_for("/org/bluez/hci1", "48_0F_57_17_06_9D"),
        "/org/bluez/hci1/dev_48_0F_57_17_06_9D"
    );
    assert_eq!(
        adapter_from_device_path("/org/bluez/hci0/dev_48_0F_57_17_06_9D").as_deref(),
        Some("/org/bluez/hci0")
    );
    assert_eq!(adapter_from_device_path("/org/bluez/hci0"), None);
    assert_eq!(adapter_from_device_path("/dev_AA"), None);
}

#[test]
fn resolve_live_path_from_address() {
    let mut objs = Objects::new();
    insert_iface(
        &mut objs,
        "/org/bluez/hci0/dev_48_0F_57_17_06_9D",
        IFACE_DEVICE,
        vec![
            ("Address", text("48:0F:57:17:06:9D")),
            ("RSSI", Prop::I16(-52)),
        ],
    );
    let live = resolve_device_from_objects(&objs, "/org/bluez/hci0", "48:0f:57:17:06:9d")
        .expect("live");
    assert_eq!(live.path, "/org/bluez/hci0/dev_48_0F_57_17_06_9D");
    assert_eq!(live.rssi, Some(-52));
}

#[test]
fn resolve_prefers_address_match_over_conventional_name() {
    let mut objs = Objects::new();
    insert_iface(
        &mut objs,
        "/org/bluez/hci0/dev_TMP_1",
        IFACE_DEVICE,
        vec![
            ("Address", text("AA:BB:CC:DD:EE:FF")),
            ("RSSI", Prop::I16(-40)),
        ],
    );
    insert_empty(&mut objs, "/org/bluez/hci0/dev_AA_BB_CC_DD_EE_FF");
    let live =
        resolve_device_from_objects(&objs, "/org/bluez/hci0", "AA:BB:CC:DD:EE:FF").unwrap();
    assert_eq!(live.path, "/org/bluez/hci0/dev_TMP_1");
    assert_eq!(live.rssi, Some(-40));
}

#[test]
fn resolve_conventional_fallback_when_object_exists() {
    let mut objs = Objects::new();
    insert_iface(
        &mut objs,
        "/org/bluez/hci0/dev_AA_BB_CC_DD_EE_FF",
        IFACE_DEVICE,
        vec![("RSSI", Prop::I16(-61))],
    );
    let live =
        resolve_device_from_objects(&objs, "/org/bluez/hci0", "aa:bb:cc:dd:ee:ff").unwrap();
    assert_eq!(live.path, "/org/bluez/hci0/dev_AA_BB_CC_DD_EE_FF");
    assert_eq!(live.rssi, Some(-61));
}

#[test]
fn connect_readiness_requires_rssi_or_held() {
    assert_eq!(connect_readiness(None), ConnectReadiness::Missing);
    let silent = LiveDevice {
        path: "/org/bluez/hci0/dev_AA_BB_CC_DD_EE_FF".into(),
        rssi: None,
        connected: false,
    };
    assert_eq!(connect_readiness(Some(&silent)), ConnectReadiness::Silent);
    let adv = LiveDevice {
        rssi: Some(-52),
        ..silent.clone()
    };
    assert_eq!(connect_readiness(Some(&adv)), ConnectReadiness::Ready);
    let held = LiveDevice {
        connected: true,
        rssi: None,
        ..silent
    };
    assert_eq!(connect_readiness(Some(&held)), ConnectReadiness::Ready);
}

#[test]
fn resolve_silent_cache_is_not_ready() {
    let mut objs = Objects::new();
    insert_iface(
        &mut objs,
        "/org/bluez/hci0/dev_48_0F_57_17_06_9D",
        IFACE_DEVICE,
        vec![
            ("Address", text("48:0F:57:17:06:9D")),
            ("Connected", Prop::Bool(false)),
        ],
    );
    let live =
        resolve_device_from_objects(&objs, "/org/bluez/hci0", "48:0F:57:17:06:9D").unwrap();
    assert!(live.rssi.is_none());
    assert!(!live.connected);
    assert_eq!(connect_readiness(Some(&live)), ConnectReadiness::Silent);
}

#[test]
fn resolve_none_when_pruned() {
    let objs = Objects::new();
    assert!(
        resolve_device_from_objects(&objs, "/org/bluez/hci0", "AA:BB:CC:DD:EE:FF").is_none()
    );
}

#[test]
fn resolve_does_not_cross_adapters() {
    let mut objs = Objects::new();
    insert_iface(
        &mut objs,
        "/org/bluez/hci1/dev_AA_BB_CC_DD_EE_FF",
        IFACE_DEVICE,
        vec![("Address", text("AA:BB:CC:DD:EE:FF"))],
    );
    assert!(
        resolve_device_from_objects(&objs, "/org/bluez/hci0", "AA:BB:CC:DD:EE:FF").is_none()
    );
}

fn method_err(name: &str, msg: &str) -> BusError {
    BusError::Method { name: name.to_string(), message: Some(msg.to_string()) }
}

#[test]
fn classify_prune_host_abort_timeout_adapter_off_other() {
    let unknown = BusError::UnknownObject("Method \"Connect\" with signature \"\" on interface \"org.bluez.Device1\" doesn't exist".into());
    assert_eq!(classify_connect_error(&unknown), ConnectFailureKind::Pruned);
    assert_eq!(
        classify_connect_name_message(
            Some("org.freedesktop.DBus.Error.UnknownObject"),
            "Method \"Connect\" … doesn't exist"
        ),
        ConnectFailureKind::Pruned
    );
    assert_eq!(
        classify_connect_name_message(
            Some("org.freedesktop.DBus.Error.UnknownMethod"),
            "Method \"Connect\" with signature \"\" on interface \"org.bluez.Device1\" doesn't exist"
        ),
        ConnectFailureKind::Pruned
    );

    let abort = method_err(
        "org.bluez.Error.Failed",
        "br-connection-canceled, le-connection-abort-by-local",
    );
    assert_eq!(
        classify_connect_error(&abort),
        ConnectFailureKind::HostAbort
    );
    assert_eq!(
        classify_connect_name_message(Some("org.bluez.Error.Failed"), "connection aborted"),
        ConnectFailureKind::HostAbort
    );
    assert_eq!(
        classify_connect_name_message(None, "ECONNABORTED"),
        ConnectFailureKind::AdapterOff
    );
    assert_eq!(
        classify_connect_name_message(
            Some("org.bluez.Error.Failed"),
            "br-connection-canceled, Adapter not powered"
        ),
        ConnectFailureKind::AdapterOff
    );

    let timed = method_err("org.bluez.Error.Failed", "Operation timed out");
    assert_eq!(classify_connect_error(&timed), ConnectFailureKind::Timeout);
    assert_eq!(
        classify_connect_name_message(Some("org.bluez.Error.Failed"), "timed out"),
        ConnectFailureKind::Timeout
    );
    assert_eq!(
        classify_connect_name_message(Some("org.bluez.Error.Timeout"), "gave up"),
        ConnectFailureKind::Timeout
    );

    let off = method_err("org.bluez.Error.NotReady", "Resource Not Ready");
    assert_eq!(classify_connect_error(&off), ConnectFailureKind::AdapterOff);
    assert_eq!(
        classify_connect_name_message(Some("org.bluez.Error.NotReady"), ""),
        ConnectFailureKind::AdapterOff
    );

    let other = method_err(
        "org.bluez.Error.Failed",
        "br-connection-profile-unavailable",
    );
    assert_eq!(classify_connect_error(&other), ConnectFailureKind::Other);

    assert_eq!(
        ConnectFailureKind::Pruned.format_last("device object gone"),
        "pruned: device object gone"
    );
    assert_eq!(
        ConnectFailureKind::HostAbort.format_last("le-connection-abort-by-local"),
        "host-abort: le-connection-abort-by-local"
    );
    assert_eq!(
        ConnectFailureKind::Timeout.format_last("timed out"),
        "timeout: timed out"
    );
    assert_eq!(
        ConnectFailureKind::NotAdvertising.format_last("Device1 exists but is not advertising"),
        "not-advertising: Device1 exists but is not advertising"
    );
}

#[test]
fn adapter_health_powered_unpowered_missing() {
    let mut objs = Objects::new();
    assert_eq!(
        adapter_health_from_objects(&objs, "/org/bluez/hci0"),
        AdapterHealth::Missing
    );
    insert_iface(
        &mut objs,
        "/org/bluez/hci0",
        IFACE_ADAPTER,
        vec![("Powered", Prop::Bool(false))],
    );
    assert_eq!(
        adapter_health_from_objects(&objs, "/org/bluez/hci0"),
        AdapterHealth::Unpowered
    );
    insert_iface(
        &mut objs,
        "/org/bluez/hci0",
        IFACE_ADAPTER,
        vec![("Powered", Prop::Bool(true))],
    );
    assert_eq!(
        adapter_health_from_objects(&objs, "/org/bluez/hci0"),
        AdapterHealth::Powered
    );
}

#[test]
fn a_path_tells_its_adapter() {
    for a in ["/org/bluez/hci0", "/org/bluez/hci0/dev_AA", "x", "/dev_"] {
        for addr in ["48:0f:57:17:06:9d", "", "a", "nonsense"] {
            let p = device_path_for(a, addr);
            assert_eq!(adapter_from_device_path(&p).as_deref(), Some(a));
            assert_eq!(p, device_path_for(a, &compact_bdaddr(addr)));
        }
    }
}
