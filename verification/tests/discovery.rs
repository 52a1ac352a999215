use catprinterd::ble::bluez::{Objects, Props};
use catprinterd::ble::discovery::{
    candidates_from, choose_adapter, looks_like_cat_printer, name_is_dashed_mac, pick,
    pick_after_settle, Candidate, DeviceHint,
};
use catprinterd::ble::objects::{Item, Prop};
use catprinterd::printer::PrintError;

fn c(
    name: Option<&str>,
    addr: &str,
    rssi: Option<i16>,
    connected: bool,
    uuids: &[&str],
) -> Candidate {
    Candidate {
        path: format!("/org/bluez/hci0/dev_{}", addr.replace(':', "_")),
        address: addr.into(),
        name: name.map(String::from),
        rssi,
        connected,
        uuids: uuids.iter().map(|s| s.to_string()).collect(),
    }
}

#[test]
fn hint_parsing() {
    assert_eq!(
        DeviceHint::parse("48:0f:57:17:06:9d"),
        DeviceHint::Address("48:0F:57:17:06:9D".into())
    );
    assert_eq!(
        DeviceHint::parse("48_0F_57_17_06_9D"),
        DeviceHint::Address("48:0F:57:17:06:9D".into())
    );
    assert_eq!(DeviceHint::parse("MXW01"), DeviceHint::Name("MXW01".into()));
    assert_eq!(DeviceHint::parse(" gb03 "), DeviceHint::Name("gb03".into()));
}

#[test]
fn matching_rules() {
    assert!(looks_like_cat_printer(
        Some("MXW01"),
        "AA:BB:CC:DD:EE:FF",
        &[],
        None
    ));
    assert!(looks_like_cat_printer(
        Some("gt01"),
        "AA:BB:CC:DD:EE:FF",
        &[],
        None
    ));
    assert!(looks_like_cat_printer(
        Some("Cat-9000"),
        "AA:BB:CC:DD:EE:FF",
        &["0000ae30-0000-1000-8000-00805f9b34fb".into()],
        None
    ));
    assert!(looks_like_cat_printer(
        None,
        "AA:BB:CC:DD:EE:FF",
        &["0000AF30-0000-1000-8000-00805F9B34FB".into()],
        None
    ));
    assert!(!looks_like_cat_printer(
        Some("Phone"),
        "AA:BB:CC:DD:EE:FF",
        &["0000180f-0000-1000-8000-00805f9b34fb".into()],
        None
    ));
    let addr = DeviceHint::Address("AA:BB:CC:DD:EE:FF".into());
    assert!(looks_like_cat_printer(
        Some("Phone"),
        "aa:bb:cc:dd:ee:ff",
        &[],
        Some(&addr)
    ));
    assert!(!looks_like_cat_printer(
        Some("MXW01"),
        "11:22:33:44:55:66",
        &[],
        Some(&addr)
    ));
    let name = DeviceHint::Name("MyCat".into());
    assert!(looks_like_cat_printer(
        Some("mycat"),
        "11:22:33:44:55:66",
        &[],
        Some(&name)
    ));
    assert!(!looks_like_cat_printer(
        Some("MXW01"),
        "11:22:33:44:55:66",
        &[],
        Some(&name)
    ));
}

#[test]
fn picking_prefers_connected_then_rssi() {
    let a = c(Some("MXW01"), "AA:00:00:00:00:01", Some(-70), false, &[]);
    let b = c(Some("MXW01"), "AA:00:00:00:00:02", Some(-50), false, &[]);
    let d = c(Some("MXW01"), "AA:00:00:00:00:03", None, true, &[]);
    let e = c(Some("MXW01"), "AA:00:00:00:00:04", None, false, &[]);
    assert_eq!(pick(&[a.clone(), b.clone()]).unwrap().address, b.address);
    assert_eq!(
        pick(&[a.clone(), b.clone(), d.clone()]).unwrap().address,
        d.address
    );
    assert_eq!(pick(&[e.clone(), a.clone()]).unwrap().address, a.address);
    assert!(pick(&[]).is_none());
}

fn put(objs: &mut Objects, path: &str, iface: &str, props: Vec<(&str, Prop)>) {
    let entries = props.into_iter().map(|(k, v)| (k.to_string(), v)).collect();
    objs.insert(path.to_string(), vec![(iface.to_string(), Props { entries })]);
}

fn text(s: &str) -> Prop {
    Prop::Str(s.to_string())
}

#[test]
fn candidates_from_objects_and_adapters() {
    let mut objs = Objects::new();
    put(
        &mut objs,
        "/org/bluez/hci0",
        "org.bluez.Adapter1",
        vec![
            ("Powered", Prop::Bool(true)),
            ("Address", text("00:11:22:33:44:55")),
            ("Alias", text("alien")),
        ],
    );
    put(
        &mut objs,
        "/org/bluez/hci1",
        "org.bluez.Adapter1",
        vec![("Powered", Prop::Bool(false)), ("Address", text("00:11:22:33:44:66"))],
    );
    put(
        &mut objs,
        "/org/bluez/hci0/dev_48_0F_57_17_06_9D",
        "org.bluez.Device1",
        vec![
            ("Name", text("MXW01")),
            ("Address", text("48:0F:57:17:06:9D")),
            ("RSSI", Prop::I16(-60)),
            ("Connected", Prop::Bool(false)),
            (
                "UUIDs",
                Prop::List(vec![Item::Str("0000ae30-0000-1000-8000-00805f9b34fb".into())]),
            ),
        ],
    );
    put(
        &mut objs,
        "/org/bluez/hci0/dev_11_11_11_11_11_11",
        "org.bluez.Device1",
        vec![("Name", text("Phone")), ("Address", text("11:11:11:11:11:11"))],
    );

    let ad = choose_adapter(&objs, None).unwrap();
    assert_eq!(ad.path, "/org/bluez/hci0");
    assert!(matches!(
        choose_adapter(&objs, Some("hci1")),
        Err(PrintError::AdapterOff)
    ));
    assert!(choose_adapter(&objs, Some("hci9")).is_err());
    let cands = candidates_from(&objs, "/org/bluez/hci0", None, &[]);
    assert_eq!(cands.len(), 1);
    assert_eq!(cands[0].name.as_deref(), Some("MXW01"));
    assert_eq!(cands[0].rssi, Some(-60));
    let hinted = candidates_from(
        &objs,
        "/org/bluez/hci0",
        Some(&DeviceHint::Address("48:0f:57:17:06:9d".into())),
        &[],
    );
    assert_eq!(hinted.len(), 1);
    let none = candidates_from(&objs, "/org/bluez/hci1", None, &[]);
    assert!(none.is_empty());
    let avoided = candidates_from(
        &objs,
        "/org/bluez/hci0",
        None,
        &["48:0f:57:17:06:9d".to_string()],
    );
    assert!(avoided.is_empty());
}

#[test]
fn short_registry_names_need_the_service_uuid() {
    let ae30 = ["0000ae30-0000-1000-8000-00805f9b34fb".to_string()];
    assert!(!looks_like_cat_printer(
        Some("X6"),
        "AA:BB:CC:DD:EE:FF",
        &[],
        None
    ));
    assert!(!looks_like_cat_printer(
        Some("X5"),
        "AA:BB:CC:DD:EE:FF",
        &["0000180f-0000-1000-8000-00805f9b34fb".into()],
        None
    ));
    assert!(looks_like_cat_printer(
        Some("X6"),
        "AA:BB:CC:DD:EE:FF",
        &ae30,
        None
    ));
    assert!(looks_like_cat_printer(
        Some("MX05"),
        "AA:BB:CC:DD:EE:FF",
        &[],
        None
    ));
    assert!(looks_like_cat_printer(
        Some("GB01"),
        "AA:BB:CC:DD:EE:FF",
        &[],
        None
    ));
    assert!(looks_like_cat_printer(
        Some("X6"),
        "AA:BB:CC:DD:EE:FF",
        &[],
        Some(&DeviceHint::Name("X6".into()))
    ));
}

#[test]
fn pick_after_settle_picks_the_stronger_rssi() {
    let weak = c(Some("MXW01"), "AA:00:00:00:00:01", Some(-82), false, &[]);
    let strong = c(Some("MXW01"), "AA:00:00:00:00:02", Some(-48), false, &[]);
    let best = pick_after_settle(None, std::slice::from_ref(&weak));
    assert_eq!(best.as_ref().unwrap().address, weak.address);
    let best = pick_after_settle(best, &[weak.clone(), strong.clone()]);
    assert_eq!(best.as_ref().unwrap().address, strong.address);
    let best = pick_after_settle(best, &[]);
    assert_eq!(best.as_ref().unwrap().address, strong.address);
    let refreshed = c(Some("MXW01"), "AA:00:00:00:00:02", Some(-40), false, &[]);
    let best = pick_after_settle(best, std::slice::from_ref(&refreshed));
    assert_eq!(best.as_ref().unwrap().rssi, Some(-40));
    let held = c(Some("MXW01"), "AA:00:00:00:00:03", None, true, &[]);
    let best = pick_after_settle(best, std::slice::from_ref(&held));
    assert_eq!(best.unwrap().address, held.address);
}

#[test]
fn dashed_mac_alias_is_not_a_name() {
    assert!(name_is_dashed_mac("48-0F-57-17-06-9D", "48:0F:57:17:06:9D"));
    assert!(name_is_dashed_mac("48-0f-57-17-06-9d", "48:0F:57:17:06:9D"));
    assert!(!name_is_dashed_mac("MXW01", "48:0F:57:17:06:9D"));
    assert!(!name_is_dashed_mac("", ""));
}

#[test]
fn any_signal_is_better_than_none() {
    let weak = c(Some("GB02"), "AA:00:00:00:00:01", Some(i16::MIN), false, &[]);
    let stale = c(Some("GB02"), "AA:00:00:00:00:02", None, false, &[]);
    assert_eq!(pick(&[weak.clone(), stale.clone()]).unwrap().address, weak.address);
    assert_eq!(pick(&[stale.clone(), weak.clone()]).unwrap().address, weak.address);
    let held = c(Some("GB02"), "AA:00:00:00:00:03", None, true, &[]);
    let strong = c(Some("GB02"), "AA:00:00:00:00:04", Some(i16::MAX), false, &[]);
    assert_eq!(pick(&[held.clone(), strong, stale]).unwrap().address, held.address);
}
