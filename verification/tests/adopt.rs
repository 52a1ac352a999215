use catprinterd::adopt::{
    adopt_hint, forgotten, is_kept, le_outcome, le_step, load, normalize_mac, outcome_from_connect, persist,
    persist_if_empty, printer_off_message, resolve_store_dir, status_of, store_path, AdoptOutcome,
    LeConnect, LeStep, StoreHints,
};
use catprinterd::ble::bluez::BusError;
use catprinterd::ble::discovery::DeviceHint;
use catprinterd::ble::session::ConnectCall;
use catprinterd::printer::PrintError;

#[test]
fn persist_load_status_roundtrip_and_idempotent() {
    assert_eq!(load(None), None);
    assert_eq!(status_of(None).message(), "not adopted");
    assert_eq!(status_of(None).exit_code(), 1);

    let (mac, text) = persist("aa:bb:cc:dd:ee:ff").unwrap();
    assert_eq!(mac, "AA:BB:CC:DD:EE:FF");
    let (again, text2) = persist("AA:BB:CC:DD:EE:FF").unwrap();
    assert_eq!(again, mac);
    assert_eq!(text, text2);
    assert_eq!(load(Some(&text)).as_deref(), Some("AA:BB:CC:DD:EE:FF"));

    let st = status_of(Some(&text));
    assert_eq!(st.message(), "adopted AA:BB:CC:DD:EE:FF");
    assert_eq!(st.exit_code(), 0);
    assert_eq!(text.trim(), "AA:BB:CC:DD:EE:FF");
}

#[test]
fn persist_if_empty_does_not_overwrite() {
    let (_, text) = persist("AA:BB:CC:DD:EE:FF").unwrap();
    assert!(persist_if_empty(Some(&text), "11:22:33:44:55:66")
        .unwrap()
        .is_none());
    assert_eq!(load(Some(&text)).as_deref(), Some("AA:BB:CC:DD:EE:FF"));
    let (wrote, _) = persist_if_empty(None, "11:22:33:44:55:66").unwrap().unwrap();
    assert_eq!(wrote, "11:22:33:44:55:66");
}

#[test]
fn printer_off_message_tells_operator_to_switch_on() {
    let m = printer_off_message();
    assert!(m.contains("switch it on"), "{m}");
    assert!(m.to_ascii_lowercase().contains("re-run"), "{m}");
    let o = AdoptOutcome::PrinterOff;
    assert_eq!(o.message(), m);
    assert_ne!(o.exit_code(), 0);
}

#[test]
fn normalize_accepts_colon_underscore_and_bare_hex() {
    assert_eq!(
        normalize_mac("48:0f:57:17:06:9d").as_deref(),
        Some("48:0F:57:17:06:9D")
    );
    assert_eq!(
        normalize_mac("48_0F_57_17_06_9D").as_deref(),
        Some("48:0F:57:17:06:9D")
    );
    assert_eq!(
        normalize_mac("480f5717069d").as_deref(),
        Some("48:0F:57:17:06:9D")
    );
    assert_eq!(normalize_mac("MXW01"), None);
    assert_eq!(normalize_mac("not-a-mac"), None);
}

#[test]
fn clear_removes_store() {
    let (_, text) = persist("AA:BB:CC:DD:EE:FF").unwrap();
    assert_eq!(load(Some(&text)).as_deref(), Some("AA:BB:CC:DD:EE:FF"));
    assert_eq!(
        forgotten(None, Some(&text)),
        AdoptOutcome::Forgotten { address: Some("AA:BB:CC:DD:EE:FF".into()) }
    );
    assert_eq!(load(None), None);
    assert_eq!(forgotten(None, None), AdoptOutcome::Forgotten { address: None });
}

#[test]
fn resolve_store_dir_honours_explicit() {
    let p = "/tmp/explicit-catprinter-state";
    let h = StoreHints {
        explicit: Some(p.into()),
        state_dir: Some("/elsewhere".into()),
        state_directory: Some("/run/a:/run/b".into()),
        private_exists: true,
    };
    assert_eq!(resolve_store_dir(&h), p);
}

#[test]
fn store_dir_order() {
    let mut h = StoreHints {
        explicit: None,
        state_dir: Some("/srv/cat".into()),
        state_directory: Some("/run/a:/run/b".into()),
        private_exists: true,
    };
    assert_eq!(resolve_store_dir(&h), "/srv/cat");
    h.state_dir = Some(String::new());
    assert_eq!(resolve_store_dir(&h), "/run/a");
    h.state_directory = Some(":/run/b".into());
    assert_eq!(resolve_store_dir(&h), "/var/lib/private/catprinter");
    h.private_exists = false;
    assert_eq!(resolve_store_dir(&h), "/var/lib/catprinter");
    assert_eq!(store_path("/var/lib/catprinter"), "/var/lib/catprinter/adopted");
    assert_eq!(store_path("/var/lib/catprinter/"), "/var/lib/catprinter/adopted");
    assert_eq!(store_path(""), "adopted");
}

#[test]
fn bad_address_is_refused() {
    assert_eq!(persist("nope").unwrap_err(), "not a Bluetooth address: nope");
    assert!(persist_if_empty(None, "nope").is_err());
}

#[test]
fn printer_off_is_the_shipped_outcome() {
    let o = outcome_from_connect(&PrintError::NotFound).unwrap();
    assert_eq!(o, AdoptOutcome::PrinterOff);
    assert_ne!(o.exit_code(), 0);
    assert!(o.message().contains("switch it on"));
    assert_eq!(o.message(), printer_off_message());
    assert_eq!(
        outcome_from_connect(&PrintError::NeedExperimental),
        Some(AdoptOutcome::NeedExperimental)
    );
}

#[test]
fn status_uses_persist_store() {
    let empty = status_of(None);
    assert_eq!(empty.message(), "not adopted");
    assert_eq!(empty.exit_code(), 1);
    let (_, text) = persist("AA:BB:CC:DD:EE:FF").unwrap();
    let yes = status_of(Some(&text));
    assert_eq!(yes.message(), "adopted AA:BB:CC:DD:EE:FF");
    assert_eq!(yes.exit_code(), 0);
}

#[test]
fn forgetting_prefers_the_given_address() {
    let (_, text) = persist("AA:BB:CC:DD:EE:FF").unwrap();
    let o = forgotten(Some("112233445566"), Some(&text));
    assert_eq!(o.message(), "forgot 11:22:33:44:55:66");
    assert_eq!(o.exit_code(), 0);
    let o = forgotten(Some("MXW01"), Some(&text));
    assert_eq!(o.message(), "forgot AA:BB:CC:DD:EE:FF");
}

#[test]
fn adopt_hints_and_steps() {
    assert_eq!(
        adopt_hint(Some("480f5717069d")),
        Some(DeviceHint::Address("48:0F:57:17:06:9D".into()))
    );
    assert_eq!(adopt_hint(Some("GB03")), Some(DeviceHint::Name("GB03".into())));
    assert_eq!(adopt_hint(None), None);
    assert!(is_kept(Some("aa:bb:cc:dd:ee:ff"), "AA:BB:CC:DD:EE:FF"));
    assert!(!is_kept(None, "AA:BB:CC:DD:EE:FF"));
    assert_eq!(le_step(0, LeConnect::Recreate), LeStep::RemoveAndRetry);
    assert_eq!(le_step(1, LeConnect::Recreate), LeStep::NotFound);
    assert_eq!(le_step(0, LeConnect::CreatedLe), LeStep::TrustCreated);
    assert_eq!(le_step(0, LeConnect::NeedExperimental), LeStep::NeedExperimental);
    assert_eq!(le_step(0, LeConnect::WaitInProgress), LeStep::TrustIfConnected);
    assert_eq!(le_step(0, LeConnect::Failed), LeStep::NotFound);
}

#[test]
fn le_calls_are_judged() {
    let err = |name: &str| {
        ConnectCall::Failed(BusError::Method { name: name.into(), message: None })
    };
    assert_eq!(le_outcome(&ConnectCall::Connected), LeConnect::CreatedLe);
    assert_eq!(le_outcome(&ConnectCall::TimedOut), LeConnect::Failed);
    assert_eq!(
        le_outcome(&err("org.freedesktop.DBus.Error.UnknownMethod")),
        LeConnect::NeedExperimental
    );
    assert_eq!(le_outcome(&err("org.bluez.Error.AlreadyExists")), LeConnect::Recreate);
    assert_eq!(le_outcome(&err("org.bluez.Error.AlreadyConnected")), LeConnect::ReuseIfConnected);
    assert_eq!(le_outcome(&err("org.bluez.Error.InProgress")), LeConnect::WaitInProgress);
    assert_eq!(le_outcome(&err("org.bluez.Error.Failed")), LeConnect::Failed);
}

#[test]
fn a_name_is_no_address() {
    assert_eq!(normalize_mac("Decade facade"), None);
    assert_eq!(normalize_mac("48-0F-57-17-06-9D"), None);
    assert_eq!(normalize_mac("480f5717069"), None);
    assert_eq!(normalize_mac("480f5717069dd"), None);
    assert_eq!(normalize_mac("48:0f_57:17_06:9d"), None);
    assert_eq!(
        normalize_mac("  480F5717069d\n").as_deref(),
        Some("48:0F:57:17:06:9D")
    );
}

#[test]
fn spellings_of_an_address_agree() {
    let m = "48:0F:57:17:06:9D";
    for s in [
        m.to_string(),
        m.to_lowercase(),
        m.replace(':', "_"),
        m.replace(':', "_").to_lowercase(),
        m.replace(':', ""),
        m.replace(':', "").to_lowercase(),
    ] {
        assert_eq!(normalize_mac(&s).as_deref(), Some(m));
    }
}
