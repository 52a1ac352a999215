use catprinterd::ble::host::{
    advert_wait_for, chip_family_from_ids, collect_host_facts, temporary_timeout,
    temporary_timeout_from_text, udev_rule_present_in, usb_bt_facts, usb_parent_name, ChipFamily,
    UsbEntry,
};

fn some(s: &str) -> Option<String> {
    Some(s.to_string())
}

fn iface(name: &str, class: &str) -> UsbEntry {
    UsbEntry {
        name: name.into(),
        class: some(class),
        subclass: some("01"),
        protocol: some("01"),
        power: None,
        driver: None,
        parent_power: None,
        parent_class: None,
        parent_vendor: None,
        parent_product: None,
    }
}

fn device(name: &str) -> UsbEntry {
    UsbEntry {
        name: name.into(),
        class: None,
        subclass: None,
        protocol: None,
        power: some("on"),
        driver: None,
        parent_power: None,
        parent_class: None,
        parent_vendor: None,
        parent_product: None,
    }
}

fn combo_tree() -> Vec<UsbEntry> {
    let mut v = vec![device("3-4")];
    for name in ["3-4:1.1", "3-4:1.0"] {
        let mut e = iface(name, "e0");
        e.power = some("on");
        e.parent_class = some("ef");
        e.parent_power = some("on");
        v.push(e);
    }
    v
}

fn trap_dongle() -> Vec<UsbEntry> {
    let mut e = iface("1-2:1.0", "e0");
    e.parent_class = some("e0");
    e.parent_power = some("auto");
    vec![device("1-2"), e]
}

#[test]
fn temporary_timeout_explicit_commented_absent() {
    assert_eq!(
        temporary_timeout_from_text("TemporaryTimeout = 0\n"),
        (0, false)
    );
    assert_eq!(
        temporary_timeout_from_text("[General]\nTemporaryTimeout=45 # seconds\n"),
        (45, false)
    );
    assert_eq!(
        temporary_timeout_from_text("#TemporaryTimeout = 30\n"),
        (30, true)
    );
    assert_eq!(
        temporary_timeout_from_text("[General]\n# TemporaryTimeout = 30\nAutoEnable=true\n"),
        (30, true)
    );
    assert_eq!(temporary_timeout_from_text(""), (30, true));
    assert_eq!(
        temporary_timeout_from_text("DiscoverableTimeout = 0\n"),
        (30, true)
    );
    assert_eq!(
        temporary_timeout_from_text("TemporaryTimeout = banana\n"),
        (30, true)
    );
}

#[test]
fn temporary_timeout_missing_file_is_default() {
    let (v, is_default) = temporary_timeout(None);
    assert_eq!(v, 30);
    assert!(is_default);
}

#[test]
fn combo_ef_parent_plus_wireless_interfaces() {
    let facts = collect_host_facts(&combo_tree(), Some("TemporaryTimeout = 0\n"), &vec![]);
    assert!(facts.combo, "ef parent + e0/01/01 interfaces must be combo");
    assert_eq!(facts.bt_interfaces.len(), 2);
    assert_eq!(facts.bt_interfaces[0].name, "3-4:1.0");
    assert_eq!(facts.bt_interfaces[0].power_control.as_deref(), Some("on"));
    assert_eq!(facts.temporary_timeout, 0);
    assert!(!facts.temporary_timeout_is_default);
    let lines = facts.check_lines();
    assert_eq!(lines[0], ("TemporaryTimeout", "0".into()));
    assert_eq!(lines[1], ("combo", "yes".into()));
    assert_eq!(lines[2].0, "bt chip");
    assert!(lines[3].1.contains("3-4:1.0=on"));
}

#[test]
fn device_class_e0_alone_is_not_combo() {
    let facts = collect_host_facts(&trap_dongle(), None, &vec![]);
    assert!(
        !facts.combo,
        "device-class e0/01/01 must not be treated as combo"
    );
    assert_eq!(facts.bt_interfaces.len(), 1);
    assert_eq!(facts.bt_interfaces[0].name, "1-2:1.0");
    assert_eq!(
        facts.bt_interfaces[0].power_control.as_deref(),
        Some("auto")
    );
    assert_eq!(facts.combo_line(), "no");
    assert_eq!(facts.power_control_line(), "1-2:1.0=auto");
    assert_eq!(facts.temporary_timeout, 30);
    assert!(facts.temporary_timeout_is_default);
    assert_eq!(facts.temporary_timeout_line(), "30 (default)");
}

#[test]
fn no_bt_usb_interfaces_line() {
    let facts = collect_host_facts(&vec![device("4-1")], None, &vec![]);
    assert!(!facts.combo);
    assert!(facts.bt_interfaces.is_empty());
    assert_eq!(facts.power_control_line(), "no BT USB interfaces");
    let lines = facts.check_lines();
    assert_eq!(lines[2], ("bt chip", "none".into()));
    assert_eq!(lines[3], ("power/control", "no BT USB interfaces".into()));
    assert_eq!(lines[4].0, "udev");
}

#[test]
fn advert_wait_is_longer_on_combo_firmware() {
    let combo = advert_wait_for(ChipFamily::Realtek);
    assert_eq!(combo, advert_wait_for(ChipFamily::Mediatek));
    assert_eq!(combo, advert_wait_for(ChipFamily::Qualcomm));
    assert_eq!(combo, advert_wait_for(ChipFamily::Broadcom));
    assert!(combo > advert_wait_for(ChipFamily::Intel));
    assert!(combo > advert_wait_for(ChipFamily::Generic));
    assert!(combo > advert_wait_for(ChipFamily::Absent));
    assert_eq!(advert_wait_for(ChipFamily::Intel), 800);
    assert_eq!(combo, 2000);
}

#[test]
fn udev_rule_requires_interface_class_e0() {
    let good = r#"ATTR{bInterfaceClass}=="e0", ATTR{bInterfaceSubClass}=="01", ATTR{bInterfaceProtocol}=="01", ATTR{power/control}="on"
"#;
    let trap = r#"# device-class only — the combo-card trap
ATTR{bDeviceClass}=="e0", ATTR{power/control}="on"
"#;
    assert!(udev_rule_present_in(&vec![good.to_string()]));
    assert!(!udev_rule_present_in(&vec![trap.to_string()]));
    assert!(!udev_rule_present_in(&vec![]));
    assert!(udev_rule_present_in(&vec![trap.to_string(), good.to_string()]));
}

#[test]
fn chip_family_from_btusb_id_tables() {
    assert_eq!(
        chip_family_from_ids("0bda", "b00c", None),
        ChipFamily::Realtek
    );
    assert_eq!(
        chip_family_from_ids("0489", "e14e", None),
        ChipFamily::Mediatek
    );
    assert_eq!(
        chip_family_from_ids("0489", "e0e3", None),
        ChipFamily::Qualcomm
    );
    assert_eq!(
        chip_family_from_ids("0489", "e0e3", Some("btmtk")),
        ChipFamily::Mediatek
    );
    assert_eq!(
        chip_family_from_ids("8087", "0033", Some("btintel")),
        ChipFamily::Intel
    );
    assert_eq!(
        chip_family_from_ids("0a5c", "21e1", Some("btbcm")),
        ChipFamily::Broadcom
    );
    assert_eq!(chip_family_from_ids("", "", None), ChipFamily::Absent);
}

#[test]
fn survey_samples_match_kernel_firmware_family() {
    let samples: &[(&str, &str, ChipFamily)] = &[
        ("0bda", "b00c", ChipFamily::Realtek),
        ("0489", "e14e", ChipFamily::Mediatek),
        ("0489", "e0e3", ChipFamily::Qualcomm),
        ("0489", "e123", ChipFamily::Realtek),
        ("13d3", "3571", ChipFamily::Realtek),
        ("13d3", "3602", ChipFamily::Mediatek),
        ("13d3", "3491", ChipFamily::Qualcomm),
        ("04ca", "4005", ChipFamily::Realtek),
        ("04ca", "3802", ChipFamily::Mediatek),
        ("04ca", "3022", ChipFamily::Qualcomm),
        ("0b05", "18ef", ChipFamily::Realtek),
        ("0a5c", "21e1", ChipFamily::Broadcom),
        ("05ac", "8213", ChipFamily::Broadcom),
        ("8087", "0033", ChipFamily::Intel),
        ("0cf3", "e007", ChipFamily::Qualcomm),
        ("0e8d", "223c", ChipFamily::Mediatek),
        ("10ab", "9308", ChipFamily::Qualcomm),
        ("2c7c", "7009", ChipFamily::Mediatek),
        ("413c", "8126", ChipFamily::Broadcom),
    ];
    for &(vid, pid, want) in samples {
        assert_eq!(
            chip_family_from_ids(vid, pid, None),
            want,
            "{vid}:{pid} must follow the kernel quirk family"
        );
        assert_eq!(
            advert_wait_for(chip_family_from_ids(vid, pid, None)),
            advert_wait_for(want),
            "{vid}:{pid} wait follows the same family"
        );
    }
    assert_eq!(
        chip_family_from_ids("0489", "ffff", None),
        ChipFamily::Generic
    );
    assert_eq!(
        chip_family_from_ids("13d3", "0001", None),
        ChipFamily::Generic
    );
}

#[test]
fn check_chip_label_follows_classifier_on_combo_sysfs() {
    let mut tree = combo_tree();
    for e in tree.iter_mut() {
        e.parent_vendor = some("13d3");
        e.parent_product = some("3571");
    }
    let facts = collect_host_facts(&tree, Some("TemporaryTimeout = 0\n"), &vec![]);
    assert!(facts.combo);
    assert_eq!(facts.chip, ChipFamily::Realtek);
    assert_eq!(
        facts.check_lines()[2],
        ("bt chip", "realtek".into()),
        "check label must come from the shipped classifier"
    );
}

#[test]
fn broadcom_ff_iface_on_ef_parent_is_combo() {
    let mut e = iface("3-4:1.0", "ff");
    e.parent_class = some("ef");
    e.parent_vendor = some("0a5c");
    e.parent_product = some("21e1");
    e.parent_power = some("auto");
    let facts = collect_host_facts(&vec![e], None, &vec![]);
    assert!(facts.combo, "ef + ff/01/01 is the Broadcom combo shape");
    assert_eq!(facts.chip, ChipFamily::Broadcom);
    assert_eq!(facts.check_lines()[2], ("bt chip", "broadcom".into()));
}

#[test]
fn combo_tree_plus_e0_dongle_still_combo_from_ef_parent() {
    let mut tree = combo_tree();
    tree.extend(trap_dongle());
    let (combo, ifaces) = usb_bt_facts(&tree);
    assert!(combo);
    assert_eq!(ifaces.len(), 3);
    let names: Vec<&str> = ifaces.iter().map(|i| i.name.as_str()).collect();
    assert_eq!(names, vec!["1-2:1.0", "3-4:1.0", "3-4:1.1"]);
}

#[test]
fn parents_and_ids() {
    assert_eq!(usb_parent_name("3-4.1:1.0").as_deref(), Some("3-4.1"));
    assert_eq!(usb_parent_name(":1.0"), None);
    assert_eq!(usb_parent_name("3-4"), None);
    assert_eq!(chip_family_from_ids(" 0x0bda\n", "0", None), ChipFamily::Realtek);
    assert_eq!(chip_family_from_ids("zz", "0", None), ChipFamily::Absent);
    assert_eq!(chip_family_from_ids("10000", "0", None), ChipFamily::Absent);
}
