use catprinterd::ble::discovery::AdapterInfo;
use catprinterd::commands::check::{check_lines, port_line, CheckFacts};
use catprinterd::commands::print::{print_options, printed_line};
use catprinterd::commands::queue::{
    begin, cups_runs, current_device, daemon_answers, driverless_usable, duplicate_queues, install_ppd,
    install_step, is_removed, is_system_default, local_uri, lpadmin_args, plan, ppd_verdict, stamp, wait_for,
    wait_limit_ms, InstallStep, PpdVerdict, QueueFound, QueuePlan, QueueStart, QueueWait,
};
use catprinterd::commands::serve::{
    default_uuid, engine_config, machine_id, max_body, normalize_uuid, printer_config, UUID_NS,
};
use catprinterd::commands::status::{exit_code, status_lines};
use catprinterd::config::{
    parse_u8_auto, BleArgs, EnsureQueueArgs, ModelArg, NotifyMode, OnOff, PrintArgs, ServeArgs,
};
use catprinterd::models::Family;
use catprinterd::printer::{Condition, PrintError, PrintReport};
use catprinterd::render::{Dither, Layout, Preset, Tone};

fn ble() -> BleArgs {
    BleArgs {
        device: None,
        model: ModelArg::Auto,
        adapter: None,
        slow: false,
        pacing_ms: 8,
        notify_mode: NotifyMode::Props,
    }
}

fn serve() -> ServeArgs {
    ServeArgs {
        bind: "127.0.0.1".into(),
        port: 8095,
        printer_wait: 120,
        fake_printer: None,
        queue_max: 16,
        max_document_mb: 64,
        max_lines: 12000,
        max_lines_per_request: 4000,
        max_copies: 10,
        resolutions: vec![203],
        dnssd: OnOff::Off,
        dnssd_name: "Cat Printer".into(),
        printer_name: "CatPrinter".into(),
        queue: "CatPrinter".into(),
        uuid: None,
        location: "here".into(),
        ble: ble(),
    }
}

#[test]
fn numbers_in_either_base() {
    assert_eq!(parse_u8_auto("93"), Ok(93));
    assert_eq!(parse_u8_auto("0x5D"), Ok(0x5D));
    assert!(parse_u8_auto("256").is_err());
    assert!(parse_u8_auto("cat").is_err());
    assert_eq!(ModelArg::Auto.family(), None);
    assert_eq!(ModelArg::Classic.family(), Some(Family::Classic));
}

#[test]
fn serving_config() {
    let c = engine_config(&serve(), None).unwrap();
    assert_eq!(c.printer_wait_ms, 120_000);
    assert_eq!(c.max_document_bytes, 64 * 1024 * 1024);
    assert_eq!(c.render.max_lines_per_request, 4000);
    let mut a = serve();
    a.max_lines_per_request = 7;
    a.queue_max = 0;
    a.max_copies = 0;
    let c = engine_config(&a, None).unwrap();
    assert_eq!((c.render.max_lines_per_request, c.queue_max, c.max_copies), (90, 1, 1));
    a.printer_wait = u64::MAX;
    assert!(engine_config(&a, None).is_none());
    assert_eq!(max_body(10), 10 + 65536);
}

#[test]
fn identity_is_stable() {
    let p = printer_config(&serve(), false, "abc", 5);
    let want = format!(
        "urn:uuid:{}",
        uuid::Uuid::new_v5(&uuid::Uuid::from_u128(UUID_NS), b"abc:8095")
    );
    assert_eq!(p.uuid, want);
    assert_eq!(default_uuid("abc", 8095), want);
    assert_ne!(default_uuid("abc", 8096), want);
    assert_eq!(p.printer_uri(), "ipp://127.0.0.1:8095/ipp/print");
    assert_eq!(p.info, "Cat Printer");
    assert_eq!(printer_config(&serve(), true, "abc", 5).info, "Cat Printer (fake)");
    assert_eq!(normalize_uuid(" 12-34 "), "urn:uuid:12-34");
    assert_eq!(normalize_uuid("urn:uuid:12-34"), "urn:uuid:12-34");
    assert_eq!(machine_id(&vec![None, Some(" id \n".into())], None), "id");
    assert_eq!(machine_id(&vec![None], Some("host\n".into())), "host");
    assert_eq!(machine_id(&vec![None], None), "catprinter");
}

#[test]
fn print_arguments() {
    let a = PrintArgs {
        file: "x.png".into(),
        quality: "Photo".into(),
        bi_level: false,
        sheet: false,
        dither: Some("atkinson".into()),
        intensity: Some(7),
        copies: 1,
        preview_only: None,
        top_first: true,
        max_lines: 500,
        ble: ble(),
    };
    let o = print_options(&a, true);
    assert_eq!((o.preset, o.tone, o.layout), (Preset::Picture, Tone::Grayscale, Layout::Tape));
    assert_eq!(o.dither_override, Some(Dither::Atkinson));
    assert_eq!((o.intensity(), o.rotate_180, o.max_lines_total), (7, false, 500));
    let o = print_options(&PrintArgs { bi_level: true, sheet: true, quality: "draft".into(), ..a }, false);
    assert_eq!((o.preset, o.tone, o.layout), (Preset::Text, Tone::BlackWhite, Layout::Sheet));
    let rep = PrintReport {
        model: "MXW01".into(),
        family: None,
        lines: 120,
        segments: 1,
        copies: 1,
        complete_confirmed: false,
        mtu: Some(247),
        battery: None,
        elapsed_ms: 1,
    };
    assert_eq!(printed_line(&rep), "printed on MXW01 (120 lines, MTU 247, unconfirmed)");
}

#[test]
fn checks() {
    let a = AdapterInfo {
        path: "/org/bluez/hci0".into(),
        address: "AA:BB".into(),
        name: "x".into(),
        powered: true,
    };
    let (l, ok) = check_lines(&CheckFacts { bus: true, bluetoothd: true, adapters: Ok(vec![a]) });
    assert!(ok);
    assert_eq!(l[2].text, "hci0 powered (AA:BB)");
    let (l, ok) = check_lines(&CheckFacts { bus: true, bluetoothd: true, adapters: Ok(vec![]) });
    assert!(!ok);
    assert_eq!(l[2].text, "MISSING — no Bluetooth adapter");
    let (l, ok) = check_lines(&CheckFacts { bus: false, bluetoothd: false, adapters: Err("x".into()) });
    assert!(!ok && l.len() == 1);
    assert_eq!(port_line(false, None), "free");
    assert_eq!(port_line(true, Some("1.0")), "in use — catprinterd 1.0 already listening");
}

#[test]
fn status_of_the_printer() {
    let c = Condition {
        ok: true,
        state: "standby".into(),
        battery: Some(88),
        temperature: None,
        error: None,
        message: "Printer ready".into(),
    };
    assert_eq!(
        status_lines(&c),
        vec!["state    : standby", "battery  : 88%", "message  : Printer ready"]
    );
    assert_eq!(exit_code(&Ok(c)), 0);
    assert_eq!(exit_code(&Err(PrintError::NotFound)), 3);
    assert_eq!(exit_code(&Err(PrintError::AdapterOff)), 2);
}

const PPD: &str = "*PPD-Adobe: \"4.3\"\n*PageSize x: \"\"\n";

#[test]
fn queue_plans() {
    let uri = local_uri(8095);
    assert_eq!(uri, "ipp://127.0.0.1:8095/ipp/print");
    let right = format!("device for CatPrinter: {uri}\n");
    let found = |v: &str, ppd: &str, stamp: Option<String>| QueueFound {
        lpstat_v: v.into(),
        ppd: ppd.into(),
        stamp,
    };
    assert!(matches!(plan(&found("", "", None), &uri, "here"), QueuePlan::Create));
    assert!(matches!(plan(&found(&right, PPD, None), &uri, "here"), QueuePlan::Refresh));
    assert!(matches!(
        plan(&found("device for CatPrinter: ipp://x/y\n", PPD, None), &uri, "here"),
        QueuePlan::Repoint { device } if device == "ipp://x/y"
    ));
    let labelled = install_ppd(Some(PPD), "").unwrap();
    if matches!(ppd_verdict(&labelled), PpdVerdict::Labelled) {
        let s = Some(stamp(&uri, "here"));
        assert!(matches!(plan(&found(&right, &labelled, s), &uri, "here"), QueuePlan::Keep));
    }
    assert_eq!(install_ppd(None, ""), None);
    assert_eq!(current_device(&right).as_deref(), Some(uri.as_str()));
    assert!(matches!(ppd_verdict(""), PpdVerdict::Unreadable));
}

#[test]
fn queue_replies() {
    let a = |queue: &str, remove: bool| EnsureQueueArgs {
        queue: queue.into(),
        port: 8095,
        location: "here".into(),
        remove,
        wait: 60,
    };
    assert!(matches!(begin(&a("bad name", false)), QueueStart::BadName));
    assert!(matches!(begin(&a("CatPrinter", true)), QueueStart::Remove));
    assert!(matches!(begin(&a("CatPrinter", false)), QueueStart::Ensure));
    assert!(is_removed(false, "lpadmin: The printer or class does not exist."));
    assert!(!is_removed(false, "forbidden"));
    assert!(cups_runs(true, "scheduler is running\n"));
    assert!(!cups_runs(true, "scheduler is not running\n"));
    assert!(daemon_answers("HTTP/1.1 200 OK\r\n\r\n{\"version\":\"1\"}"));
    assert!(!daemon_answers("HTTP/1.1 404 Not Found\r\n\r\n"));
    assert_eq!(wait_for(false, 5, 5), QueueWait::Again { pause_ms: 2000 });
    assert_eq!(wait_for(false, 6, 5), QueueWait::GiveUp);
    assert_eq!(wait_for(true, 6, 5), QueueWait::Done);
    assert!(driverless_usable(true, PPD));
    assert!(!driverless_usable(false, PPD));
    let args = lpadmin_args("Cat", "ipp://x", "desk");
    assert_eq!(args[..5], ["-p", "Cat", "-E", "-v", "ipp://x"]);
    assert!(is_system_default("system default destination: Cat\n", "Cat"));
    assert!(!is_system_default("no system default destination\n", "Cat"));
    let list = "device for Cat: ipp://127.0.0.1:8095/ipp/print\ndevice for Cat2: ipp://localhost:8095/ipp/print\ndevice for Other: ipp://x/y\n";
    assert_eq!(duplicate_queues(list, "Cat", &local_uri(8095)), vec!["Cat2"]);
}

#[test]
fn lpadmin_is_tried_three_times() {
    assert_eq!(install_step(1, true), InstallStep::Done);
    assert_eq!(install_step(3, true), InstallStep::Done);
    assert_eq!(install_step(1, false), InstallStep::Again { pause_ms: 2000 });
    assert_eq!(install_step(2, false), InstallStep::Again { pause_ms: 2000 });
    assert_eq!(install_step(3, false), InstallStep::GiveUp { pause_ms: 2000 });
    assert_eq!(wait_limit_ms(0), 1000);
    assert_eq!(wait_limit_ms(1), 1000);
    assert_eq!(wait_limit_ms(60), 60_000);
    assert_eq!(wait_limit_ms(u64::MAX), u64::MAX);
}
