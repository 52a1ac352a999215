use catprinterd::commands::ppd::{
    apply_kid_labels, force_zero_side_margins, ppd_has_kid_labels, strip_openui,
};
use catprinterd::commands::queue::{same_ipp_target, valid_queue_name};

#[test]
fn queue_name_validation() {
    assert!(valid_queue_name("CatPrinter"));
    assert!(valid_queue_name("cat_printer-2"));
    assert!(!valid_queue_name(""));
    assert!(!valid_queue_name("-x"));
    assert!(!valid_queue_name("has space"));
    assert!(!valid_queue_name("a/b"));
    assert!(!valid_queue_name("a#b"));
    assert!(!valid_queue_name(&"q".repeat(200)));
}

#[test]
fn localhost_and_loopback_are_the_same_target() {
    assert!(same_ipp_target(
        "ipp://localhost:8095/ipp/print",
        "ipp://127.0.0.1:8095/ipp/print"
    ));
    assert!(!same_ipp_target(
        "ipp://127.0.0.1:8095/ipp/print",
        "ipp://127.0.0.1:631/ipp/print"
    ));
}

#[test]
fn everywhere_ppd_gets_kid_labels() {
    let raw = r#"
*OpenUI *PageSize: PickOne
*PageSize 48x297mm: "<</PageSize[136 842]>>setpagedevice"
*PageSize 48x500mm: "<</PageSize[136 1417]>>setpagedevice"
*PageSize A4: "<</PageSize[595 842]>>setpagedevice"
*PageSize Letter: "<</PageSize[612 792]>>setpagedevice"
*CloseUI: *PageSize
*OpenUI *MediaType: PickOne
*MediaType Stationery: "<</MediaType(Stationery)>>setpagedevice"
*en_US.MediaType Stationery/Stationery: ""
*MediaType Labels: "<</MediaType(Labels)>>setpagedevice"
*en_US.MediaType Labels/Labels: ""
*CloseUI: *MediaType
*OpenUI *cupsPrintQuality: PickOne
*en_US.Translation cupsPrintQuality/Print Quality: ""
*cupsPrintQuality Draft: "<</HWResolution[203 203]>>setpagedevice"
*en_US.cupsPrintQuality Draft/Draft: ""
*cupsPrintQuality Normal: "<</HWResolution[203 203]>>setpagedevice"
*en_US.cupsPrintQuality Normal/Normal: ""
*cupsPrintQuality High: "<</HWResolution[203 203]>>setpagedevice"
*en_US.cupsPrintQuality High/High: ""
*CloseUI: *cupsPrintQuality
*OpenUI *print-content-optimize/Print Optimization: PickOne
*print-content-optimize auto/Automatic: ""
*print-content-optimize photo/Photo: ""
*print-content-optimize text/Text: ""
*print-content-optimize graphic/Graphics: ""
*CloseUI: *print-content-optimize
*OpenUI *ColorModel: PickOne
*ColorModel Gray: "<</cupsColorSpace 18>>setpagedevice"
*en_US.ColorModel Gray/Grayscale: ""
*DefaultColorModel: FastGray
*CloseUI: *ColorModel
*PaperDimension 48x297mm: "136.06 841.89"
*ImageableArea 48x297mm: "12 2.83 124 839"
*HWMargins: "12 2.83 12 2.83"
"#;
    assert!(!ppd_has_kid_labels(raw));
    let labelled = apply_kid_labels(raw);
    assert!(ppd_has_kid_labels(&labelled), "{labelled}");
    assert!(labelled.contains("*PageSize 48x297mm/Cat Tape short:"));
    assert!(labelled.contains("*PageSize A4/Cat Minidoc A4:"));
    assert!(labelled.contains("*cupsPrintQuality Draft/Text:"));
    assert!(labelled.contains("*en_US.MediaType Stationery/Paper:"));
    assert!(labelled.contains("*ColorModel FastGray/Black and white:"));
    assert!(labelled.contains("*OpenUI *cupsPrintQuality/Print style:"));
    assert!(
        !labelled.contains("print-content-optimize"),
        "Print Optimization duplicates Print style"
    );
    assert!(labelled.contains("*ImageableArea 48x297mm: \"0 2.83 136.06 839\""));
    assert!(labelled.contains("*HWMargins: \"0 2.83 0 2.83\""));
    assert_eq!(apply_kid_labels(&labelled), labelled);
}

#[test]
fn menus_are_dropped_whole() {
    let ppd = "a\n*OpenUI *print-content-optimize/Optimize: PickOne\n*x\n*CloseUI: *print-content-optimize\nb\n";
    assert_eq!(strip_openui(ppd, "print-content-optimize"), "a\nb\n");
    assert_eq!(strip_openui("a\n", "x"), "a\n");
}

#[test]
fn side_margins_become_zero() {
    let ppd = "*PaperDimension 48x297mm: \"136 842\"\n*ImageableArea 48x297mm: \"12 5 124 837\"\n*HWMargins: \"12 5 12 6\"\n";
    assert_eq!(
        force_zero_side_margins(ppd),
        "*PaperDimension 48x297mm: \"136 842\"\n*ImageableArea 48x297mm: \"0 5 136 837\"\n*HWMargins: \"0 5 0 6\"\n"
    );
}

#[test]
fn a_blank_line_behind_a_menu_goes_with_it() {
    let ppd = "*A: 1\n*OpenUI *X/Y: PickOne\n*X a: \"\"\n*CloseUI: *X\n\n*B: 2\n";
    assert_eq!(strip_openui(ppd, "X"), "*A: 1\n*B: 2\n");
    let two = "*OpenUI *X: PickOne\n*CloseUI: *X\n\n\n*B: 2";
    assert_eq!(strip_openui(two, "X"), "\n*B: 2\n");
    assert_eq!(strip_openui("*OpenUI *X: PickOne\n\n*CloseUI: *X\n", "X"), "");
    assert_eq!(strip_openui("a\n\nb\n", "X"), "a\n\nb\n");
}
