//! What is known of the host: BlueZ's TemporaryTimeout, and the power control and silicon of USB
//! Bluetooth interfaces. Nothing here changes the host.

use vstd::prelude::*;

use crate::text::{
    before, chars_of, comes_before, contains, cut, dec, eq_fold, has_text, lemma_before_total,
    lines, lines_of, lower, lower_chars, only, owned, parse_dec, parse_dec_chars, parse_hex,
    parse_hex_chars, push_dec, same_fold, split_once, string_of, strip_prefix, strip_prefixes,
    texts, trim, trim_chars, trim_left, trim_start_of, after_prefix, without_prefixes,
};

verus! {

/// BlueZ's default where `TemporaryTimeout` is absent or commented out.
pub const BLUEZ_DEFAULT_TEMPORARY_TIMEOUT: u32 = 30;

pub const DEFAULT_MAIN_CONF: &'static str = "/etc/bluetooth/main.conf";

pub const DEFAULT_USB_DEVICES: &'static str = "/sys/bus/usb/devices";

/// The name of the udev rule that the kit and the image both ship.
pub const UDEV_RULE_NAME: &'static str = "61-catprinter-btusb.rules";

/// Where the udev rule may be.
pub const DEFAULT_UDEV_RULE_PATHS: [&'static str; 2] = [
    "/etc/udev/rules.d/61-catprinter-btusb.rules",
    "/usr/lib/udev/rules.d/61-catprinter-btusb.rules",
];

// ------------------------------------------------------------------ silicon

/// Families of USB Bluetooth silicon.
#[derive(Debug, Clone, Copy, PartialEq, Eq, Structural)]
pub enum ChipFamily {
    Mediatek,
    Realtek,
    Qualcomm,
    Intel,
    Broadcom,
    Generic,
    /// No silicon at all.
    Absent,
}

impl ChipFamily {
    /// The family's name.
    pub open spec fn text(self) -> &'static str {
        match self {
            ChipFamily::Mediatek => "mediatek",
            ChipFamily::Realtek => "realtek",
            ChipFamily::Qualcomm => "qca",
            ChipFamily::Intel => "intel",
            ChipFamily::Broadcom => "broadcom",
            ChipFamily::Generic => "generic",
            ChipFamily::Absent => "none",
        }
    }

    /// The family's name.
    pub fn as_str(self) -> (r: &'static str)
        ensures
            r == self.text(),
    {
        match self {
            ChipFamily::Mediatek => "mediatek",
            ChipFamily::Realtek => "realtek",
            ChipFamily::Qualcomm => "qca",
            ChipFamily::Intel => "intel",
            ChipFamily::Broadcom => "broadcom",
            ChipFamily::Generic => "generic",
            ChipFamily::Absent => "none",
        }
    }
}

/// How long to wait, in milliseconds, for a live advertisement or a held link before a connect. Combo
/// radios take longer to wake up after an abort.
pub fn advert_wait_for(chip: ChipFamily) -> (r: u64)
    ensures
        r == match chip {
            ChipFamily::Realtek => 2000u64,
            ChipFamily::Mediatek => 2000,
            ChipFamily::Qualcomm => 2000,
            ChipFamily::Broadcom => 2000,
            _ => 800,
        },
{
    match chip {
        ChipFamily::Realtek => 2000,
        ChipFamily::Mediatek => 2000,
        ChipFamily::Qualcomm => 2000,
        ChipFamily::Broadcom => 2000,
        _ => 800,
    }
}

fn has_id(ids: &[u16], id: u16) -> (r: bool)
    ensures
        r == ids@.contains(id),
{
    let mut i: usize = 0;
    while i < ids.len()
        invariant
            i <= ids.len(),
            forall|k: int| 0 <= k < i ==> ids@[k] != id,
        decreases ids.len() - i,
    {
        if ids[i] == id {
            return true;
        }
        i += 1;
    }
    false
}

/// Products of Foxconn with Qualcomm silicon.
pub const FOXCONN_QUALCOMM: [u16; 40] = [
    0xe092, 0xe09f, 0xe0a2, 0xe0c7, 0xe0c9, 0xe0ca, 0xe0cb, 0xe0cc, 0xe0ce, 0xe0d0, 0xe0d6,
    0xe0de, 0xe0df, 0xe0e1, 0xe0e3, 0xe0ea, 0xe0ec, 0xe0fc, 0xe0f3, 0xe100, 0xe103, 0xe10a,
    0xe10d, 0xe11b, 0xe11c, 0xe11f, 0xe141, 0xe14a, 0xe14b, 0xe14d, 0xe04d, 0xe04e, 0xe056,
    0xe057, 0xe05f, 0xe076, 0xe078, 0xe095, 0xe036, 0xe03c,
];

/// Products of Foxconn with Mediatek silicon.
pub const FOXCONN_MEDIATEK: [u16; 35] = [
    0xe0c8, 0xe0cd, 0xe0e0, 0xe0f2, 0xe0d8, 0xe0d9, 0xe0e2, 0xe0e4, 0xe0f1, 0xe0f5, 0xe0f6,
    0xe102, 0xe111, 0xe113, 0xe118, 0xe11e, 0xe124, 0xe134, 0xe135, 0xe14e, 0xe14f, 0xe150,
    0xe151, 0xe158, 0xe11d, 0xe152, 0xe153, 0xe170, 0xe174, 0xe139, 0xe13a, 0xe0fa, 0xe10f,
    0xe110, 0xe116,
];

/// Products of Foxconn with Realtek silicon.
pub const FOXCONN_REALTEK: [u16; 8] = [
    0xe085, 0xe08b, 0xe112, 0xe122, 0xe123, 0xe125, 0xe12f, 0xe130,
];

/// Products of Azurewave with Realtek silicon.
pub const AZUREWAVE_REALTEK: [u16; 30] = [
    0x3529, 0x3533, 0x3548, 0x3549, 0x3553, 0x3555, 0x3570, 0x3571, 0x3572, 0x3586, 0x3587,
    0x3591, 0x3592, 0x3600, 0x3601, 0x3612, 0x3616, 0x3617, 0x3618, 0x3619, 0x3394, 0x3410,
    0x3414, 0x3416, 0x3458, 0x3459, 0x3461, 0x3462, 0x3494, 0x3526,
];

/// Products of Azurewave with Mediatek silicon.
pub const AZUREWAVE_MEDIATEK: [u16; 34] = [
    0x3560, 0x3563, 0x3564, 0x3567, 0x3568, 0x3576, 0x3578, 0x3579, 0x3580, 0x3583, 0x3584,
    0x3585, 0x3588, 0x3594, 0x3596, 0x3602, 0x3603, 0x3604, 0x3605, 0x3606, 0x3607, 0x3608,
    0x3609, 0x3610, 0x3613, 0x3614, 0x3615, 0x3620, 0x3621, 0x3622, 0x3627, 0x3628, 0x3630,
    0x3633,
];

/// Products of Azurewave with Qualcomm silicon.
pub const AZUREWAVE_QUALCOMM: [u16; 17] = [
    0x3362, 0x3375, 0x3393, 0x3395, 0x3402, 0x3408, 0x3423, 0x3432, 0x3472, 0x3474, 0x3487,
    0x3490, 0x3491, 0x3496, 0x3501, 0x3623, 0x3624,
];

/// Products of Lite-On with Realtek silicon.
pub const LITEON_REALTEK: [u16; 3] = [
    0x4005, 0x4006, 0x4007,
];

/// Products of Lite-On with Mediatek silicon.
pub const LITEON_MEDIATEK: [u16; 5] = [
    0x3801, 0x3802, 0x3804, 0x3807, 0x38e4,
];

/// Products of Lite-On with Qualcomm silicon.
pub const LITEON_QUALCOMM: [u16; 23] = [
    0x3004, 0x3005, 0x3006, 0x3007, 0x3008, 0x300b, 0x300d, 0x300f, 0x3010, 0x3011, 0x3014,
    0x3015, 0x3016, 0x3018, 0x301a, 0x3021, 0x3022, 0x3023, 0x3024, 0x3a22, 0x3a24, 0x3a26,
    0x3a27,
];

/// Products of ASUSTek with Realtek silicon.
pub const ASUS_REALTEK: [u16; 4] = [
    0x17dc, 0x185c, 0x18ef, 0x190e,
];

/// Products of ASUSTek with Qualcomm silicon.
pub const ASUS_QUALCOMM: [u16; 1] = [
    0x17d0,
];

/// Products of ASUSTek with Broadcom silicon.
pub const ASUS_BROADCOM: [u16; 1] = [
    0x1715,
];

/// Products of Toshiba with Realtek silicon.
pub const TOSHIBA_REALTEK: [u16; 1] = [
    0x021d,
];

/// Products of Toshiba with Qualcomm silicon.
pub const TOSHIBA_QUALCOMM: [u16; 4] = [
    0x0219, 0x021c, 0x0220, 0x0227,
];

/// Products of Fujitsu with Realtek silicon.
pub const FUJITSU_REALTEK: [u16; 3] = [
    0x165c, 0x1675, 0x161f,
];

/// Products of Fujitsu with Qualcomm silicon.
pub const FUJITSU_QUALCOMM: [u16; 1] = [
    0x1330,
];

/// Products of USI with Qualcomm silicon.
pub const USI_QUALCOMM: [u16; 13] = [
    0x9108, 0x9109, 0x9208, 0x9209, 0x9308, 0x9309, 0x9408, 0x9409, 0x9508, 0x9509, 0x9608,
    0x9609, 0x9f09,
];

/// Products of Quectel with Qualcomm silicon.
pub const QUECTEL_QUALCOMM: [u16; 3] = [
    0x0130, 0x0131, 0x0132,
];

/// Products of Quectel with Mediatek silicon.
pub const QUECTEL_MEDIATEK: [u16; 1] = [
    0x7009,
];

/// Products of Dell with Broadcom silicon.
pub const DELL_BROADCOM: [u16; 3] = [
    0x8126, 0x8152, 0x8156,
];

/// Products of Belkin with Broadcom silicon.
pub const BELKIN_BROADCOM: [u16; 2] = [
    0x0012, 0x0013,
];

/// The silicon of a product of Foxconn; never by the vendor alone.
pub open spec fn spec_foxconn(pid: u16) -> Option<ChipFamily> {
    if FOXCONN_QUALCOMM@.contains(pid) {
        Some(ChipFamily::Qualcomm)
    } else if FOXCONN_MEDIATEK@.contains(pid) {
        Some(ChipFamily::Mediatek)
    } else if FOXCONN_REALTEK@.contains(pid) {
        Some(ChipFamily::Realtek)
    } else {
        None
    }
}

fn foxconn_family(pid: u16) -> (r: Option<ChipFamily>)
    ensures
        r == spec_foxconn(pid),
{
    if has_id(&FOXCONN_QUALCOMM, pid) {
        Some(ChipFamily::Qualcomm)
    } else if has_id(&FOXCONN_MEDIATEK, pid) {
        Some(ChipFamily::Mediatek)
    } else if has_id(&FOXCONN_REALTEK, pid) {
        Some(ChipFamily::Realtek)
    } else {
        None
    }
}

/// The silicon of a product of Azurewave; never by the vendor alone.
pub open spec fn spec_azurewave(pid: u16) -> Option<ChipFamily> {
    if AZUREWAVE_REALTEK@.contains(pid) {
        Some(ChipFamily::Realtek)
    } else if AZUREWAVE_MEDIATEK@.contains(pid) {
        Some(ChipFamily::Mediatek)
    } else if AZUREWAVE_QUALCOMM@.contains(pid) {
        Some(ChipFamily::Qualcomm)
    } else {
        None
    }
}

fn azurewave_family(pid: u16) -> (r: Option<ChipFamily>)
    ensures
        r == spec_azurewave(pid),
{
    if has_id(&AZUREWAVE_REALTEK, pid) {
        Some(ChipFamily::Realtek)
    } else if has_id(&AZUREWAVE_MEDIATEK, pid) {
        Some(ChipFamily::Mediatek)
    } else if has_id(&AZUREWAVE_QUALCOMM, pid) {
        Some(ChipFamily::Qualcomm)
    } else {
        None
    }
}

/// The silicon of a product of Lite-On; never by the vendor alone.
pub open spec fn spec_liteon(pid: u16) -> Option<ChipFamily> {
    if LITEON_REALTEK@.contains(pid) {
        Some(ChipFamily::Realtek)
    } else if LITEON_MEDIATEK@.contains(pid) {
        Some(ChipFamily::Mediatek)
    } else if LITEON_QUALCOMM@.contains(pid) {
        Some(ChipFamily::Qualcomm)
    } else {
        None
    }
}

fn liteon_family(pid: u16) -> (r: Option<ChipFamily>)
    ensures
        r == spec_liteon(pid),
{
    if has_id(&LITEON_REALTEK, pid) {
        Some(ChipFamily::Realtek)
    } else if has_id(&LITEON_MEDIATEK, pid) {
        Some(ChipFamily::Mediatek)
    } else if has_id(&LITEON_QUALCOMM, pid) {
        Some(ChipFamily::Qualcomm)
    } else {
        None
    }
}

/// The silicon of a product of ASUSTek; never by the vendor alone.
pub open spec fn spec_asus(pid: u16) -> Option<ChipFamily> {
    if ASUS_REALTEK@.contains(pid) {
        Some(ChipFamily::Realtek)
    } else if ASUS_QUALCOMM@.contains(pid) {
        Some(ChipFamily::Qualcomm)
    } else if ASUS_BROADCOM@.contains(pid) {
        Some(ChipFamily::Broadcom)
    } else {
        None
    }
}

fn asus_family(pid: u16) -> (r: Option<ChipFamily>)
    ensures
        r == spec_asus(pid),
{
    if has_id(&ASUS_REALTEK, pid) {
        Some(ChipFamily::Realtek)
    } else if has_id(&ASUS_QUALCOMM, pid) {
        Some(ChipFamily::Qualcomm)
    } else if has_id(&ASUS_BROADCOM, pid) {
        Some(ChipFamily::Broadcom)
    } else {
        None
    }
}

/// The silicon of a product of Toshiba; never by the vendor alone.
pub open spec fn spec_toshiba(pid: u16) -> Option<ChipFamily> {
    if TOSHIBA_REALTEK@.contains(pid) {
        Some(ChipFamily::Realtek)
    } else if TOSHIBA_QUALCOMM@.contains(pid) {
        Some(ChipFamily::Qualcomm)
    } else {
        None
    }
}

fn toshiba_family(pid: u16) -> (r: Option<ChipFamily>)
    ensures
        r == spec_toshiba(pid),
{
    if has_id(&TOSHIBA_REALTEK, pid) {
        Some(ChipFamily::Realtek)
    } else if has_id(&TOSHIBA_QUALCOMM, pid) {
        Some(ChipFamily::Qualcomm)
    } else {
        None
    }
}

/// The silicon of a product of Fujitsu; never by the vendor alone.
pub open spec fn spec_fujitsu(pid: u16) -> Option<ChipFamily> {
    if FUJITSU_REALTEK@.contains(pid) {
        Some(ChipFamily::Realtek)
    } else if FUJITSU_QUALCOMM@.contains(pid) {
        Some(ChipFamily::Qualcomm)
    } else {
        None
    }
}

fn fujitsu_family(pid: u16) -> (r: Option<ChipFamily>)
    ensures
        r == spec_fujitsu(pid),
{
    if has_id(&FUJITSU_REALTEK, pid) {
        Some(ChipFamily::Realtek)
    } else if has_id(&FUJITSU_QUALCOMM, pid) {
        Some(ChipFamily::Qualcomm)
    } else {
        None
    }
}

/// The silicon of a product of USI; never by the vendor alone.
pub open spec fn spec_usi(pid: u16) -> Option<ChipFamily> {
    if USI_QUALCOMM@.contains(pid) {
        Some(ChipFamily::Qualcomm)
    } else {
        None
    }
}

fn usi_family(pid: u16) -> (r: Option<ChipFamily>)
    ensures
        r == spec_usi(pid),
{
    if has_id(&USI_QUALCOMM, pid) {
        Some(ChipFamily::Qualcomm)
    } else {
        None
    }
}

/// The silicon of a product of Quectel; never by the vendor alone.
pub open spec fn spec_quectel(pid: u16) -> Option<ChipFamily> {
    if QUECTEL_QUALCOMM@.contains(pid) {
        Some(ChipFamily::Qualcomm)
    } else if QUECTEL_MEDIATEK@.contains(pid) {
        Some(ChipFamily::Mediatek)
    } else {
        None
    }
}

fn quectel_family(pid: u16) -> (r: Option<ChipFamily>)
    ensures
        r == spec_quectel(pid),
{
    if has_id(&QUECTEL_QUALCOMM, pid) {
        Some(ChipFamily::Qualcomm)
    } else if has_id(&QUECTEL_MEDIATEK, pid) {
        Some(ChipFamily::Mediatek)
    } else {
        None
    }
}

/// The silicon of a product of Dell; never by the vendor alone.
pub open spec fn spec_dell(pid: u16) -> Option<ChipFamily> {
    if DELL_BROADCOM@.contains(pid) {
        Some(ChipFamily::Broadcom)
    } else {
        None
    }
}

fn dell_family(pid: u16) -> (r: Option<ChipFamily>)
    ensures
        r == spec_dell(pid),
{
    if has_id(&DELL_BROADCOM, pid) {
        Some(ChipFamily::Broadcom)
    } else {
        None
    }
}

/// The silicon of a product of Belkin; never by the vendor alone.
pub open spec fn spec_belkin(pid: u16) -> Option<ChipFamily> {
    if BELKIN_BROADCOM@.contains(pid) {
        Some(ChipFamily::Broadcom)
    } else {
        None
    }
}

fn belkin_family(pid: u16) -> (r: Option<ChipFamily>)
    ensures
        r == spec_belkin(pid),
{
    if has_id(&BELKIN_BROADCOM, pid) {
        Some(ChipFamily::Broadcom)
    } else {
        None
    }
}

/// The silicon of a product that is told by vendor and product.
pub open spec fn spec_quirk(vid: u16, pid: u16) -> Option<ChipFamily> {
    if vid == 0x0489 {
        spec_foxconn(pid)
    } else if vid == 0x13d3 {
        spec_azurewave(pid)
    } else if vid == 0x04ca {
        spec_liteon(pid)
    } else if vid == 0x0b05 {
        spec_asus(pid)
    } else if vid == 0x0930 {
        spec_toshiba(pid)
    } else if vid == 0x04c5 {
        spec_fujitsu(pid)
    } else if vid == 0x10ab {
        spec_usi(pid)
    } else if vid == 0x2c7c {
        spec_quectel(pid)
    } else if vid == 0x413c {
        spec_dell(pid)
    } else if vid == 0x050d {
        spec_belkin(pid)
    } else {
        None
    }
}

fn quirk_family(vid: u16, pid: u16) -> (r: Option<ChipFamily>)
    ensures
        r == spec_quirk(vid, pid),
{
    if vid == 0x0489 {
        foxconn_family(pid)
    } else if vid == 0x13d3 {
        azurewave_family(pid)
    } else if vid == 0x04ca {
        liteon_family(pid)
    } else if vid == 0x0b05 {
        asus_family(pid)
    } else if vid == 0x0930 {
        toshiba_family(pid)
    } else if vid == 0x04c5 {
        fujitsu_family(pid)
    } else if vid == 0x10ab {
        usi_family(pid)
    } else if vid == 0x2c7c {
        quectel_family(pid)
    } else if vid == 0x413c {
        dell_family(pid)
    } else if vid == 0x050d {
        belkin_family(pid)
    } else {
        None
    }
}

/// The silicon that a driver's name tells.
pub open spec fn driver_chip(driver: Seq<char>) -> Option<ChipFamily> {
    let d = lower(driver);
    if contains(d, "btmtk"@) {
        Some(ChipFamily::Mediatek)
    } else if contains(d, "btrtl"@) {
        Some(ChipFamily::Realtek)
    } else if contains(d, "btintel"@) {
        Some(ChipFamily::Intel)
    } else if contains(d, "btqca"@) || contains(d, "ath3k"@) || contains(d, "hci_qca"@) {
        Some(ChipFamily::Qualcomm)
    } else if contains(d, "btbcm"@) {
        Some(ChipFamily::Broadcom)
    } else {
        None
    }
}

fn chip_of_driver(driver: &str) -> (r: Option<ChipFamily>)
    ensures
        r == driver_chip(driver@),
{
    let low = lower_chars(chars_of(driver).as_slice());
    let d = low.as_slice();
    if has_text(d, "btmtk") {
        Some(ChipFamily::Mediatek)
    } else if has_text(d, "btrtl") {
        Some(ChipFamily::Realtek)
    } else if has_text(d, "btintel") {
        Some(ChipFamily::Intel)
    } else if has_text(d, "btqca") || has_text(d, "ath3k") || has_text(d, "hci_qca") {
        Some(ChipFamily::Qualcomm)
    } else if has_text(d, "btbcm") {
        Some(ChipFamily::Broadcom)
    } else {
        None
    }
}

/// A hexadecimal id of 16 bits, with or without `0x`; 0 where it is none.
pub open spec fn id_of(s: Seq<char>) -> u16 {
    match parse_hex(without_prefixes(trim(s), "0x"@), 0xffff) {
        Some(n) => n as u16,
        None => 0,
    }
}

fn read_id(s: &str) -> (r: u16)
    ensures
        r == id_of(s@),
{
    let cs = chars_of(s);
    let t = strip_prefixes(trim_chars(cs.as_slice()), "0x");
    match parse_hex_chars(t, 0xffff) {
        Some(n) => n as u16,
        None => 0,
    }
}

/// The silicon by vendor alone, for vendors that have one kind only.
pub open spec fn vendor_chip(vid: u16) -> ChipFamily {
    if vid == 0x0bda {
        ChipFamily::Realtek
    } else if vid == 0x0e8d {
        ChipFamily::Mediatek
    } else if vid == 0x8087 {
        ChipFamily::Intel
    } else if vid == 0x0cf3 {
        ChipFamily::Qualcomm
    } else if vid == 0x0a5c || vid == 0x05ac || vid == 0x105b || vid == 0x19ff {
        ChipFamily::Broadcom
    } else if vid != 0 {
        ChipFamily::Generic
    } else {
        ChipFamily::Absent
    }
}

/// The silicon of an interface: the driver's name wins, then vendor and product, then the vendor.
pub open spec fn spec_chip(vendor: Seq<char>, product: Seq<char>, driver: Seq<char>) -> ChipFamily {
    if driver_chip(driver) is Some {
        driver_chip(driver)->0
    } else if spec_quirk(id_of(vendor), id_of(product)) is Some {
        spec_quirk(id_of(vendor), id_of(product))->0
    } else {
        vendor_chip(id_of(vendor))
    }
}

/// The text, or the empty one.
pub open spec fn or_empty(t: Option<&str>) -> Seq<char> {
    match t {
        Some(t) => t@,
        None => ""@,
    }
}

/// The silicon of an interface, by its hexadecimal ids and its bound driver.
pub fn chip_family_from_ids(vendor: &str, product: &str, driver: Option<&str>) -> (r: ChipFamily)
    ensures
        r == spec_chip(vendor@, product@, or_empty(driver)),
{
    let d = match driver {
        Some(d) => d,
        None => "",
    };
    if let Some(f) = chip_of_driver(d) {
        return f;
    }
    let vid: u16 = read_id(vendor);
    let pid: u16 = read_id(product);
    if let Some(f) = quirk_family(vid, pid) {
        return f;
    }
    if vid == 0x0bda {
        ChipFamily::Realtek
    } else if vid == 0x0e8d {
        ChipFamily::Mediatek
    } else if vid == 0x8087 {
        ChipFamily::Intel
    } else if vid == 0x0cf3 {
        ChipFamily::Qualcomm
    } else if vid == 0x0a5c || vid == 0x05ac || vid == 0x105b || vid == 0x19ff {
        ChipFamily::Broadcom
    } else if vid != 0 {
        ChipFamily::Generic
    } else {
        ChipFamily::Absent
    }
}

// ------------------------------------------------------------------ USB interfaces

/// A USB Bluetooth interface.
#[derive(Debug, Clone, PartialEq, Eq)]
pub struct BtUsbInterface {
    pub name: String,
    pub power_control: Option<String>,
    pub vendor: Option<String>,
    pub product: Option<String>,
    pub driver: Option<String>,
}

/// An entry of the tree of USB devices, with what its files hold and those of its parent; `None` for a
/// file that cannot be read or is empty.
#[derive(Debug)]
pub struct UsbEntry {
    pub name: String,
    pub class: Option<String>,
    pub subclass: Option<String>,
    pub protocol: Option<String>,
    pub power: Option<String>,
    pub driver: Option<String>,
    pub parent_power: Option<String>,
    pub parent_class: Option<String>,
    pub parent_vendor: Option<String>,
    pub parent_product: Option<String>,
}

/// The text is the given one, outer white space and case aside.
pub open spec fn is_code(t: Option<String>, want: Seq<char>) -> bool {
    t is Some && same_fold(trim((t->0)@), want)
}

fn eq_hex(t: &Option<String>, want: &str) -> (r: bool)
    ensures
        r == is_code(*t, want@),
{
    match t {
        Some(t) => {
            let cs = chars_of(t.as_str());
            eq_fold(trim_chars(cs.as_slice()), chars_of(want).as_slice())
        },
        None => false,
    }
}

/// The name of the USB device of an interface: what stands before the colon, if anything does.
pub open spec fn parent_of(name: Seq<char>) -> Option<Seq<char>> {
    match split_once(name, ':') {
        Some((p, _)) => if p.len() > 0 {
            Some(p)
        } else {
            None
        },
        None => None,
    }
}

/// The name of the USB device of an interface (`3-4:1.0` gives `3-4`).
pub fn usb_parent_name(name: &str) -> (r: Option<String>)
    ensures
        match r {
            Some(p) => parent_of(name@) == Some(p@),
            None => parent_of(name@) is None,
        },
{
    let cs = chars_of(name);
    match cut(cs.as_slice(), ':') {
        Some((p, _)) => if p.len() > 0 {
            Some(string_of(p))
        } else {
            None
        },
        None => None,
    }
}

/// The entry is a Bluetooth interface: a wireless controller, or a vendor-specific one as Broadcom has
/// them.
pub open spec fn is_bt(e: UsbEntry) -> bool {
    &&& e.name@.contains(':')
    &&& is_code(e.class, "e0"@) || is_code(e.class, "ff"@)
    &&& is_code(e.subclass, "01"@)
    &&& is_code(e.protocol, "01"@)
}

fn is_bt_usb_iface(e: &UsbEntry) -> (r: bool)
    ensures
        r == is_bt(*e),
{
    let cs = chars_of(e.name.as_str());
    let mut colon = false;
    let mut i: usize = 0;
    while i < cs.len()
        invariant
            i <= cs.len(),
            colon == (exists|k: int| 0 <= k < i && #[trigger] cs@[k] == ':'),
        decreases cs.len() - i,
    {
        if cs[i] == ':' {
            colon = true;
        }
        i += 1;
    }
    assert(colon == e.name@.contains(':'));
    colon && (eq_hex(&e.class, "e0") || eq_hex(&e.class, "ff")) && eq_hex(&e.subclass, "01")
        && eq_hex(&e.protocol, "01")
}

/// The view of an optional text.
pub open spec fn opt_view(t: Option<String>) -> Option<Seq<char>> {
    match t {
        Some(t) => Some(t@),
        None => None,
    }
}

fn copy_opt(t: &Option<String>) -> (r: Option<String>)
    ensures
        opt_view(r) == opt_view(*t),
{
    match t {
        Some(t) => Some(owned(t.as_str())),
        None => None,
    }
}

/// What is known of a USB Bluetooth interface.
pub struct IfaceView {
    pub name: Seq<char>,
    pub power_control: Option<Seq<char>>,
    pub vendor: Option<Seq<char>>,
    pub product: Option<Seq<char>>,
    pub driver: Option<Seq<char>>,
}

impl BtUsbInterface {
    /// What is known of the interface.
    pub open spec fn model(self) -> IfaceView {
        IfaceView {
            name: self.name@,
            power_control: opt_view(self.power_control),
            vendor: opt_view(self.vendor),
            product: opt_view(self.product),
            driver: opt_view(self.driver),
        }
    }
}

/// What is known of the interface of an entry. Its power control is its own or its device's; its ids are
/// its device's.
pub open spec fn iface_of(e: UsbEntry) -> IfaceView {
    let p = parent_of(e.name@) is Some;
    IfaceView {
        name: e.name@,
        power_control: if e.power is Some || !p {
            opt_view(e.power)
        } else {
            opt_view(e.parent_power)
        },
        vendor: if p {
            opt_view(e.parent_vendor)
        } else {
            None
        },
        product: if p {
            opt_view(e.parent_product)
        } else {
            None
        },
        driver: opt_view(e.driver),
    }
}

fn read_iface(e: &UsbEntry) -> (r: BtUsbInterface)
    ensures
        r.model() == iface_of(*e),
{
    let p = usb_parent_name(e.name.as_str()).is_some();
    BtUsbInterface {
        name: owned(e.name.as_str()),
        power_control: if e.power.is_some() || !p {
            copy_opt(&e.power)
        } else {
            copy_opt(&e.parent_power)
        },
        vendor: if p {
            copy_opt(&e.parent_vendor)
        } else {
            None
        },
        product: if p {
            copy_opt(&e.parent_product)
        } else {
            None
        },
        driver: copy_opt(&e.driver),
    }
}

/// An entry of a list is an interface of a composite device.
pub open spec fn is_combo(e: UsbEntry) -> bool {
    is_bt(e) && parent_of(e.name@) is Some && is_code(e.parent_class, "ef"@)
}

/// The list with an interface in its place by name, behind those of the same name.
pub open spec fn with_iface(v: Seq<IfaceView>, x: IfaceView) -> Seq<IfaceView>
    decreases v.len(),
{
    if v.len() == 0 || !before(x.name, v.last().name) {
        v.push(x)
    } else {
        with_iface(v.drop_last(), x).push(v.last())
    }
}

/// The Bluetooth interfaces of a list of entries, in the order of their names.
pub open spec fn ifaces_of(entries: Seq<UsbEntry>) -> Seq<IfaceView>
    decreases entries.len(),
{
    if entries.len() == 0 {
        Seq::empty()
    } else if is_bt(entries.last()) {
        with_iface(ifaces_of(entries.drop_last()), iface_of(entries.last()))
    } else {
        ifaces_of(entries.drop_last())
    }
}

/// What is known of the interfaces of a list.
pub open spec fn iface_views(v: Seq<BtUsbInterface>) -> Seq<IfaceView> {
    Seq::new(v.len(), |i: int| v[i].model())
}

fn insert_iface(list: &mut Vec<BtUsbInterface>, x: BtUsbInterface)
    ensures
        iface_views(final(list)@) == with_iface(iface_views(old(list)@), x.model()),
{
    let name = chars_of(x.name.as_str());
    let ghost was = iface_views(list@);
    let ghost m = x.model();
    let mut i: usize = list.len();
    assert(was.take(i as int) =~= was);
    assert(was.skip(i as int) =~= Seq::<IfaceView>::empty());
    assert(with_iface(was, m) =~= with_iface(was.take(i as int), m) + was.skip(i as int));
    while i > 0 && comes_before(
        name.as_slice(),
        chars_of(list[i - 1].name.as_str()).as_slice(),
    )
        invariant
            i <= list.len(),
            list@ == old(list)@,
            was == iface_views(list@),
            m == x.model(),
            name@ == x.name@,
            with_iface(was, m) == with_iface(was.take(i as int), m) + was.skip(i as int),
        decreases i,
    {
        proof {
            let t = was.take(i as int);
            assert(t.drop_last() =~= was.take(i as int - 1));
            assert(t.last() == list@[i as int - 1].model());
            assert(with_iface(t.drop_last(), m).push(t.last()) + was.skip(i as int)
                =~= with_iface(was.take(i as int - 1), m) + was.skip(i as int - 1));
        }
        i = i - 1;
    }
    proof {
        let t = was.take(i as int);
        if i > 0 {
            assert(t.last() == list@[i as int - 1].model());
        }
        assert(with_iface(t, m) == t.push(m));
    }
    list.insert(i, x);
    assert(iface_views(list@) =~= was.take(i as int).push(m) + was.skip(i as int));
}

/// Whether there is a combo card, and the Bluetooth interfaces in the order of their names. A combo is
/// an interface of a composite device; a device whose own class is that of a wireless controller is
/// none.
pub fn usb_bt_facts(entries: &Vec<UsbEntry>) -> (r: (bool, Vec<BtUsbInterface>))
    ensures
        r.0 == (exists|i: int| 0 <= i < entries@.len() && is_combo(#[trigger] entries@[i])),
        iface_views(r.1@) == ifaces_of(entries@),
{
    let mut combo = false;
    let mut ifaces: Vec<BtUsbInterface> = Vec::new();
    let mut i: usize = 0;
    assert(iface_views(ifaces@) =~= ifaces_of(entries@.take(0)));
    while i < entries.len()
        invariant
            i <= entries.len(),
            combo == (exists|k: int| 0 <= k < i && is_combo(#[trigger] entries@[k])),
            iface_views(ifaces@) == ifaces_of(entries@.take(i as int)),
        decreases entries.len() - i,
    {
        let e = &entries[i];
        assert(entries@.take(i as int + 1).drop_last() =~= entries@.take(i as int));
        if is_bt_usb_iface(e) {
            if usb_parent_name(e.name.as_str()).is_some() && eq_hex(&e.parent_class, "ef") {
                combo = true;
                assert(is_combo(entries@[i as int]));
            }
            insert_iface(&mut ifaces, read_iface(e));
        }
        i += 1;
    }
    assert(entries@.take(entries@.len() as int) =~= entries@);
    (combo, ifaces)
}

/// The silicon of an interface.
pub open spec fn chip_of(i: IfaceView) -> ChipFamily {
    spec_chip(text_or_empty(i.vendor), text_or_empty(i.product), text_or_empty(i.driver))
}

/// The text, or the empty one.
pub open spec fn text_or_empty(t: Option<Seq<char>>) -> Seq<char> {
    match t {
        Some(t) => t,
        None => ""@,
    }
}

/// The first silicon of a list that is known; else generic, or none where the list is empty.
pub open spec fn chip_in(v: Seq<IfaceView>) -> ChipFamily
    decreases v.len(),
{
    if v.len() == 0 {
        ChipFamily::Absent
    } else if chip_of(v[0]) != ChipFamily::Absent && chip_of(v[0]) != ChipFamily::Generic {
        chip_of(v[0])
    } else if chip_in(v.skip(1)) == ChipFamily::Absent {
        ChipFamily::Generic
    } else {
        chip_in(v.skip(1))
    }
}

fn opt_str(t: &Option<String>) -> (r: &str)
    ensures
        r@ == text_or_empty(opt_view(*t)),
{
    match t {
        Some(t) => t.as_str(),
        None => "",
    }
}

/// The silicon of the interfaces.
pub fn chip_from_ifaces(ifaces: &Vec<BtUsbInterface>) -> (r: ChipFamily)
    ensures
        r == chip_in(iface_views(ifaces@)),
{
    let ghost v = iface_views(ifaces@);
    let mut i: usize = 0;
    assert(v.skip(0) =~= v);
    while i < ifaces.len()
        invariant
            i <= ifaces.len(),
            v == iface_views(ifaces@),
            i > 0 ==> chip_in(v) == if chip_in(v.skip(i as int)) == ChipFamily::Absent {
                ChipFamily::Generic
            } else {
                chip_in(v.skip(i as int))
            },
            i == 0 ==> chip_in(v) == chip_in(v.skip(i as int)),
        decreases ifaces.len() - i,
    {
        let x = &ifaces[i];
        assert(v.skip(i as int)[0] == x.model());
        assert(v.skip(i as int).skip(1) =~= v.skip(i as int + 1));
        let f = chip_family_from_ids(
            opt_str(&x.vendor),
            opt_str(&x.product),
            Some(opt_str(&x.driver)),
        );
        if f != ChipFamily::Absent && f != ChipFamily::Generic {
            return f;
        }
        i += 1;
    }
    if ifaces.len() == 0 {
        ChipFamily::Absent
    } else {
        ChipFamily::Generic
    }
}

// ------------------------------------------------------------------ configuration

/// The code of a line of a configuration: without outer white space and without what a `#` begins.
pub open spec fn code_of(line: Seq<char>) -> Seq<char> {
    let l = trim(line);
    match split_once(l, '#') {
        Some((a, _)) => trim(a),
        None => l,
    }
}

/// The timeout that a line sets.
pub open spec fn timeout_in(line: Seq<char>) -> Option<nat> {
    match after_prefix(code_of(line), "TemporaryTimeout"@) {
        Some(rest) => parse_dec(trim(trim_left(trim(rest), only('='))), u32::MAX as nat),
        None => None,
    }
}

/// The first timeout that a line of a list sets, or else the default; and whether it is the default.
pub open spec fn first_timeout(l: Seq<Seq<char>>) -> (u32, bool)
    decreases l.len(),
{
    if l.len() == 0 {
        (BLUEZ_DEFAULT_TEMPORARY_TIMEOUT, true)
    } else {
        match timeout_in(l[0]) {
            Some(n) => (n as u32, false),
            None => first_timeout(l.skip(1)),
        }
    }
}

fn timeout_of(line: &[char]) -> (r: Option<u32>)
    ensures
        match r {
            Some(n) => timeout_in(line@) == Some(n as nat),
            None => timeout_in(line@) is None,
        },
{
    let l = trim_chars(line);
    let code = match cut(l, '#') {
        Some((a, _)) => trim_chars(a),
        None => l,
    };
    match strip_prefix(code, "TemporaryTimeout") {
        Some(rest) => {
            let v = trim_chars(trim_start_of(trim_chars(rest), '='));
            match parse_dec_chars(v, u32::MAX as u64) {
                Some(n) => Some(n as u32),
                None => None,
            }
        },
        None => None,
    }
}

/// The timeout that a configuration sets, and whether it is the default for want of one.
pub fn temporary_timeout_from_text(conf: &str) -> (r: (u32, bool))
    ensures
        r == first_timeout(lines(conf@)),
{
    let cs = chars_of(conf);
    let ls = lines_of(cs.as_slice());
    let ghost v = lines(conf@);
    let mut i: usize = 0;
    assert(v.skip(0) =~= v);
    assert(texts(ls@).len() == ls@.len());
    while i < ls.len()
        invariant
            i <= ls.len(),
            v == texts(ls@),
            v == lines(conf@),
            first_timeout(v) == first_timeout(v.skip(i as int)),
        decreases ls.len() - i,
    {
        assert(v.skip(i as int)[0] == ls@[i as int]@);
        assert(v.skip(i as int).skip(1) =~= v.skip(i as int + 1));
        if let Some(n) = timeout_of(ls[i].as_slice()) {
            return (n, false);
        }
        i += 1;
    }
    (BLUEZ_DEFAULT_TEMPORARY_TIMEOUT, true)
}

/// The timeout of a configuration file; `None` for one that cannot be read.
pub fn temporary_timeout(conf: Option<&str>) -> (r: (u32, bool))
    ensures
        r == match conf {
            Some(t) => first_timeout(lines(t@)),
            None => (BLUEZ_DEFAULT_TEMPORARY_TIMEOUT, true),
        },
{
    match conf {
        Some(t) => temporary_timeout_from_text(t),
        None => (BLUEZ_DEFAULT_TEMPORARY_TIMEOUT, true),
    }
}

/// The rule is about interfaces of wireless controllers. One about devices of that class is the trap that
/// misses combo cards, and does not count.
pub open spec fn is_iface_rule(t: Seq<char>) -> bool {
    contains(lower(t), "binterfaceclass"@) && contains(lower(t), "e0"@)
}

/// Whether one of the rules is about interfaces of wireless controllers.
pub fn udev_rule_present_in(rules: &Vec<String>) -> (r: bool)
    ensures
        r == (exists|i: int| 0 <= i < rules@.len() && is_iface_rule((#[trigger] rules@[i])@)),
{
    let mut i: usize = 0;
    while i < rules.len()
        invariant
            i <= rules.len(),
            forall|k: int| 0 <= k < i ==> !is_iface_rule((#[trigger] rules@[k])@),
        decreases rules.len() - i,
    {
        let low = lower_chars(chars_of(rules[i].as_str()).as_slice());
        if has_text(low.as_slice(), "binterfaceclass") && has_text(low.as_slice(), "e0") {
            return true;
        }
        i += 1;
    }
    false
}

// ------------------------------------------------------------------ facts

/// What is known of the host.
#[derive(Debug, PartialEq, Eq)]
pub struct HostFacts {
    pub temporary_timeout: u32,
    /// The value is BlueZ's default (key absent, commented out, or unreadable).
    pub temporary_timeout_is_default: bool,
    pub combo: bool,
    pub chip: ChipFamily,
    pub udev: bool,
    pub bt_interfaces: Vec<BtUsbInterface>,
}

/// An interface with its power control.
pub open spec fn power_of(i: IfaceView) -> Seq<char> {
    i.name + "="@ + match i.power_control {
        Some(v) => v,
        None => "?"@,
    }
}

/// The interfaces with their power controls, with spaces between them.
pub open spec fn powers(v: Seq<IfaceView>) -> Seq<char>
    decreases v.len(),
{
    if v.len() == 0 {
        Seq::empty()
    } else if v.len() == 1 {
        power_of(v[0])
    } else {
        powers(v.drop_last()) + " "@ + power_of(v.last())
    }
}

fn push_power(out: &mut String, i: &BtUsbInterface)
    ensures
        final(out)@ == old(out)@ + power_of(i.model()),
{
    out.push_str(i.name.as_str());
    out.push_str("=");
    match &i.power_control {
        Some(v) => out.push_str(v.as_str()),
        None => out.push_str("?"),
    }
    assert(out@ =~= old(out)@ + power_of(i.model()));
}

/// The facts from what the host's files hold.
pub fn collect_host_facts(entries: &Vec<UsbEntry>, conf: Option<&str>, rules: &Vec<String>) -> (r: HostFacts)
    ensures
        (r.temporary_timeout, r.temporary_timeout_is_default) == match conf {
            Some(t) => first_timeout(lines(t@)),
            None => (BLUEZ_DEFAULT_TEMPORARY_TIMEOUT, true),
        },
        r.combo == (exists|i: int| 0 <= i < entries@.len() && is_combo(#[trigger] entries@[i])),
        iface_views(r.bt_interfaces@) == ifaces_of(entries@),
        r.chip == chip_in(ifaces_of(entries@)),
        r.udev == (exists|i: int| 0 <= i < rules@.len() && is_iface_rule((#[trigger] rules@[i])@)),
{
    let (n, default) = temporary_timeout(conf);
    let (combo, bt_interfaces) = usb_bt_facts(entries);
    let chip = chip_from_ifaces(&bt_interfaces);
    HostFacts {
        temporary_timeout: n,
        temporary_timeout_is_default: default,
        combo,
        chip,
        udev: udev_rule_present_in(rules),
        bt_interfaces,
    }
}

impl HostFacts {
    /// The power controls of the interfaces.
    pub open spec fn power_text(self) -> Seq<char> {
        if self.bt_interfaces@.len() == 0 {
            "no BT USB interfaces"@
        } else {
            powers(iface_views(self.bt_interfaces@))
        }
    }

    /// The power controls of the interfaces, as in `3-4:1.0=on 3-4:1.1=auto`.
    pub fn power_control_line(&self) -> (r: String)
        ensures
            r@ == self.power_text(),
    {
        if self.bt_interfaces.len() == 0 {
            return owned("no BT USB interfaces");
        }
        let ghost v = iface_views(self.bt_interfaces@);
        let mut out = String::new();
        push_power(&mut out, &self.bt_interfaces[0]);
        assert(v.take(1)[0] == v[0]);
        assert(out@ =~= powers(v.take(1)));
        let mut i: usize = 1;
        while i < self.bt_interfaces.len()
            invariant
                1 <= i <= self.bt_interfaces.len(),
                v == iface_views(self.bt_interfaces@),
                out@ == powers(v.take(i as int)),
            decreases self.bt_interfaces.len() - i,
        {
            assert(v.take(i as int + 1).drop_last() =~= v.take(i as int));
            out.push_str(" ");
            push_power(&mut out, &self.bt_interfaces[i]);
            i += 1;
        }
        assert(v.take(v.len() as int) =~= v);
        out
    }

    /// The timeout, and whether it is the default.
    pub open spec fn timeout_text(self) -> Seq<char> {
        if self.temporary_timeout_is_default {
            dec(self.temporary_timeout as nat) + " (default)"@
        } else {
            dec(self.temporary_timeout as nat)
        }
    }

    /// The timeout, and whether it is the default.
    pub fn temporary_timeout_line(&self) -> (r: String)
        ensures
            r@ == self.timeout_text(),
    {
        let mut out = String::new();
        push_dec(&mut out, self.temporary_timeout as u64);
        assert(out@ =~= dec(self.temporary_timeout as nat));
        if self.temporary_timeout_is_default {
            out.push_str(" (default)");
        }
        out
    }

    /// Whether there is a combo card, in words.
    pub fn combo_line(&self) -> (r: &'static str)
        ensures
            r == if self.combo {
                "yes"
            } else {
                "no"
            },
    {
        if self.combo {
            "yes"
        } else {
            "no"
        }
    }

    /// Labels and values of what `check` prints of the host.
    pub open spec fn check_view(self) -> Seq<(Seq<char>, Seq<char>)> {
        seq![
            ("TemporaryTimeout"@, self.timeout_text()),
            (
                "combo"@,
                if self.combo {
                    "yes"@
                } else {
                    "no"@
                },
            ),
            ("bt chip"@, self.chip.text()@),
            ("power/control"@, self.power_text()),
            (
                "udev"@,
                if self.udev {
                    "present"@
                } else {
                    "absent"@
                },
            ),
        ]
    }

    /// Labels and values of what `check` prints of the host. They do not decide whether it is ready.
    pub fn check_lines(&self) -> (r: Vec<(&'static str, String)>)
        ensures
            line_views(r@) == self.check_view(),
    {
        let mut r: Vec<(&'static str, String)> = Vec::new();
        r.push(("TemporaryTimeout", self.temporary_timeout_line()));
        r.push(("combo", owned(self.combo_line())));
        r.push(("bt chip", owned(self.chip.as_str())));
        r.push(("power/control", self.power_control_line()));
        r.push(
            (
                "udev",
                owned(
                    if self.udev {
                        "present"
                    } else {
                        "absent"
                    },
                ),
            ),
        );
        assert(line_views(r@) =~= self.check_view());
        r
    }
}

/// What lines of labels and values hold.
pub open spec fn line_views(v: Seq<(&'static str, String)>) -> Seq<(Seq<char>, Seq<char>)> {
    Seq::new(v.len(), |i: int| (v[i].0@, v[i].1@))
}

// ------------------------------------------------------------------ laws

/// The list is in the order of the names.
pub open spec fn by_name(v: Seq<IfaceView>) -> bool {
    forall|i: int, j: int|
        0 <= i < j < v.len() ==> !before((#[trigger] v[j]).name, (#[trigger] v[i]).name)
}

/// The interfaces are listed in the order of their names, and all of them.
pub proof fn lemma_ifaces_by_name(entries: Seq<UsbEntry>)
    ensures
        by_name(ifaces_of(entries)),
        forall|i: int|
            0 <= i < entries.len() && is_bt(#[trigger] entries[i]) ==> ifaces_of(entries).contains(
                iface_of(entries[i]),
            ),
    decreases entries.len(),
{
    if entries.len() > 0 {
        let rest = entries.drop_last();
        let last = entries.last();
        lemma_ifaces_by_name(rest);
        if is_bt(last) {
            lemma_with_iface(ifaces_of(rest), iface_of(last));
        }
        assert forall|i: int| 0 <= i < entries.len() && is_bt(#[trigger] entries[i]) implies ifaces_of(
            entries,
        ).contains(iface_of(entries[i])) by {
            if i < rest.len() {
                assert(rest[i] == entries[i]);
                assert(ifaces_of(rest).contains(iface_of(rest[i])));
            }
        }
    }
}

proof fn lemma_with_iface(v: Seq<IfaceView>, x: IfaceView)
    requires
        by_name(v),
    ensures
        by_name(with_iface(v, x)),
        with_iface(v, x).contains(x),
        forall|y: IfaceView| v.contains(y) ==> #[trigger] with_iface(v, x).contains(y),
        forall|y: IfaceView| #[trigger] with_iface(v, x).contains(y) ==> y == x || v.contains(y),
    decreases v.len(),
{
    let w = with_iface(v, x);
    if v.len() == 0 || !before(x.name, v.last().name) {
        assert(w == v.push(x));
        assert(w[v.len() as int] == x);
        assert forall|y: IfaceView| v.contains(y) implies #[trigger] w.contains(y) by {
            let k = choose|k: int| 0 <= k < v.len() && v[k] == y;
            assert(w[k] == y);
        }
        assert forall|i: int, j: int| 0 <= i < j < w.len() implies !before(
            (#[trigger] w[j]).name,
            (#[trigger] w[i]).name,
        ) by {
            if j == v.len() {
                lemma_before_total(x.name, v.last().name);
                if i < v.len() - 1 {
                    assert(!before(v[v.len() - 1].name, v[i].name));
                    lemma_before_total(v[v.len() - 1].name, v[i].name);
                    if before(x.name, v[i].name) {
                        if v[i].name != v.last().name {
                            crate::text::lemma_before_transitive(
                                x.name,
                                v[i].name,
                                v.last().name,
                            );
                        }
                    }
                }
            }
        }
    } else {
        let rest = v.drop_last();
        let last = v.last();
        assert forall|i: int, j: int| 0 <= i < j < rest.len() implies !before(
            (#[trigger] rest[j]).name,
            (#[trigger] rest[i]).name,
        ) by {
            assert(rest[i] == v[i] && rest[j] == v[j]);
        }
        lemma_with_iface(rest, x);
        let t = with_iface(rest, x);
        assert(w == t.push(last));
        let k = choose|k: int| 0 <= k < t.len() && t[k] == x;
        assert(w[k] == x);
        assert forall|y: IfaceView| v.contains(y) implies #[trigger] w.contains(y) by {
            let k = choose|k: int| 0 <= k < v.len() && v[k] == y;
            if k < rest.len() {
                assert(rest[k] == y);
                assert(rest.contains(y));
                assert(t.contains(y));
                let l = choose|l: int| 0 <= l < t.len() && t[l] == y;
                assert(w[l] == y);
            } else {
                assert(w[t.len() as int] == y);
            }
        }
        assert forall|y: IfaceView| #[trigger] w.contains(y) implies y == x || v.contains(y) by {
            let k = choose|k: int| 0 <= k < w.len() && w[k] == y;
            if k < t.len() {
                assert(t[k] == y);
                assert(t.contains(y));
                if y != x {
                    assert(rest.contains(y));
                    let l = choose|l: int| 0 <= l < rest.len() && rest[l] == y;
                    assert(v[l] == y);
                }
            } else {
                assert(v[v.len() - 1] == y);
            }
        }
        assert forall|i: int, j: int| 0 <= i < j < w.len() implies !before(
            (#[trigger] w[j]).name,
            (#[trigger] w[i]).name,
        ) by {
            if j < t.len() {
                assert(!before(t[j].name, t[i].name));
            } else {
                assert(t.contains(t[i]));
                lemma_before_total(x.name, last.name);
                if t[i] != x {
                    assert(rest.contains(t[i]));
                    let l = choose|l: int| 0 <= l < rest.len() && rest[l] == t[i];
                    assert(!before(v[v.len() - 1].name, v[l].name));
                }
            }
        }
    }
}

} // verus!
