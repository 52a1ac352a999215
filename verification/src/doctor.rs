//! `doctor`: facts about the host, the queue and the printer in one report.

use vstd::prelude::*;

use crate::ble::bluez::{
    iface_props, is_resolved, prop_str, resolve_device_from_objects, LiveDevice, Objects,
    IFACE_DEVICE,
};
use crate::ble::host::{iface_views, HostFacts};
use crate::ble::objects::prop_flag;
use crate::models::opt_text;
use crate::text::{
    after_prefix, chars_of, contains, cut, dec, dec_int, eq_fold, eq_fold_str, has_text, is_text,
    lines, lines_of, lower, lower_chars, matches_at, occurs_at, owned, parse_dec, parse_dec_chars,
    push_dec, push_int, same_fold, same_str, split_once, string_of, strip_prefix, texts, trim,
    trim_chars,
};
use vstd::slice::slice_subrange;

verus! {

/// The report.
#[derive(Debug, PartialEq)]
pub struct DoctorReport {
    pub adopted: bool,
    pub adopted_address: Option<String>,
    pub trusted_le: bool,
    pub connect_transport: &'static str,
    pub connect_device: bool,
    pub experimental: bool,
    pub queue_name: String,
    pub queue_present: bool,
    pub queue_uri: Option<String>,
    pub queue_points_at_daemon: bool,
    pub queue_is_default: bool,
    pub port: u16,
    pub daemon_up: bool,
    pub daemon_version: Option<String>,
    pub adapter_powered: Option<bool>,
    pub adapter_blocked: Option<bool>,
    pub adapter_autosuspend: Option<bool>,
    pub adapter_path: Option<String>,
    /// Only where the reading is live.
    pub rssi: Option<i16>,
    pub rssi_age_ms: Option<u64>,
}

/// How a connect goes: over LE where BlueZ offers the call for it.
pub fn connect_transport(connect_device: bool) -> (r: &'static str)
    ensures
        r == if connect_device {
            "le"
        } else {
            "classic"
        },
{
    if connect_device {
        "le"
    } else {
        "classic"
    }
}

/// The signal to report, and its age. BlueZ keeps the last signal forever: it is reported only where the
/// device is held, or was observed `age_ms` ago.
pub fn rssi_for_report(connected: bool, rssi: Option<i16>, age_ms: Option<u64>) -> (r: (
    Option<i16>,
    Option<u64>,
))
    ensures
        r == if connected {
            (rssi, Some(0u64))
        } else if rssi is Some && age_ms is Some {
            (rssi, age_ms)
        } else {
            (None, None)
        },
{
    if connected {
        return (rssi, Some(0));
    }
    match (rssi, age_ms) {
        (Some(r), Some(t)) => (Some(r), Some(t)),
        _ => (None, None),
    }
}

// ------------------------------------------------------------------ the queue

/// What follows one of two prefixes.
pub open spec fn after_either(s: Seq<char>, a: Seq<char>, b: Seq<char>) -> Option<Seq<char>> {
    if after_prefix(s, a) is Some {
        after_prefix(s, a)
    } else {
        after_prefix(s, b)
    }
}

/// The URI of a queue in the lines of `lpstat -v`. A line of another kind ends the search.
pub open spec fn device_in(l: Seq<Seq<char>>, queue: Seq<char>) -> Option<Seq<char>>
    decreases l.len(),
{
    if l.len() == 0 {
        None
    } else {
        match after_either(trim(l[0]), "device for "@, "Device for "@) {
            Some(rest) => match split_once(rest, ':') {
                Some((name, uri)) => if same_fold(trim(name), queue) && trim(uri).len() > 0 {
                    Some(trim(uri))
                } else {
                    device_in(l.skip(1), queue)
                },
                None => None,
            },
            None => None,
        }
    }
}

/// The view of an optional text.
pub open spec fn opt_view(t: Option<String>) -> Option<Seq<char>> {
    match t {
        Some(t) => Some(t@),
        None => None,
    }
}

/// The URI of a queue, as `lpstat -v` tells it: `device for CatPrinter: ipp://127.0.0.1:8095/ipp/print`.
pub fn parse_lpstat_v(text: &str, queue: &str) -> (r: Option<String>)
    ensures
        opt_view(r) == device_in(lines(text@), queue@),
{
    let cs = chars_of(text);
    let q = chars_of(queue);
    let ls = lines_of(cs.as_slice());
    let ghost v = lines(text@);
    assert(texts(ls@).len() == ls@.len());
    let mut i: usize = 0;
    assert(v.skip(0) =~= v);
    while i < ls.len()
        invariant
            i <= ls.len(),
            q@ == queue@,
            v == texts(ls@),
            v == lines(text@),
            device_in(v, queue@) == device_in(v.skip(i as int), queue@),
        decreases ls.len() - i,
    {
        assert(v.skip(i as int)[0] == ls@[i as int]@);
        assert(v.skip(i as int).skip(1) =~= v.skip(i as int + 1));
        let line = trim_chars(ls[i].as_slice());
        let rest = match strip_prefix(line, "device for ") {
            Some(r) => r,
            None => match strip_prefix(line, "Device for ") {
                Some(r) => r,
                None => return None,
            },
        };
        match cut(rest, ':') {
            Some((name, uri)) => {
                let u = trim_chars(uri);
                if eq_fold(trim_chars(name), q.as_slice()) && u.len() > 0 {
                    return Some(string_of(u));
                }
            },
            None => return None,
        }
        i += 1;
    }
    None
}

/// The default queue in the lines of `lpstat -d`.
pub open spec fn default_in(l: Seq<Seq<char>>) -> Option<Seq<char>>
    decreases l.len(),
{
    if l.len() == 0 {
        None
    } else {
        match after_either(
            trim(l[0]),
            "system default destination:"@,
            "System default destination:"@,
        ) {
            Some(rest) => if trim(rest).len() > 0 && !same_fold(trim(rest), "none"@) {
                Some(trim(rest))
            } else {
                default_in(l.skip(1))
            },
            None => default_in(l.skip(1)),
        }
    }
}

/// The default queue, as `lpstat -d` tells it: `system default destination: CatPrinter`.
pub fn parse_lpstat_d(text: &str) -> (r: Option<String>)
    ensures
        opt_view(r) == default_in(lines(text@)),
{
    let cs = chars_of(text);
    let ls = lines_of(cs.as_slice());
    let none = chars_of("none");
    let ghost v = lines(text@);
    assert(texts(ls@).len() == ls@.len());
    let mut i: usize = 0;
    assert(v.skip(0) =~= v);
    while i < ls.len()
        invariant
            i <= ls.len(),
            none@ == "none"@,
            v == texts(ls@),
            v == lines(text@),
            default_in(v) == default_in(v.skip(i as int)),
        decreases ls.len() - i,
    {
        assert(v.skip(i as int)[0] == ls@[i as int]@);
        assert(v.skip(i as int).skip(1) =~= v.skip(i as int + 1));
        let line = trim_chars(ls[i].as_slice());
        let rest = match strip_prefix(line, "system default destination:") {
            Some(r) => Some(r),
            None => strip_prefix(line, "System default destination:"),
        };
        if let Some(r) = rest {
            let name = trim_chars(r);
            if name.len() > 0 && !eq_fold(name, none.as_slice()) {
                return Some(string_of(name));
            }
        }
        i += 1;
    }
    None
}

/// The URI is of this host and port.
pub open spec fn spec_points(uri: Seq<char>, port: u16) -> bool {
    let u = lower(uri);
    ||| contains(u, "127.0.0.1:"@ + dec(port as nat))
    ||| contains(u, "localhost:"@ + dec(port as nat))
    ||| contains(u, "[::1]:"@ + dec(port as nat))
}

fn has_host(u: &[char], host: &str, port: u16) -> (r: bool)
    ensures
        r == contains(u@, host@ + dec(port as nat)),
{
    let mut h = owned(host);
    push_dec(&mut h, port as u64);
    has_text(u, h.as_str())
}

/// Whether a URI is of this host and port.
pub fn uri_points_at_port(uri: &str, port: u16) -> (r: bool)
    ensures
        r == spec_points(uri@, port),
{
    let u = lower_chars(chars_of(uri).as_slice());
    has_host(u.as_slice(), "127.0.0.1:", port) || has_host(u.as_slice(), "localhost:", port)
        || has_host(u.as_slice(), "[::1]:", port)
}

// ------------------------------------------------------------------ the host

/// A radio switch: what its files hold; `None` for one that cannot be read.
#[derive(Debug)]
pub struct RfkillEntry {
    pub kind: Option<String>,
    pub soft: Option<String>,
    pub hard: Option<String>,
}

/// The text is a number of 8 bits other than 0.
pub open spec fn is_set(t: Option<String>) -> bool {
    t is Some && (parse_dec(trim((t->0)@), 255) matches Some(n) && n != 0)
}

fn switch_set(t: &Option<String>) -> (r: bool)
    ensures
        r == is_set(*t),
{
    match t {
        Some(s) => {
            let cs = chars_of(s.as_str());
            match parse_dec_chars(trim_chars(cs.as_slice()), 255) {
                Some(n) => n != 0,
                None => false,
            }
        },
        None => false,
    }
}

/// The switch is Bluetooth's.
pub open spec fn is_bluetooth(e: RfkillEntry) -> bool {
    e.kind is Some && same_fold(trim((e.kind->0)@), "bluetooth"@)
}

/// Whether Bluetooth is blocked by any switch, soft or hard. Not known where a switch cannot be read, or
/// where there is none of Bluetooth.
pub fn bluetooth_blocked(switches: &Vec<RfkillEntry>) -> (r: Option<bool>)
    ensures
        ({
            let s = switches@;
            let unreadable = exists|i: int| 0 <= i < s.len() && (#[trigger] s[i]).kind is None;
            let any = exists|i: int| 0 <= i < s.len() && is_bluetooth(#[trigger] s[i]);
            let blocked = exists|i: int|
                0 <= i < s.len() && is_bluetooth(#[trigger] s[i]) && (is_set(s[i].soft) || is_set(
                    s[i].hard,
                ));
            r == if unreadable || !any {
                None
            } else {
                Some(blocked)
            }
        }),
{
    let want = chars_of("bluetooth");
    let mut saw = false;
    let mut blocked = false;
    let mut i: usize = 0;
    while i < switches.len()
        invariant
            i <= switches.len(),
            want@ == "bluetooth"@,
            forall|k: int| 0 <= k < i ==> (#[trigger] switches@[k]).kind is Some,
            saw == (exists|k: int| 0 <= k < i && is_bluetooth(#[trigger] switches@[k])),
            blocked == (exists|k: int|
                0 <= k < i && is_bluetooth(#[trigger] switches@[k]) && (is_set(switches@[k].soft)
                    || is_set(switches@[k].hard))),
        decreases switches.len() - i,
    {
        let e = &switches[i];
        match &e.kind {
            Some(kind) => {
                let cs = chars_of(kind.as_str());
                if eq_fold(trim_chars(cs.as_slice()), want.as_slice()) {
                    assert(is_bluetooth(switches@[i as int]));
                    saw = true;
                    if switch_set(&e.soft) || switch_set(&e.hard) {
                        blocked = true;
                    }
                }
            },
            None => {
                assert(switches@[i as int].kind is None);
                return None;
            },
        }
        i += 1;
    }
    if saw {
        Some(blocked)
    } else {
        None
    }
}

/// An interface may be suspended.
pub open spec fn may_suspend(facts: HostFacts, i: int) -> bool {
    iface_views(facts.bt_interfaces@)[i].power_control == Some("auto"@)
}

/// Whether a Bluetooth interface may be suspended; not known where there is none.
pub fn autosuspend_from_facts(facts: &HostFacts) -> (r: Option<bool>)
    ensures
        r == if facts.bt_interfaces@.len() == 0 {
            None
        } else {
            Some(
                exists|i: int|
                    0 <= i < facts.bt_interfaces@.len() && #[trigger] may_suspend(*facts, i),
            )
        },
{
    if facts.bt_interfaces.len() == 0 {
        return None;
    }
    let mut i: usize = 0;
    while i < facts.bt_interfaces.len()
        invariant
            i <= facts.bt_interfaces.len(),
            facts.bt_interfaces@.len() > 0,
            forall|k: int| 0 <= k < i ==> !#[trigger] may_suspend(*facts, k),
        decreases facts.bt_interfaces.len() - i,
    {
        if let Some(p) = &facts.bt_interfaces[i].power_control {
            if same_str(p.as_str(), "auto") {
                assert(may_suspend(*facts, i as int));
                return Some(true);
            }
        }
        i += 1;
    }
    Some(false)
}

// ------------------------------------------------------------------ the device

/// What is known of the printer's device.
#[derive(Debug)]
pub struct DeviceSnapshot {
    pub trusted: bool,
    pub connected: bool,
    pub rssi: Option<i16>,
    pub address_type: Option<String>,
}

impl Default for DeviceSnapshot {
    fn default() -> (r: Self)
        ensures
            !r.trusted,
            !r.connected,
            r.rssi is None,
            r.address_type is None,
    {
        DeviceSnapshot { trusted: false, connected: false, rssi: None, address_type: None }
    }
}

/// `s` is what is known of the device with an address under an adapter.
pub open spec fn is_snapshot(
    s: Option<DeviceSnapshot>,
    objs: Objects,
    adapter_path: Seq<char>,
    address: Seq<char>,
) -> bool {
    exists|d: Option<LiveDevice>| #[trigger]
        is_resolved(d, objs, adapter_path, address) && match d {
            Some(l) => s matches Some(x) && x.connected == l.connected && x.rssi == l.rssi
                && match objs.props(l.path@, IFACE_DEVICE@) {
                Some(p) => x.trusted == p.flag("Trusted"@) && opt_view(x.address_type) == p.text(
                    "AddressType"@,
                ),
                None => !x.trusted && x.address_type is None,
            },
            None => s is None,
        }
}

/// What is known of the device with an address under an adapter.
pub fn device_snapshot_from_objects(objs: &Objects, adapter_path: &str, address: &str) -> (r: Option<
    DeviceSnapshot,
>)
    requires
        objs.wf(),
    ensures
        is_snapshot(r, *objs, adapter_path@, address@),
{
    let d = resolve_device_from_objects(objs, adapter_path, address);
    assert(is_resolved(d, *objs, adapter_path@, address@));
    match d {
        Some(l) => match iface_props(objs, l.path.as_str(), IFACE_DEVICE) {
            Some(p) => Some(
                DeviceSnapshot {
                    trusted: prop_flag(p, "Trusted"),
                    connected: l.connected,
                    rssi: l.rssi,
                    address_type: prop_str(p, "AddressType"),
                },
            ),
            None => Some(
                DeviceSnapshot {
                    trusted: false,
                    connected: l.connected,
                    rssi: l.rssi,
                    address_type: None,
                },
            ),
        },
        None => None,
    }
}

/// The type is one of LE addresses.
pub open spec fn spec_is_le(t: Option<Seq<char>>) -> bool {
    t is Some && (lower(t->0) == "public"@ || lower(t->0) == "random"@)
}

/// Whether the type is one of LE addresses.
pub fn is_le_address_type(t: Option<&str>) -> (r: bool)
    ensures
        r == spec_is_le(opt_text(t)),
{
    match t {
        Some(s) => {
            let low = lower_chars(chars_of(s).as_slice());
            is_text(low.as_slice(), "public") || is_text(low.as_slice(), "random")
        },
        None => false,
    }
}

/// Whether the description of an adapter's interfaces offers the call to connect over LE.
pub fn offers_connect_device(xml: &str) -> (r: bool)
    ensures
        r == contains(xml@, "ConnectDevice"@),
{
    has_text(chars_of(xml).as_slice(), "ConnectDevice")
}

// ------------------------------------------------------------------ the daemon

/// The text of a member of a JSON object; `None` where the text is no JSON, or the member is missing or
/// no string.
pub uninterp spec fn json_text_member(text: Seq<char>, key: Seq<char>) -> Option<Seq<char>>;

/// `serde_json::from_str` into a `serde_json::Value`, its `get` and `as_str`: a function of the text and
/// the key.
#[verifier::external_body]
fn json_member(text: &str, key: &str) -> (r: Option<String>)
    ensures
        opt_view(r) == json_text_member(text@, key@),
{
    let v: serde_json::Value = serde_json::from_str(text).ok()?;
    v.get(key)?.as_str().map(String::from)
}

/// The first place at or after `i` at which `p` stands in `s`.
pub open spec fn first_at(s: Seq<char>, p: Seq<char>, i: int) -> Option<int>
    decreases s.len() + 1 - i,
{
    if i > s.len() {
        None
    } else if occurs_at(s, p, i) {
        Some(i)
    } else {
        first_at(s, p, i + 1)
    }
}

fn find_at(s: &[char], p: &[char], i: usize) -> (r: Option<usize>)
    requires
        i <= s@.len(),
    ensures
        match r {
            Some(k) => first_at(s@, p@, i as int) == Some(k as int) && i <= k <= s@.len()
                && k + p@.len() <= s@.len(),
            None => first_at(s@, p@, i as int) is None,
        },
{
    let mut k: usize = i;
    loop
        invariant
            i <= k <= s@.len(),
            first_at(s@, p@, i as int) == first_at(s@, p@, k as int),
        decreases s@.len() - k,
    {
        if matches_at(s, p, k) {
            return Some(k);
        }
        if k == s.len() {
            assert(first_at(s@, p@, s@.len() as int + 1) is None);
            return None;
        }
        k += 1;
    }
}

/// What ends the head of an HTTP answer.
pub const HEAD_END: &'static str = "\r\n\r\n";

/// The body of an HTTP answer: what follows its head, up to another end of a head.
pub open spec fn body_of(out: Seq<char>) -> Option<Seq<char>> {
    match first_at(out, HEAD_END@, 0) {
        Some(k) => {
            let rest = out.skip(k + HEAD_END@.len());
            match first_at(rest, HEAD_END@, 0) {
                Some(j) => Some(rest.take(j)),
                None => Some(rest),
            }
        },
        None => None,
    }
}

/// The version that the daemon's health page tells.
pub open spec fn version_in(out: Seq<char>) -> Option<Seq<char>> {
    match body_of(out) {
        Some(b) => json_text_member(trim(b), "version"@),
        None => None,
    }
}

fn body_chars<'a>(out: &'a [char]) -> (r: Option<&'a [char]>)
    ensures
        match r {
            Some(b) => body_of(out@) == Some(b@),
            None => body_of(out@) is None,
        },
{
    let sep = chars_of(HEAD_END);
    match find_at(out, sep.as_slice(), 0) {
        Some(k) => {
            assert(out@.len() == out.len());
            let rest = slice_subrange(out, k + sep.len(), out.len());
            assert(rest@ =~= out@.skip(k + sep@.len()));
            match find_at(rest, sep.as_slice(), 0) {
                Some(j) => {
                    let b = slice_subrange(rest, 0, j);
                    assert(b@ =~= rest@.take(j as int));
                    Some(b)
                },
                None => Some(rest),
            }
        },
        None => None,
    }
}

/// The body of an HTTP answer.
pub fn response_body(out: &str) -> (r: Option<String>)
    ensures
        opt_view(r) == body_of(out@),
{
    let cs = chars_of(out);
    match body_chars(cs.as_slice()) {
        Some(b) => Some(string_of(b)),
        None => None,
    }
}

/// The version that the daemon's health page tells, from the whole answer.
pub fn health_version(out: &str) -> (r: Option<String>)
    ensures
        opt_view(r) == version_in(out@),
{
    let cs = chars_of(out);
    match body_chars(cs.as_slice()) {
        Some(b) => {
            let t = string_of(trim_chars(b));
            json_member(t.as_str(), "version")
        },
        None => None,
    }
}

// ------------------------------------------------------------------ the report

/// What the report is made of.
#[derive(Debug)]
pub struct DoctorFacts {
    pub port: u16,
    pub queue: String,
    pub adopted_address: Option<String>,
    pub experimental: bool,
    /// The adapter that is used, or else the first one: its path, and whether it is powered.
    pub adapter: Option<(String, bool)>,
    /// Whether the adapter offers the call to connect over LE, where that is known.
    pub connect_device: Option<bool>,
    /// The adopted printer's device.
    pub device: DeviceSnapshot,
    pub blocked: Option<bool>,
    pub autosuspend: Option<bool>,
    /// What `lpstat -v` and `lpstat -d` printed.
    pub lpstat_v: String,
    pub lpstat_d: String,
    pub daemon_version: Option<String>,
}

/// `r` is the report of the facts.
pub open spec fn is_report(r: DoctorReport, f: DoctorFacts) -> bool {
    let uri = device_in(lines(f.lpstat_v@), f.queue@);
    let default = default_in(lines(f.lpstat_d@));
    let le = match f.connect_device {
        Some(b) => b,
        None => f.experimental,
    };
    &&& r.adopted == (f.adopted_address is Some)
    &&& r.adopted_address == f.adopted_address
    &&& r.trusted_le == (f.device.trusted && spec_is_le(opt_view(f.device.address_type)))
    &&& r.connect_transport == if le {
        "le"
    } else {
        "classic"
    }
    &&& r.connect_device == le
    &&& r.experimental == f.experimental
    &&& r.queue_name@ == f.queue@
    &&& r.queue_present == (uri is Some)
    &&& opt_view(r.queue_uri) == uri
    &&& r.queue_points_at_daemon == (uri is Some && spec_points(uri->0, f.port))
    &&& r.queue_is_default == (default is Some && same_fold(default->0, f.queue@))
    &&& r.port == f.port
    &&& r.daemon_up == (f.daemon_version is Some)
    &&& r.daemon_version == f.daemon_version
    &&& match f.adapter {
        Some((path, powered)) => r.adapter_path == Some(path) && r.adapter_powered == Some(powered),
        None => r.adapter_path is None && r.adapter_powered is None,
    }
    &&& r.adapter_blocked == f.blocked
    &&& r.adapter_autosuspend == f.autosuspend
    &&& (r.rssi, r.rssi_age_ms) == if f.device.connected {
        (f.device.rssi, Some(0u64))
    } else {
        (None, None)
    }
}

impl DoctorReport {
    /// The report of the facts.
    pub fn from_facts(f: DoctorFacts) -> (r: DoctorReport)
        ensures
            is_report(r, f),
    {
        let le = match f.connect_device {
            Some(b) => b,
            None => f.experimental,
        };
        let uri = parse_lpstat_v(f.lpstat_v.as_str(), f.queue.as_str());
        let points = match &uri {
            Some(u) => uri_points_at_port(u.as_str(), f.port),
            None => false,
        };
        let is_default = match parse_lpstat_d(f.lpstat_d.as_str()) {
            Some(d) => eq_fold_str(d.as_str(), f.queue.as_str()),
            None => false,
        };
        let le_type = match &f.device.address_type {
            Some(t) => is_le_address_type(Some(t.as_str())),
            None => false,
        };
        let (rssi, rssi_age_ms) = rssi_for_report(f.device.connected, f.device.rssi, None);
        let (adapter_path, adapter_powered) = match f.adapter {
            Some((p, on)) => (Some(p), Some(on)),
            None => (None, None),
        };
        DoctorReport {
            adopted: f.adopted_address.is_some(),
            adopted_address: f.adopted_address,
            trusted_le: f.device.trusted && le_type,
            connect_transport: connect_transport(le),
            connect_device: le,
            experimental: f.experimental,
            queue_name: f.queue,
            queue_present: uri.is_some(),
            queue_uri: uri,
            queue_points_at_daemon: points,
            queue_is_default: is_default,
            port: f.port,
            daemon_up: f.daemon_version.is_some(),
            daemon_version: f.daemon_version,
            adapter_powered,
            adapter_blocked: f.blocked,
            adapter_autosuspend: f.autosuspend,
            adapter_path,
            rssi,
            rssi_age_ms,
        }
    }

    /// The adopted printer.
    pub open spec fn adopted_text(self) -> Seq<char> {
        match self.adopted_address {
            Some(a) => if self.trusted_le {
                a@ + " (trusted LE)"@
            } else {
                a@ + " (not a trusted LE object)"@
            },
            None => "no"@,
        }
    }

    /// How a connect goes.
    pub open spec fn connect_text(self) -> Seq<char> {
        self.connect_transport@ + " (ConnectDevice "@ + (if self.connect_device {
            "available"@
        } else {
            "missing"@
        }) + ")"@
    }

    /// The queue.
    pub open spec fn queue_text(self) -> Seq<char> {
        if self.queue_uri is Some && self.queue_present {
            self.queue_name@ + " → "@ + (self.queue_uri->0)@
        } else {
            self.queue_name@ + " missing"@
        }
    }

    /// The daemon.
    pub open spec fn daemon_text(self) -> Seq<char> {
        if self.daemon_up {
            match self.daemon_version {
                Some(v) => "up ("@ + v@ + ") on :"@ + dec(self.port as nat),
                None => "up on :"@ + dec(self.port as nat),
            }
        } else {
            "down on :"@ + dec(self.port as nat)
        }
    }

    /// The adapter.
    pub open spec fn adapter_text(self) -> Seq<char> {
        (match self.adapter_powered {
            Some(b) => if b {
                "powered"@
            } else {
                "off"@
            },
            None => "unknown"@,
        }) + ", "@ + (match self.adapter_blocked {
            Some(b) => if b {
                "blocked"@
            } else {
                "unblocked"@
            },
            None => "block unknown"@,
        }) + ", "@ + match self.adapter_autosuspend {
            Some(b) => if b {
                "autosuspend=on"@
            } else {
                "autosuspend=off"@
            },
            None => "autosuspend unknown"@,
        }
    }

    /// The signal.
    pub open spec fn rssi_text(self) -> Seq<char> {
        match self.rssi {
            Some(r) => match self.rssi_age_ms {
                Some(age) => dec_int(r as int) + " (age "@ + dec(age as nat) + " ms)"@,
                None => dec_int(r as int),
            },
            None => "(omitted — no live reading)"@,
        }
    }

    /// The lines of the report for people: label and text.
    pub open spec fn prose_view(self) -> Seq<(Seq<char>, Seq<char>)> {
        seq![
            ("adopted"@, self.adopted_text()),
            ("connect"@, self.connect_text()),
            (
                "Experimental"@,
                if self.experimental {
                    "true"@
                } else {
                    "false"@
                },
            ),
            ("queue"@, self.queue_text()),
            ("daemon"@, self.daemon_text()),
            ("adapter"@, self.adapter_text()),
            ("rssi"@, self.rssi_text()),
        ]
    }

    fn daemon_line(&self) -> (r: String)
        ensures
            r@ == self.daemon_text(),
    {
        let mut r = if self.daemon_up {
            match &self.daemon_version {
                Some(v) => {
                    let mut t = owned("up (");
                    t.push_str(v.as_str());
                    t.push_str(") on :");
                    t
                },
                None => owned("up on :"),
            }
        } else {
            owned("down on :")
        };
        push_dec(&mut r, self.port as u64);
        r
    }

    fn adapter_line(&self) -> (r: String)
        ensures
            r@ == self.adapter_text(),
    {
        let mut r = owned(
            match self.adapter_powered {
                Some(b) => if b {
                    "powered"
                } else {
                    "off"
                },
                None => "unknown",
            },
        );
        r.push_str(", ");
        r.push_str(
            match self.adapter_blocked {
                Some(b) => if b {
                    "blocked"
                } else {
                    "unblocked"
                },
                None => "block unknown",
            },
        );
        r.push_str(", ");
        r.push_str(
            match self.adapter_autosuspend {
                Some(b) => if b {
                    "autosuspend=on"
                } else {
                    "autosuspend=off"
                },
                None => "autosuspend unknown",
            },
        );
        r
    }

    fn rssi_line(&self) -> (r: String)
        ensures
            r@ == self.rssi_text(),
    {
        match self.rssi {
            Some(v) => {
                let mut r = String::new();
                push_int(&mut r, v as i64);
                assert(r@ =~= dec_int(v as int));
                if let Some(age) = self.rssi_age_ms {
                    r.push_str(" (age ");
                    push_dec(&mut r, age);
                    r.push_str(" ms)");
                }
                r
            },
            None => owned("(omitted — no live reading)"),
        }
    }

    /// The lines of the report for people: label and text.
    pub fn prose(&self) -> (r: Vec<(&'static str, String)>)
        ensures
            crate::ble::host::line_views(r@) == self.prose_view(),
    {
        let mut r: Vec<(&'static str, String)> = Vec::new();
        r.push(
            (
                "adopted",
                match &self.adopted_address {
                    Some(a) => {
                        let mut t = owned(a.as_str());
                        t.push_str(
                            if self.trusted_le {
                                " (trusted LE)"
                            } else {
                                " (not a trusted LE object)"
                            },
                        );
                        t
                    },
                    None => owned("no"),
                },
            ),
        );
        let mut c = owned(self.connect_transport);
        c.push_str(" (ConnectDevice ");
        c.push_str(
            if self.connect_device {
                "available"
            } else {
                "missing"
            },
        );
        c.push_str(")");
        r.push(("connect", c));
        r.push(
            (
                "Experimental",
                owned(
                    if self.experimental {
                        "true"
                    } else {
                        "false"
                    },
                ),
            ),
        );
        let mut q = owned(self.queue_name.as_str());
        match &self.queue_uri {
            Some(u) => if self.queue_present {
                q.push_str(" → ");
                q.push_str(u.as_str());
            } else {
                q.push_str(" missing");
            },
            None => q.push_str(" missing"),
        }
        r.push(("queue", q));
        r.push(("daemon", self.daemon_line()));
        r.push(("adapter", self.adapter_line()));
        r.push(("rssi", self.rssi_line()));
        assert(crate::ble::host::line_views(r@) =~= self.prose_view());
        r
    }
}

} // verus!
