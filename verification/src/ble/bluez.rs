//! BlueZ: errors of the bus and what they mean, paths of devices, and the state of adapters and
//! devices in a snapshot of the object tree.

use vstd::prelude::*;
use vstd::slice::slice_subrange;

use crate::printer::PrintError;
use crate::text::{
    char_is_hex, chars_of, contains, has_prefix, has_text, is_hex, is_text, lower, lower_chars,
    matches_at, occurs_at, owned, push_chars, same, same_str, starts_with, string_of, to_upper, trim,
    trim_chars, upper_char,
};

pub use crate::ble::objects::{
    iface_props, objects_with, prop_bool, prop_i16, prop_str, prop_strs, prop_u16, value_bytes,
    Objects, Props,
};
use crate::ble::objects::{entry_views, find_object, prop_flag, with_iface};

verus! {

pub const BLUEZ: &'static str = "org.bluez";

pub const IFACE_ADAPTER: &'static str = "org.bluez.Adapter1";

pub const IFACE_DEVICE: &'static str = "org.bluez.Device1";

pub const IFACE_SERVICE: &'static str = "org.bluez.GattService1";

pub const IFACE_CHAR: &'static str = "org.bluez.GattCharacteristic1";

/// Per-call limit for cheap calls on the bus.
pub const CALL_TIMEOUT_MS: u64 = 5000;

// ------------------------------------------------------------------ errors of the bus

/// An error of a call on the bus, as plain values.
#[derive(Debug)]
pub enum BusError {
    /// The called method failed: the error's name, and its message where it carries one.
    Method { name: String, message: Option<String> },
    /// Errors of the bus itself, each with its text.
    ServiceUnknown(String),
    NameHasNoOwner(String),
    UnknownObject(String),
    UnknownMethod(String),
    UnknownInterface(String),
    /// Another error of the bus itself: a name for it, and its text.
    OtherBus { name: String, text: String },
    /// The bus cannot be reached.
    Unreachable(String),
    Other(String),
}

impl BusError {
    /// The D-Bus name of the error.
    pub open spec fn name(self) -> Option<Seq<char>> {
        match self {
            BusError::Method { name, .. } => Some(name@),
            BusError::ServiceUnknown(_) => Some("org.freedesktop.DBus.Error.ServiceUnknown"@),
            BusError::NameHasNoOwner(_) => Some("org.freedesktop.DBus.Error.NameHasNoOwner"@),
            BusError::UnknownObject(_) => Some("org.freedesktop.DBus.Error.UnknownObject"@),
            BusError::UnknownMethod(_) => Some("org.freedesktop.DBus.Error.UnknownMethod"@),
            BusError::UnknownInterface(_) => Some("org.freedesktop.DBus.Error.UnknownInterface"@),
            BusError::OtherBus { name, .. } => Some(name@),
            _ => None,
        }
    }

    /// What the error says to people.
    pub open spec fn message(self) -> Seq<char> {
        match self {
            BusError::Method { name, message } => match message {
                Some(m) => m@,
                None => name@,
            },
            BusError::ServiceUnknown(t) => t@,
            BusError::NameHasNoOwner(t) => t@,
            BusError::UnknownObject(t) => t@,
            BusError::UnknownMethod(t) => t@,
            BusError::UnknownInterface(t) => t@,
            BusError::OtherBus { text, .. } => text@,
            BusError::Unreachable(t) => t@,
            BusError::Other(t) => t@,
        }
    }

    /// The error has this name.
    pub open spec fn named(self, name: Seq<char>) -> bool {
        self.name() == Some(name)
    }

    /// The device's object vanished, or the device is not connected.
    pub open spec fn gone(self) -> bool {
        ||| self.named("org.freedesktop.DBus.Error.UnknownObject"@)
        ||| self.named("org.bluez.Error.NotConnected"@)
        ||| self.named("org.bluez.Error.Failed"@) && (contains(
            lower(self.message()),
            "not connected"@,
        ) || contains(lower(self.message()), "disconnected"@))
    }
}

/// The D-Bus name of an error.
pub fn err_name(e: &BusError) -> (r: Option<String>)
    ensures
        match r {
            Some(n) => e.name() == Some(n@),
            None => e.name() is None,
        },
{
    match e {
        BusError::Method { name, .. } => Some(owned(name.as_str())),
        BusError::ServiceUnknown(_) => Some(owned("org.freedesktop.DBus.Error.ServiceUnknown")),
        BusError::NameHasNoOwner(_) => Some(owned("org.freedesktop.DBus.Error.NameHasNoOwner")),
        BusError::UnknownObject(_) => Some(owned("org.freedesktop.DBus.Error.UnknownObject")),
        BusError::UnknownMethod(_) => Some(owned("org.freedesktop.DBus.Error.UnknownMethod")),
        BusError::UnknownInterface(_) => Some(
            owned("org.freedesktop.DBus.Error.UnknownInterface"),
        ),
        BusError::OtherBus { name, .. } => Some(owned(name.as_str())),
        _ => None,
    }
}

/// What an error says to people.
pub fn err_message(e: &BusError) -> (r: String)
    ensures
        r@ == e.message(),
{
    match e {
        BusError::Method { name, message } => match message {
            Some(m) => owned(m.as_str()),
            None => owned(name.as_str()),
        },
        BusError::ServiceUnknown(t) => owned(t.as_str()),
        BusError::NameHasNoOwner(t) => owned(t.as_str()),
        BusError::UnknownObject(t) => owned(t.as_str()),
        BusError::UnknownMethod(t) => owned(t.as_str()),
        BusError::UnknownInterface(t) => owned(t.as_str()),
        BusError::OtherBus { text, .. } => owned(text.as_str()),
        BusError::Unreachable(t) => owned(t.as_str()),
        BusError::Other(t) => owned(t.as_str()),
    }
}

/// Whether an error has this name.
pub fn is_error_named(e: &BusError, name: &str) -> (r: bool)
    ensures
        r == e.named(name@),
{
    match err_name(e) {
        Some(n) => same_str(n.as_str(), name),
        None => false,
    }
}

/// Whether the device's object vanished, or the device is not connected.
pub fn is_gone(e: &BusError) -> (r: bool)
    ensures
        r == e.gone(),
{
    if is_error_named(e, "org.freedesktop.DBus.Error.UnknownObject") || is_error_named(
        e,
        "org.bluez.Error.NotConnected",
    ) {
        return true;
    }
    if is_error_named(e, "org.bluez.Error.Failed") {
        let m = err_message(e);
        let low = lower_chars(chars_of(m.as_str()).as_slice());
        return has_text(low.as_slice(), "not connected") || has_text(
            low.as_slice(),
            "disconnected",
        );
    }
    false
}

/// `p` is what an error of a call means. Callers look for errors that are none first (in progress,
/// already connected). A write on a dropped link fails with "Not connected": that is a lost link,
/// which is retried, and no error of the bus.
pub open spec fn is_mapped(p: PrintError, e: BusError, what: Seq<char>) -> bool {
    if e.named("org.freedesktop.DBus.Error.ServiceUnknown"@) || e.named(
        "org.freedesktop.DBus.Error.NameHasNoOwner"@,
    ) {
        p is NoBluetoothd
    } else if e.named("org.bluez.Error.NotReady"@) {
        p is AdapterOff
    } else if e.named("org.freedesktop.DBus.Error.UnknownObject"@) || e.named(
        "org.bluez.Error.NotConnected"@,
    ) {
        p is LinkLost
    } else if what == "connect"@ && (e.named("org.bluez.Error.Failed"@) || e.named(
        "org.bluez.Error.Timeout"@,
    ) || e.named("org.freedesktop.DBus.Error.NoReply"@)) {
        p matches PrintError::ConnectFailed { attempts, last, hint } && attempts == 1 && last@
            == e.message() && hint@ == Seq::<char>::empty()
    } else if e.gone() {
        p is LinkLost
    } else if e is Unreachable {
        p is NoBluetoothd
    } else {
        p matches PrintError::Bus(t) && t@ == what + ": "@ + e.message()
    }
}

/// What an error of a call means.
pub fn map_err(e: &BusError, what: &str) -> (r: PrintError)
    ensures
        is_mapped(r, *e, what@),
{
    if is_error_named(e, "org.freedesktop.DBus.Error.ServiceUnknown") || is_error_named(
        e,
        "org.freedesktop.DBus.Error.NameHasNoOwner",
    ) {
        return PrintError::NoBluetoothd;
    }
    if is_error_named(e, "org.bluez.Error.NotReady") {
        return PrintError::AdapterOff;
    }
    if is_error_named(e, "org.freedesktop.DBus.Error.UnknownObject") || is_error_named(
        e,
        "org.bluez.Error.NotConnected",
    ) {
        return PrintError::LinkLost;
    }
    if same_str(what, "connect") && (is_error_named(e, "org.bluez.Error.Failed") || is_error_named(
        e,
        "org.bluez.Error.Timeout",
    ) || is_error_named(e, "org.freedesktop.DBus.Error.NoReply")) {
        let hint = String::new();
        assert(hint@ =~= Seq::<char>::empty());
        return PrintError::ConnectFailed { attempts: 1, last: err_message(e), hint };
    }
    if is_gone(e) {
        return PrintError::LinkLost;
    }
    match e {
        BusError::Unreachable(_) => PrintError::NoBluetoothd,
        _ => {
            let mut t = owned(what);
            t.push_str(": ");
            let m = err_message(e);
            t.push_str(m.as_str());
            PrintError::Bus(t)
        },
    }
}

/// What an error of listing the objects means.
pub fn map_list_error(e: &BusError) -> (r: PrintError)
    ensures
        match e {
            BusError::ServiceUnknown(_) => r is NoBluetoothd,
            BusError::NameHasNoOwner(_) => r is NoBluetoothd,
            _ => r matches PrintError::Bus(t) && t@ == e.message(),
        },
{
    match e {
        BusError::ServiceUnknown(_) => PrintError::NoBluetoothd,
        BusError::NameHasNoOwner(_) => PrintError::NoBluetoothd,
        _ => PrintError::Bus(err_message(e)),
    }
}

// ------------------------------------------------------------------ addresses and paths

/// The hexadecimal digits of a text, in capitals.
pub open spec fn hex_digits(s: Seq<char>) -> Seq<char>
    decreases s.len(),
{
    if s.len() == 0 {
        Seq::empty()
    } else if is_hex(s.last()) {
        hex_digits(s.drop_last()).push(upper_char(s.last()))
    } else {
        hex_digits(s.drop_last())
    }
}

fn compact(cs: &[char]) -> (r: Vec<char>)
    ensures
        r@ == hex_digits(cs@),
{
    let mut out: Vec<char> = Vec::new();
    let mut i: usize = 0;
    assert(out@ =~= hex_digits(cs@.take(0)));
    while i < cs.len()
        invariant
            i <= cs.len(),
            out@ == hex_digits(cs@.take(i as int)),
        decreases cs.len() - i,
    {
        assert(cs@.take(i as int + 1).drop_last() =~= cs@.take(i as int));
        if char_is_hex(cs[i]) {
            out.push(to_upper(cs[i]));
        }
        i += 1;
    }
    assert(cs@.take(cs@.len() as int) =~= cs@);
    out
}

/// The hexadecimal digits of an address in capitals, without separators.
pub fn compact_bdaddr(address: &str) -> (r: String)
    ensures
        r@ == hex_digits(address@),
{
    let d = compact(chars_of(address).as_slice());
    string_of(d.as_slice())
}

/// The pairs of characters with underscores between them; a single last character is dropped.
pub open spec fn pairs(s: Seq<char>) -> Seq<char>
    decreases s.len(),
{
    if s.len() < 2 {
        Seq::empty()
    } else if s.len() < 4 {
        s.take(2)
    } else {
        s.take(2) + "_"@ + pairs(s.skip(2))
    }
}

/// The conventional path of a device.
pub open spec fn conventional_path(adapter_path: Seq<char>, address: Seq<char>) -> Seq<char> {
    adapter_path + "/dev_"@ + pairs(hex_digits(address))
}

/// The conventional path of a device: `/org/bluez/hci0` and `AA:BB:…` give
/// `/org/bluez/hci0/dev_AA_BB_…`.
pub fn device_path_for(adapter_path: &str, address: &str) -> (r: String)
    ensures
        r@ == conventional_path(adapter_path@, address@),
{
    let hex = compact(chars_of(address).as_slice());
    let mut out = owned(adapter_path);
    out.push_str("/dev_");
    let ghost start = out@;
    let mut i: usize = 0;
    assert(hex@.skip(0) =~= hex@);
    assert(start + pairs(hex@) =~= out@ + pairs(hex@.skip(0)));
    while hex.len() - i >= 2
        invariant
            i <= hex.len(),
            start + pairs(hex@) == out@ + pairs(hex@.skip(i as int)),
        decreases hex.len() - i,
    {
        let ghost was = out@;
        let ghost rest = hex@.skip(i as int);
        out.push(hex[i]);
        out.push(hex[i + 1]);
        assert(rest.take(2) =~= seq![hex@[i as int], hex@[i as int + 1]]);
        assert(rest.skip(2) =~= hex@.skip(i as int + 2));
        if hex.len() - i >= 4 {
            out.push_str("_");
            assert(was + (rest.take(2) + "_"@ + pairs(rest.skip(2))) =~= out@ + pairs(
                rest.skip(2),
            ));
        } else {
            assert(pairs(rest.skip(2)) =~= Seq::<char>::empty());
            assert(was + rest.take(2) =~= out@ + pairs(rest.skip(2)));
        }
        i += 2;
    }
    assert(out@ + Seq::<char>::empty() =~= out@);
    out
}

/// The last place at or before `i` at which `p` stands in `s`.
pub open spec fn last_at(s: Seq<char>, p: Seq<char>, i: int) -> Option<int>
    decreases i + 1,
{
    if i < 0 {
        None
    } else if occurs_at(s, p, i) {
        Some(i)
    } else {
        last_at(s, p, i - 1)
    }
}

/// The adapter's path in a device's path: what stands before the last `/dev_`, if anything does.
pub open spec fn spec_adapter_path(path: Seq<char>) -> Option<Seq<char>> {
    match last_at(path, "/dev_"@, path.len() as int) {
        Some(i) => if i > 0 {
            Some(path.take(i))
        } else {
            None
        },
        None => None,
    }
}

/// The adapter's path in a device's path: `/org/bluez/hci0/dev_XX_…` gives `/org/bluez/hci0`.
pub fn adapter_from_device_path(device_path: &str) -> (r: Option<String>)
    ensures
        match r {
            Some(a) => spec_adapter_path(device_path@) == Some(a@),
            None => spec_adapter_path(device_path@) is None,
        },
{
    let cs = chars_of(device_path);
    let p = chars_of("/dev_");
    let mut i: usize = cs.len();
    loop
        invariant
            i <= cs.len(),
            cs@ == device_path@,
            p@ == "/dev_"@,
            last_at(cs@, p@, cs@.len() as int) == last_at(cs@, p@, i as int),
        decreases i,
    {
        if matches_at(cs.as_slice(), p.as_slice(), i) {
            if i > 0 {
                let a = slice_subrange(cs.as_slice(), 0, i);
                assert(a@ =~= cs@.take(i as int));
                return Some(string_of(a));
            }
            return None;
        }
        if i == 0 {
            assert(last_at(cs@, p@, -1) is None);
            return None;
        }
        i = i - 1;
    }
}

proof fn lemma_pairs_plain(s: Seq<char>)
    requires
        forall|i: int| 0 <= i < s.len() ==> is_hex(#[trigger] s[i]),
    ensures
        forall|i: int| 0 <= i < pairs(s).len() ==> #[trigger] pairs(s)[i] != '/',
    decreases s.len(),
{
    reveal_strlit("_");
    if s.len() >= 4 {
        let rest = s.skip(2);
        assert forall|i: int| 0 <= i < rest.len() implies is_hex(#[trigger] rest[i]) by {
            assert(is_hex(s[i + 2]));
        }
        lemma_pairs_plain(rest);
        assert forall|i: int| 0 <= i < pairs(s).len() implies #[trigger] pairs(s)[i] != '/' by {
            if i < 2 {
                assert(is_hex(s[i]));
            } else if i > 2 {
                assert(pairs(s)[i] == pairs(rest)[i - 3]);
            }
        }
    } else if s.len() >= 2 {
        assert(is_hex(s[0]) && is_hex(s[1]));
    }
}

proof fn lemma_hex_digits_are_hex(s: Seq<char>)
    ensures
        forall|i: int| 0 <= i < hex_digits(s).len() ==> is_hex(#[trigger] hex_digits(s)[i]),
    decreases s.len(),
{
    if s.len() > 0 {
        let rest = hex_digits(s.drop_last());
        lemma_hex_digits_are_hex(s.drop_last());
        assert forall|i: int| 0 <= i < hex_digits(s).len() implies is_hex(
            #[trigger] hex_digits(s)[i],
        ) by {
            if i < rest.len() {
                assert(is_hex(rest[i]));
            } else {
                assert(hex_digits(s)[i] == upper_char(s.last()));
            }
        }
    }
}

proof fn lemma_last_at(s: Seq<char>, p: Seq<char>, k: int, i: int)
    requires
        0 <= k <= i,
        occurs_at(s, p, k),
        forall|j: int| k < j <= i ==> !#[trigger] occurs_at(s, p, j),
    ensures
        last_at(s, p, i) == Some(k),
    decreases i,
{
    if i > k {
        assert(!occurs_at(s, p, i));
        lemma_last_at(s, p, k, i - 1);
    }
}

/// A device's conventional path tells the adapter's, and depends on nothing of the address but its digits.
pub proof fn lemma_path_tells_adapter(adapter_path: Seq<char>, address: Seq<char>, other: Seq<char>)
    requires
        adapter_path.len() > 0,
    ensures
        spec_adapter_path(conventional_path(adapter_path, address)) == Some(adapter_path),
        hex_digits(address) == hex_digits(other) ==> conventional_path(adapter_path, address)
            == conventional_path(adapter_path, other),
{
    reveal_strlit("/dev_");
    let path = conventional_path(adapter_path, address);
    let n = adapter_path.len() as int;
    lemma_hex_digits_are_hex(address);
    lemma_pairs_plain(hex_digits(address));
    assert(path.subrange(n, n + 5) =~= "/dev_"@);
    assert forall|j: int| n < j <= path.len() implies !#[trigger] occurs_at(path, "/dev_"@, j) by {
        if occurs_at(path, "/dev_"@, j) {
            assert(path.subrange(j, j + 5)[0] == '/');
            if j < n + 5 {
                assert(path[j] == "/dev_"@[j - n]);
            } else {
                assert(path[j] == pairs(hex_digits(address))[j - n - 5]);
            }
        }
    }
    lemma_last_at(path, "/dev_"@, n, path.len() as int);
    assert(path.take(n) =~= adapter_path);
}

// ------------------------------------------------------------------ devices and adapters

/// A device that is in the snapshot of the object tree.
#[derive(Debug, Clone, PartialEq, Eq)]
pub struct LiveDevice {
    pub path: String,
    pub rssi: Option<i16>,
    pub connected: bool,
}

/// Whether a connect may be issued now. A device in the cache without a signal is not advertising,
/// and a connect would only time out.
#[derive(Debug, Clone, Copy, PartialEq, Eq, Structural)]
pub enum ConnectReadiness {
    Ready,
    Silent,
    Missing,
}

/// Whether a connect may be issued now.
pub fn connect_readiness(dev: Option<&LiveDevice>) -> (r: ConnectReadiness)
    ensures
        r == match dev {
            None => ConnectReadiness::Missing,
            Some(d) => if d.connected || d.rssi is Some {
                ConnectReadiness::Ready
            } else {
                ConnectReadiness::Silent
            },
        },
{
    match dev {
        None => ConnectReadiness::Missing,
        Some(d) => if d.connected || d.rssi.is_some() {
            ConnectReadiness::Ready
        } else {
            ConnectReadiness::Silent
        },
    }
}

/// The entry is a device under the adapter with this address.
pub open spec fn is_wanted(
    entry: (Seq<char>, Props),
    adapter_path: Seq<char>,
    address: Seq<char>,
) -> bool {
    &&& starts_with(entry.0, adapter_path + "/"@)
    &&& entry.1.text("Address"@) matches Some(a) && hex_digits(a) == hex_digits(address)
}

/// The first device of a listing that is wanted.
pub open spec fn first_wanted(
    entries: Seq<(Seq<char>, Props)>,
    adapter_path: Seq<char>,
    address: Seq<char>,
) -> Option<(Seq<char>, Props)>
    decreases entries.len(),
{
    if entries.len() == 0 {
        None
    } else if is_wanted(entries[0], adapter_path, address) {
        Some(entries[0])
    } else {
        first_wanted(entries.skip(1), adapter_path, address)
    }
}

/// `d` is the device with an address under an adapter: by its `Address` property, or else the object
/// at the conventional path; `None` where there is neither.
pub open spec fn is_resolved(
    d: Option<LiveDevice>,
    objs: Objects,
    adapter_path: Seq<char>,
    address: Seq<char>,
) -> bool {
    let found = first_wanted(with_iface(objs.list@, IFACE_DEVICE@), adapter_path, address);
    let path = conventional_path(adapter_path, address);
    if hex_digits(address).len() == 0 {
        d is None
    } else if found is Some {
        let (p, props) = found->0;
        d matches Some(l) && l.path@ == p && l.rssi == props.signed("RSSI"@) && l.connected
            == props.flag("Connected"@)
    } else if objs.object(path) is Some {
        d matches Some(l) && l.path@ == path && match objs.props(path, IFACE_DEVICE@) {
            Some(props) => l.rssi == props.signed("RSSI"@) && l.connected == props.flag(
                "Connected"@,
            ),
            None => l.rssi is None && !l.connected,
        }
    } else {
        d is None
    }
}

/// The device with an address under an adapter. `None` means that BlueZ has pruned the object.
pub fn resolve_device_from_objects(objs: &Objects, adapter_path: &str, address: &str) -> (r: Option<
    LiveDevice,
>)
    requires
        objs.wf(),
    ensures
        is_resolved(r, *objs, adapter_path@, address@),
{
    let mut prefix = owned(adapter_path);
    prefix.push_str("/");
    let want = compact(chars_of(address).as_slice());
    if want.len() == 0 {
        return None;
    }
    let list = objects_with(objs, IFACE_DEVICE);
    let ghost entries = entry_views(list@);
    let mut i: usize = 0;
    assert(entries.skip(0) =~= entries);
    while i < list.len()
        invariant
            i <= list.len(),
            entries == entry_views(list@),
            entries == with_iface(objs.list@, IFACE_DEVICE@),
            prefix@ == adapter_path@ + "/"@,
            want@ == hex_digits(address@),
            want@.len() > 0,
            first_wanted(entries, adapter_path@, address@) == first_wanted(
                entries.skip(i as int),
                adapter_path@,
                address@,
            ),
        decreases list.len() - i,
    {
        assert(entries.skip(i as int)[0] == entries[i as int]);
        assert(entries.skip(i as int).skip(1) =~= entries.skip(i as int + 1));
        let path = &list[i].0;
        let props: &Props = list[i].1;
        let cs = chars_of(path.as_str());
        if has_prefix(cs.as_slice(), prefix.as_str()) {
            if let Some(a) = prop_str(props, "Address") {
                let have = compact(chars_of(a.as_str()).as_slice());
                if same(have.as_slice(), want.as_slice()) {
                    return Some(
                        LiveDevice {
                            path: owned(path.as_str()),
                            rssi: prop_i16(props, "RSSI"),
                            connected: prop_flag(props, "Connected"),
                        },
                    );
                }
            }
        }
        i += 1;
    }
    let conventional = device_path_for(adapter_path, address);
    if find_object(objs, conventional.as_str()).is_some() {
        return match iface_props(objs, conventional.as_str(), IFACE_DEVICE) {
            Some(p) => Some(
                LiveDevice {
                    path: conventional,
                    rssi: prop_i16(p, "RSSI"),
                    connected: prop_flag(p, "Connected"),
                },
            ),
            None => Some(LiveDevice { path: conventional, rssi: None, connected: false }),
        };
    }
    None
}

/// The state of an adapter in a snapshot.
#[derive(Debug, Clone, Copy, PartialEq, Eq, Structural)]
pub enum AdapterHealth {
    Powered,
    Unpowered,
    Missing,
}

/// The state of an adapter in a snapshot.
pub open spec fn spec_adapter_health(objs: Objects, adapter_path: Seq<char>) -> AdapterHealth {
    match objs.props(adapter_path, IFACE_ADAPTER@) {
        None => AdapterHealth::Missing,
        Some(p) => if p.flag("Powered"@) {
            AdapterHealth::Powered
        } else {
            AdapterHealth::Unpowered
        },
    }
}

/// The state of an adapter in a snapshot.
pub fn adapter_health_from_objects(objs: &Objects, adapter_path: &str) -> (r: AdapterHealth)
    requires
        objs.wf(),
    ensures
        r == spec_adapter_health(*objs, adapter_path@),
{
    match iface_props(objs, adapter_path, IFACE_ADAPTER) {
        None => AdapterHealth::Missing,
        Some(p) => if prop_flag(p, "Powered") {
            AdapterHealth::Powered
        } else {
            AdapterHealth::Unpowered
        },
    }
}

/// The wait for an adapter to be there and powered. An adapter that is off is asked to power up once;
/// one that is missing is going through a reset.
#[derive(Debug)]
pub struct Recovery {
    pub deadline_ms: u64,
    pub asked_power: bool,
}

/// What to do after a look at the adapter.
#[derive(Debug, Clone, Copy, PartialEq, Eq, Structural)]
pub enum RecoveryStep {
    /// The adapter can be used.
    Usable,
    /// Ask it to power up, then go on.
    AskPower,
    /// Go on.
    Wait,
}

/// How long the wait is.
pub const RECOVERY_MS: u64 = 4000;

/// The pause between two looks at the adapter.
pub const RECOVERY_PAUSE_MS: u64 = 250;

impl Recovery {
    /// A wait that begins.
    pub fn new(now_ms: u64) -> (r: Recovery)
        requires
            now_ms <= u64::MAX - RECOVERY_MS,
        ensures
            r.deadline_ms == now_ms + RECOVERY_MS,
            !r.asked_power,
    {
        Recovery { deadline_ms: now_ms + RECOVERY_MS, asked_power: false }
    }

    /// Takes a look at the adapter; `None` where it could not be looked at.
    pub fn seen(&mut self, health: Option<AdapterHealth>) -> (r: RecoveryStep)
        ensures
            r == match health {
                Some(AdapterHealth::Powered) => RecoveryStep::Usable,
                Some(AdapterHealth::Unpowered) => if old(self).asked_power {
                    RecoveryStep::Wait
                } else {
                    RecoveryStep::AskPower
                },
                _ => RecoveryStep::Wait,
            },
            final(self).deadline_ms == old(self).deadline_ms,
            final(self).asked_power == (old(self).asked_power || r == RecoveryStep::AskPower),
    {
        match health {
            Some(AdapterHealth::Powered) => RecoveryStep::Usable,
            Some(AdapterHealth::Unpowered) => if self.asked_power {
                RecoveryStep::Wait
            } else {
                self.asked_power = true;
                RecoveryStep::AskPower
            },
            _ => RecoveryStep::Wait,
        }
    }

    /// Whether the wait is over without success.
    pub fn over(&self, now_ms: u64) -> (r: bool)
        ensures
            r == (now_ms >= self.deadline_ms),
    {
        now_ms >= self.deadline_ms
    }
}

// ------------------------------------------------------------------ failed connects

/// Why a connect failed.
#[derive(Debug, Clone, Copy, PartialEq, Eq, Structural)]
pub enum ConnectFailureKind {
    /// The device's object is gone.
    Pruned,
    /// The host aborted the link.
    HostAbort,
    /// A time limit was reached.
    Timeout,
    /// The adapter is off or not ready.
    AdapterOff,
    /// The device's object is there, but the device is not advertising and not held.
    NotAdvertising,
    Other,
}

impl ConnectFailureKind {
    /// The kind's name.
    pub open spec fn text(self) -> &'static str {
        match self {
            ConnectFailureKind::Pruned => "pruned",
            ConnectFailureKind::HostAbort => "host-abort",
            ConnectFailureKind::Timeout => "timeout",
            ConnectFailureKind::AdapterOff => "adapter-off",
            ConnectFailureKind::NotAdvertising => "not-advertising",
            ConnectFailureKind::Other => "other",
        }
    }

    /// The kind's name.
    pub fn as_str(self) -> (r: &'static str)
        ensures
            r == self.text(),
    {
        match self {
            ConnectFailureKind::Pruned => "pruned",
            ConnectFailureKind::HostAbort => "host-abort",
            ConnectFailureKind::Timeout => "timeout",
            ConnectFailureKind::AdapterOff => "adapter-off",
            ConnectFailureKind::NotAdvertising => "not-advertising",
            ConnectFailureKind::Other => "other",
        }
    }

    /// The kind's name, and the detail where there is one.
    pub open spec fn last_text(self, detail: Seq<char>) -> Seq<char> {
        if trim(detail).len() == 0 {
            self.text()@
        } else {
            self.text()@ + ": "@ + trim(detail)
        }
    }

    /// The kind's name, and the detail where there is one.
    pub fn format_last(self, detail: &str) -> (r: String)
        ensures
            r@ == self.last_text(detail@),
    {
        let cs = chars_of(detail);
        let d = trim_chars(cs.as_slice());
        let mut r = owned(self.as_str());
        if d.len() > 0 {
            r.push_str(": ");
            push_chars(&mut r, d);
        }
        r
    }
}

/// The error says that the device's object is gone.
pub open spec fn says_pruned(name: Seq<char>, m: Seq<char>) -> bool {
    ||| name == "org.freedesktop.DBus.Error.UnknownObject"@
    ||| name == "org.bluez.Error.NotConnected"@
    ||| contains(m, "doesn't exist"@)
    ||| contains(m, "unknown object"@)
    ||| name == "org.bluez.Error.Failed"@ && (contains(m, "not connected"@) || contains(
        m,
        "disconnected"@,
    ))
}

/// The error says that the adapter is off.
pub open spec fn says_adapter_off(name: Seq<char>, m: Seq<char>) -> bool {
    ||| name == "org.bluez.Error.NotReady"@
    ||| contains(m, "adapter not powered"@)
    ||| contains(m, "ehostunreach"@)
    ||| contains(m, "resource not ready"@)
    ||| contains(m, "no such device"@)
    ||| contains(m, "hci down"@)
    ||| contains(m, "econnaborted"@) && !contains(m, "le-connection-abort-by-local"@)
}

/// The error says that the host aborted the link.
pub open spec fn says_host_abort(m: Seq<char>) -> bool {
    contains(m, "le-connection-abort-by-local"@) || contains(m, "connection aborted"@)
}

/// The error says that a time limit was reached.
pub open spec fn says_timeout(name: Seq<char>, m: Seq<char>) -> bool {
    ||| name == "org.bluez.Error.Timeout"@
    ||| name == "org.freedesktop.DBus.Error.NoReply"@
    ||| (name == "org.bluez.Error.Failed"@ || name.len() == 0) && (contains(m, "timed out"@)
        || contains(m, "timeout"@))
}

/// Why a connect failed, by the error's name and message.
pub open spec fn spec_classify(name: Seq<char>, message: Seq<char>) -> ConnectFailureKind {
    let m = lower(message);
    if says_pruned(name, m) {
        ConnectFailureKind::Pruned
    } else if says_adapter_off(name, m) {
        ConnectFailureKind::AdapterOff
    } else if says_host_abort(m) {
        ConnectFailureKind::HostAbort
    } else if says_timeout(name, m) {
        ConnectFailureKind::Timeout
    } else {
        ConnectFailureKind::Other
    }
}

/// Why a connect failed, by the error's name and message.
pub fn classify_connect_name_message(name: Option<&str>, message: &str) -> (r: ConnectFailureKind)
    ensures
        r == spec_classify(
            match name {
                Some(n) => n@,
                None => Seq::empty(),
            },
            message@,
        ),
{
    let n: Vec<char> = match name {
        Some(n) => chars_of(n),
        None => Vec::new(),
    };
    let ghost name_v = match name {
        Some(n) => n@,
        None => Seq::empty(),
    };
    assert(n@ =~= name_v);
    let low = lower_chars(chars_of(message).as_slice());
    let n = n.as_slice();
    let m = low.as_slice();
    let failed = is_text(n, "org.bluez.Error.Failed");
    if is_text(n, "org.freedesktop.DBus.Error.UnknownObject") || is_text(
        n,
        "org.bluez.Error.NotConnected",
    ) || has_text(m, "doesn't exist") || has_text(m, "unknown object") || (failed && (has_text(
        m,
        "not connected",
    ) || has_text(m, "disconnected"))) {
        return ConnectFailureKind::Pruned;
    }
    if is_text(n, "org.bluez.Error.NotReady") || has_text(m, "adapter not powered") || has_text(
        m,
        "ehostunreach",
    ) || has_text(m, "resource not ready") || has_text(m, "no such device") || has_text(
        m,
        "hci down",
    ) || (has_text(m, "econnaborted") && !has_text(m, "le-connection-abort-by-local")) {
        return ConnectFailureKind::AdapterOff;
    }
    if has_text(m, "le-connection-abort-by-local") || has_text(m, "connection aborted") {
        return ConnectFailureKind::HostAbort;
    }
    if is_text(n, "org.bluez.Error.Timeout") || is_text(n, "org.freedesktop.DBus.Error.NoReply")
        || ((failed || n.len() == 0) && (has_text(m, "timed out") || has_text(m, "timeout"))) {
        return ConnectFailureKind::Timeout;
    }
    ConnectFailureKind::Other
}

/// Why a connect failed.
pub open spec fn spec_classify_error(e: BusError) -> ConnectFailureKind {
    if e.gone() {
        ConnectFailureKind::Pruned
    } else {
        spec_classify(
            match e.name() {
                Some(n) => n,
                None => Seq::empty(),
            },
            e.message(),
        )
    }
}

/// Why a connect failed.
pub fn classify_connect_error(e: &BusError) -> (r: ConnectFailureKind)
    ensures
        r == spec_classify_error(*e),
{
    if is_gone(e) {
        return ConnectFailureKind::Pruned;
    }
    let m = err_message(e);
    match err_name(e) {
        Some(n) => classify_connect_name_message(Some(n.as_str()), m.as_str()),
        None => classify_connect_name_message(None, m.as_str()),
    }
}

} // verus!
