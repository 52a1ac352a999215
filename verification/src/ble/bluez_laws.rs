//! What errors of the bus mean for a print, and which object a device is.

use vstd::prelude::*;

use crate::ble::bluez::{
    first_wanted, hex_digits, is_mapped, is_resolved, is_wanted, spec_adapter_health, AdapterHealth, BusError,
    LiveDevice, Objects, Props, IFACE_ADAPTER, IFACE_DEVICE,
};
use crate::ble::discovery::has_service;
use crate::ble::objects::with_iface;
use crate::printer::PrintError;
use crate::text::{lower, starts_with};

verus! {

/// Without BlueZ there is no Bluetooth; an adapter that is not ready is off; an object that is gone, or a device
/// that is not connected, is a lost link. All of these can be waited for, as can everything else that the bus says.
pub proof fn lemma_bus_errors(p: PrintError, e: BusError, what: Seq<char>)
    requires
        is_mapped(p, e, what),
    ensures
        e is ServiceUnknown || e is NameHasNoOwner ==> p is NoBluetoothd,
        e is UnknownObject ==> p is LinkLost,
        e matches BusError::Method { name, .. } ==> name@ == "org.bluez.Error.NotReady"@ ==> p is AdapterOff,
        e matches BusError::Method { name, .. } ==> name@ == "org.bluez.Error.NotConnected"@ ==> p is LinkLost,
        e matches BusError::Method { name, .. } ==> name@ == "org.bluez.Error.Failed"@ && what == "connect"@ ==> p
            is ConnectFailed,
        e is Unreachable ==> p is NoBluetoothd,
        p.spec_retryable(),
{
    reveal_strlit("org.freedesktop.DBus.Error.ServiceUnknown");
    reveal_strlit("org.freedesktop.DBus.Error.NameHasNoOwner");
    reveal_strlit("org.freedesktop.DBus.Error.UnknownObject");
    reveal_strlit("org.bluez.Error.NotReady");
    reveal_strlit("org.bluez.Error.NotConnected");
    reveal_strlit("org.bluez.Error.Failed");
    assert("org.freedesktop.DBus.Error.ServiceUnknown"@.len() == 41);
    assert("org.freedesktop.DBus.Error.NameHasNoOwner"@.len() == 41);
    assert("org.freedesktop.DBus.Error.UnknownObject"@.len() == 40);
    assert("org.bluez.Error.NotReady"@.len() == 24);
    assert("org.bluez.Error.NotConnected"@.len() == 28);
    assert("org.bluez.Error.Failed"@.len() == 22);
}

/// The first object under the adapter with the device's address, however that is spelled, is the device.
pub proof fn lemma_first_wanted(entries: Seq<(Seq<char>, Props)>, adapter: Seq<char>, address: Seq<char>, i: int)
    requires
        0 <= i < entries.len(),
        starts_with(entries[i].0, adapter + "/"@),
        entries[i].1.text("Address"@) is Some,
        hex_digits(entries[i].1.text("Address"@)->0) == hex_digits(address),
        forall|k: int| 0 <= k < i ==> !is_wanted(#[trigger] entries[k], adapter, address),
    ensures
        first_wanted(entries, adapter, address) == Some(entries[i]),
    decreases i,
{
    if i > 0 {
        assert(!is_wanted(entries[0], adapter, address));
        let rest = entries.skip(1);
        assert forall|k: int| 0 <= k < i - 1 implies !is_wanted(#[trigger] rest[k], adapter, address) by {
            assert(rest[k] == entries[k + 1]);
        }
        lemma_first_wanted(rest, adapter, address, i - 1);
    }
}

/// A device is what its object says: where it is, how strong its signal is and whether it is connected. What is no
/// address is no device's.
pub proof fn lemma_resolved(d: Option<LiveDevice>, objs: Objects, adapter: Seq<char>, address: Seq<char>, i: int)
    requires
        is_resolved(d, objs, adapter, address),
    ensures
        hex_digits(address).len() == 0 ==> d is None,
        ({
            let l = with_iface(objs.list@, IFACE_DEVICE@);
            hex_digits(address).len() > 0 && 0 <= i < l.len() && first_wanted(l, adapter, address) == Some(l[i])
                ==> d is Some && (d->0).path@ == l[i].0 && (d->0).rssi == l[i].1.signed("RSSI"@) && (d->0).connected
                == l[i].1.flag("Connected"@)
        }),
{
}

/// An adapter without properties is missing; one with them is on or off as they say.
pub proof fn lemma_adapter_health(objs: Objects, path: Seq<char>)
    ensures
        objs.props(path, IFACE_ADAPTER@) is None <==> spec_adapter_health(objs, path) == AdapterHealth::Missing,
        objs.props(path, IFACE_ADAPTER@) matches Some(p) ==> (p.flag("Powered"@) <==> spec_adapter_health(objs, path)
            == AdapterHealth::Powered),
{
}

/// Cat printers advertise one of two services, whatever the case of its letters.
pub proof fn lemma_services_of_cat_printers(uuids: Seq<Seq<char>>, i: int)
    requires
        0 <= i < uuids.len(),
        lower(uuids[i]) == lower("0000ae30-0000-1000-8000-00805f9b34fb"@) || lower(uuids[i]) == lower(
            "0000af30-0000-1000-8000-00805f9b34fb"@,
        ),
    ensures
        has_service(uuids),
        !has_service(Seq::empty()),
{
    assert(has_service(uuids)) by {
        let u = uuids[i];
    }
}

} // verus!
