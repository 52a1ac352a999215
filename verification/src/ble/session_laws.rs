//! How a connection is tried, what failures are taken for, and what a connected device must have.

use vstd::prelude::*;

use crate::ble::bluez::{
    spec_classify, ConnectFailureKind, Objects, Props, IFACE_CHAR, IFACE_SERVICE,
};
use crate::ble::discovery::{
    adapters_in, first_powered, is_chosen, opt_string, AdapterInfo, AdapterView,
};
use crate::ble::objects::with_iface;
use crate::ble::session::{
    connect_hint, is_resolved_chars, is_service_of, is_verdict, last_char, lies_under, service_paths,
    spec_acquire, spec_io, spec_max_payload, spec_mtu, Acquire, AcquireStep, Chars, ConnectCall, ConnectRun, ConnectStep, ConnectVerdict, IoAction,
};
use crate::ble::{
    addresses, cached_of, fresh, is_adapter_step, is_copy_progress, AdapterStep, AvoidList, Copies, CopyStep, Rest, RestStep, Search, SearchStep,
};
use crate::models::Family;
use crate::ble::discovery::CandidateView;
use crate::printer::{Condition, PrintError, Progress};
use crate::text::{contains, lower, starts_with, upper};

verus! {

// ------------------------------------------------------------------ attempts

/// A failed attempt is followed by another as long as there are any left, unless the adapter is off. The pause is
/// longest where the host aborted the link and shortest where the device's object is gone; in both of these, and
/// in no other, discovery is refreshed before the next attempt.
pub proof fn lemma_attempts(
    run: ConnectRun,
    new: ConnectRun,
    s: ConnectStep,
    kind: ConnectFailureKind,
    detail: Seq<char>,
    rssi: Option<i16>,
)
    requires
        run.is_failed(new, s, kind, detail, rssi),
    ensures
        kind == ConnectFailureKind::AdapterOff ==> s == ConnectStep::Fail(PrintError::AdapterOff),
        kind != ConnectFailureKind::AdapterOff && run.attempt < run.attempts ==> s is Pause && new.attempt
            == run.attempt + 1,
        kind != ConnectFailureKind::AdapterOff && run.attempt >= run.attempts ==> s matches ConnectStep::Fail(
            PrintError::ConnectFailed { .. },
        ),
        s matches ConnectStep::Pause { pause_ms, refresh_discovery } ==> {
            &&& refresh_discovery <==> kind == ConnectFailureKind::Pruned || kind == ConnectFailureKind::HostAbort
            &&& kind == ConnectFailureKind::HostAbort ==> pause_ms == 2500
            &&& kind == ConnectFailureKind::Pruned ==> pause_ms == 800
            &&& kind != ConnectFailureKind::HostAbort && kind != ConnectFailureKind::Pruned ==> pause_ms == 1200
        },
        new.last_rssi == rssi,
        new.was_connected == run.was_connected,
        starts_with(new.last@, kind.text()@),
{
    let t = kind.text()@;
    if crate::text::trim(detail).len() == 0 {
        assert(new.last@.subrange(0, t.len() as int) =~= t);
    } else {
        assert(new.last@.subrange(0, t.len() as int) =~= t);
    }
}

/// What is suggested in the end: to move a printer whose signal is below -80 closer; to switch one off and on that
/// is held, and else to close the app that holds it.
pub proof fn lemma_hints(rssi: Option<i16>, held: bool)
    ensures
        starts_with(
            connect_hint(rssi, held),
            " It is far away (weak Bluetooth) — move it next to the computer."@,
        ) <==> rssi is Some && rssi->0 < -80,
        held && (rssi is None || rssi->0 >= -80) ==> connect_hint(rssi, held)
            == " Bluetooth Settings may be holding the printer; turn the printer off and on."@,
        !held && (rssi is None || rssi->0 >= -80) ==> connect_hint(rssi, held)
            == " Close the phone app if it is open — the printer allows only one connection."@,
{
    reveal_strlit(" It is far away (weak Bluetooth) — move it next to the computer.");
    reveal_strlit(" Bluetooth Settings may be holding the printer; turn the printer off and on.");
    reveal_strlit(" Close the phone app if it is open — the printer allows only one connection.");
    let far = " It is far away (weak Bluetooth) — move it next to the computer."@;
    let (a, b) = (
        " Bluetooth Settings may be holding the printer; turn the printer off and on."@,
        " Close the phone app if it is open — the printer allows only one connection."@,
    );
    let h = connect_hint(rssi, held);
    assert(far[1] == 'I' && a[1] == 'B' && b[1] == 'C');
    if rssi is Some && rssi->0 < -80 {
        assert(h.subrange(0, far.len() as int) =~= far);
    } else {
        assert(Seq::<char>::empty() + a =~= a);
        assert(Seq::<char>::empty() + b =~= b);
        if starts_with(h, far) {
            assert(h.subrange(0, far.len() as int)[1] == h[1]);
        }
    }
}

/// A device that says that it is connected already counts as connected; one that is being connected is waited
/// for; a call without an answer in time is a timeout.
pub proof fn lemma_verdicts(v: ConnectVerdict, call: ConnectCall)
    requires
        is_verdict(v, call),
    ensures
        call is Connected ==> v is Connected,
        call is TimedOut ==> v matches ConnectVerdict::Failed { kind: ConnectFailureKind::Timeout, .. },
        call matches ConnectCall::Failed(e) ==> {
            &&& e.name() == Some("org.bluez.Error.AlreadyConnected"@) ==> v is Connected
            &&& e.name() == Some("org.bluez.Error.InProgress"@) ==> v is Wait
            &&& e.name() is None ==> v is Failed
        },
{
    reveal_strlit("org.bluez.Error.AlreadyConnected");
    reveal_strlit("org.bluez.Error.InProgress");
    assert("org.bluez.Error.AlreadyConnected"@.len() != "org.bluez.Error.InProgress"@.len());
}

/// What failures are taken for: a device's object that is unknown is gone; an adapter that is not ready is off;
/// a local abort of an LE connection is the host's, though it looks like a lost adapter; no reply is a timeout.
pub proof fn lemma_failures(name: Seq<char>, message: Seq<char>)
    ensures
        name == "org.freedesktop.DBus.Error.UnknownObject"@ || name == "org.bluez.Error.NotConnected"@
            ==> spec_classify(name, message) == ConnectFailureKind::Pruned,
        name == "org.bluez.Error.NotReady"@ ==> spec_classify(name, message) == ConnectFailureKind::AdapterOff
            || spec_classify(name, message) == ConnectFailureKind::Pruned,
        message.len() == 0 && name == "org.bluez.Error.NotReady"@ ==> spec_classify(name, message)
            == ConnectFailureKind::AdapterOff,
        message.len() == 0 && (name == "org.bluez.Error.Timeout"@ || name
            == "org.freedesktop.DBus.Error.NoReply"@) ==> spec_classify(name, message)
            == ConnectFailureKind::Timeout,
        message.len() == 0 && name.len() == 0 ==> spec_classify(name, message) == ConnectFailureKind::Other,
        contains(lower(message), "le-connection-abort-by-local"@) ==> spec_classify(name, message)
            != ConnectFailureKind::Timeout && spec_classify(name, message) != ConnectFailureKind::Other,
        spec_classify(name, message) == spec_classify(name, lower(message)),
{
    lemma_lower_twice(message);
    if message.len() == 0 {
        lemma_phrases(lower(message));
        reveal_strlit("org.freedesktop.DBus.Error.UnknownObject");
        reveal_strlit("org.bluez.Error.NotConnected");
        reveal_strlit("org.bluez.Error.Failed");
        reveal_strlit("org.bluez.Error.NotReady");
        reveal_strlit("org.bluez.Error.Timeout");
        reveal_strlit("org.freedesktop.DBus.Error.NoReply");
        assert("org.freedesktop.DBus.Error.UnknownObject"@.len() == 40);
        assert("org.bluez.Error.NotConnected"@.len() == 28);
        assert("org.bluez.Error.NotReady"@.len() == 24);
        assert("org.bluez.Error.Timeout"@.len() == 23);
        assert("org.freedesktop.DBus.Error.NoReply"@.len() == 34);
    }
}

proof fn lemma_lower_twice(s: Seq<char>)
    ensures
        lower(lower(s)) == lower(s),
{
    assert(lower(lower(s)) =~= lower(s));
}

/// An empty text holds none of the phrases.
proof fn lemma_phrases(m: Seq<char>)
    requires
        m.len() == 0,
    ensures
        !contains(m, "doesn't exist"@),
        !contains(m, "unknown object"@),
        !contains(m, "not connected"@),
        !contains(m, "disconnected"@),
        !contains(m, "adapter not powered"@),
        !contains(m, "ehostunreach"@),
        !contains(m, "resource not ready"@),
        !contains(m, "no such device"@),
        !contains(m, "hci down"@),
        !contains(m, "econnaborted"@),
        !contains(m, "le-connection-abort-by-local"@),
        !contains(m, "connection aborted"@),
        !contains(m, "timed out"@),
        !contains(m, "timeout"@),
{
    reveal_strlit("doesn't exist");
    reveal_strlit("unknown object");
    reveal_strlit("not connected");
    reveal_strlit("disconnected");
    reveal_strlit("adapter not powered");
    reveal_strlit("ehostunreach");
    reveal_strlit("resource not ready");
    reveal_strlit("no such device");
    reveal_strlit("hci down");
    reveal_strlit("econnaborted");
    reveal_strlit("le-connection-abort-by-local");
    reveal_strlit("connection aborted");
    reveal_strlit("timed out");
    reveal_strlit("timeout");
}

// ------------------------------------------------------------------ characteristics

/// A service is a cat printer's where its UUID is one of the two, whatever its case; the paths of a device's are
/// exactly those under it.
pub proof fn lemma_services(services: Seq<(Seq<char>, Props)>, device: Seq<char>, p: Seq<char>)
    ensures
        service_paths(services, device).contains(p) <==> exists|i: int|
            0 <= i < services.len() && (#[trigger] services[i]).0 == p && is_service_of(services[i], device),
    decreases services.len(),
{
    let all = service_paths(services, device);
    if services.len() == 0 {
        assert(!all.contains(p));
    } else {
        let rest = services.drop_last();
        let some = service_paths(rest, device);
        lemma_services(rest, device, p);
        if all.contains(p) {
            if some.contains(p) {
                let i = choose|i: int|
                    0 <= i < rest.len() && (#[trigger] rest[i]).0 == p && is_service_of(rest[i], device);
                assert(services[i] == rest[i]);
            } else {
                let k = choose|k: int| 0 <= k < all.len() && all[k] == p;
                assert(k == some.len());
                assert(services[services.len() - 1].0 == p);
            }
        }
        if exists|i: int|
            0 <= i < services.len() && (#[trigger] services[i]).0 == p && is_service_of(services[i], device) {
            let i = choose|i: int|
                0 <= i < services.len() && (#[trigger] services[i]).0 == p && is_service_of(services[i], device);
            if i < rest.len() {
                assert(rest[i].0 == p);
                let k = choose|k: int| 0 <= k < some.len() && some[k] == p;
                assert(all[k] == p);
            } else {
                assert(all[some.len() as int] == p);
            }
        }
    }
}

/// A characteristic is found where one with its UUID lies under a service of the device, and only there.
pub proof fn lemma_characteristics(
    chars: Seq<(Seq<char>, Props)>,
    services: Seq<Seq<char>>,
    uuid: Seq<char>,
    i: int,
)
    requires
        0 <= i < chars.len(),
    ensures
        lies_under(services, chars[i].0) && (chars[i].1.text("UUID"@) matches Some(u) && lower(u) == uuid)
            ==> last_char(chars, services, uuid) is Some,
        last_char(chars, services, uuid) matches Some(p) ==> lies_under(services, p),
    decreases chars.len(),
{
    let rest = chars.drop_last();
    if i < rest.len() {
        lemma_characteristics(rest, services, uuid, i);
    } else if rest.len() > 0 {
        lemma_characteristics(rest, services, uuid, 0);
    } else {
        assert(last_char(rest, services, uuid) is None);
    }
}

/// A device without a service of cat printers, or without one of the two characteristics that commands go through,
/// is none; the one that bulk data goes through may be missing, and tells the family.
pub proof fn lemma_what_a_printer_has(r: Result<Chars, PrintError>, objs: Objects, device: Seq<char>)
    requires
        is_resolved_chars(r, objs, device),
    ensures
        r is Err ==> r->Err_0 is NotCatPrinter,
        r matches Ok(c) ==> {
            let services = service_paths(with_iface(objs.list@, IFACE_SERVICE@), device);
            let chars = with_iface(objs.list@, IFACE_CHAR@);
            &&& services.len() > 0
            &&& last_char(chars, services, "0000ae01-0000-1000-8000-00805f9b34fb"@) == Some(c.control@)
            &&& last_char(chars, services, "0000ae02-0000-1000-8000-00805f9b34fb"@) == Some(c.notify@)
            &&& last_char(chars, services, "0000ae03-0000-1000-8000-00805f9b34fb"@) == opt_string(c.data)
            &&& c.has_ae03 <==> c.data is Some
        },
        r is Ok <==> {
            let services = service_paths(with_iface(objs.list@, IFACE_SERVICE@), device);
            let chars = with_iface(objs.list@, IFACE_CHAR@);
            &&& services.len() > 0
            &&& last_char(chars, services, "0000ae01-0000-1000-8000-00805f9b34fb"@) is Some
            &&& last_char(chars, services, "0000ae02-0000-1000-8000-00805f9b34fb"@) is Some
        },
{
}

/// What one write carries is three bytes less than the MTU, which is at least 23.
pub proof fn lemma_payloads(prop: Option<u16>)
    ensures
        spec_mtu(prop) >= 23,
        prop matches Some(m) ==> m >= 23 ==> spec_mtu(prop) == m,
        spec_max_payload(spec_mtu(prop)) == spec_mtu(prop) - 3,
{
}

// ------------------------------------------------------------------ devices to avoid

/// A device that was no cat printer is avoided for as long as it may be, unless it is the one that is left out.
pub proof fn lemma_avoided(v: Seq<(Seq<char>, u64)>, now_ms: u64, without: Option<Seq<char>>, i: int)
    requires
        0 <= i < v.len(),
    ensures
        now_ms - v[i].1 < 600_000 && without != Some(v[i].0) ==> fresh(
            v,
            now_ms,
            without,
        ).contains(v[i]),
        without matches Some(w) ==> forall|k: int|
            0 <= k < fresh(v, now_ms, without).len() ==> (#[trigger] fresh(v, now_ms, without)[k]).0 != w,
        forall|k: int|
            0 <= k < fresh(v, now_ms, without).len() ==> now_ms - (#[trigger] fresh(v, now_ms, without)[k]).1
                < 600_000,
    decreases v.len(),
{
    let rest = v.drop_last();
    let some = fresh(rest, now_ms, without);
    let all = fresh(v, now_ms, without);
    if rest.len() > 0 {
        lemma_avoided(
            rest,
            now_ms,
            without,
            if i < rest.len() {
                i
            } else {
                0
            },
        );
    } else {
        assert(some.len() == 0);
    }
    if i < rest.len() {
        if some.contains(rest[i]) {
            let k = choose|k: int| 0 <= k < some.len() && some[k] == rest[i];
            assert(all[k] == v[i]);
        }
    } else if now_ms - v[i].1 < 600_000 && without != Some(v[i].0) {
        assert(all[some.len() as int] == v[i]);
    }
}

/// A device that BlueZ merely remembers is not tried before a scan: only one that is connected or advertising.
pub proof fn lemma_cached(c: Seq<CandidateView>)
    ensures
        cached_of(c) matches Some(b) ==> c.contains(b) && (b.rssi is Some || b.connected),
        (exists|i: int| 0 <= i < c.len() && (#[trigger] c[i]).connected) ==> cached_of(c) is Some,
{
    crate::ble::discovery::lemma_best(c);
    if exists|i: int| 0 <= i < c.len() && (#[trigger] c[i]).connected {
        let i = choose|i: int| 0 <= i < c.len() && (#[trigger] c[i]).connected;
        crate::ble::discovery::lemma_best_is(c, i);
    }
}

/// Before each of several copies their number is told, and how much is done: nothing before the first, and more
/// before each one that follows.
pub proof fn lemma_copies_are_told(a: Option<Progress>, b: Option<Progress>, copy: u32, copies: u32)
    requires
        copies > 1,
        copy + 1 < copies,
        is_copy_progress(a, copy, copies),
        is_copy_progress(b, (copy + 1) as u32, copies),
    ensures
        a is Some && b is Some,
        (a->0).percent <= (b->0).percent < 100,
        copy == 0 ==> (a->0).percent == 0,
{
    let (x, y) = (copy * 100 / copies as int, (copy + 1) * 100 / copies as int);
    assert(x <= y < 100) by (nonlinear_arith)
        requires
            x == copy * 100 / copies as int,
            y == (copy + 1) * 100 / copies as int,
            copy + 1 < copies,
            copy >= 0,
    ;
}

// ------------------------------------------------------------------ writing

/// Only an interrupted or a full socket is written to again; any other error is a lost link.
pub proof fn lemma_socket_errors(errno: Option<i32>)
    ensures
        spec_io(errno) == IoAction::Retry <==> errno == Some(4i32) || errno == Some(11i32),
        spec_io(errno) == IoAction::LinkLost <==> errno != Some(4i32) && errno != Some(11i32),
{
}

/// A channel is used where it carries a row; it is asked for at most twice, and once where it is refused.
pub proof fn lemma_channels(attempt: u8, outcome: Acquire, row_bytes: usize)
    requires
        row_bytes > 0,
    ensures
        spec_acquire(attempt, outcome, row_bytes) == AcquireStep::Use <==> (outcome matches Acquire::Channel(mtu) && mtu
            >= row_bytes + 3),
        attempt > 0 ==> spec_acquire(attempt, outcome, row_bytes) != AcquireStep::PauseAndRetry,
        outcome == Acquire::Refused ==> spec_acquire(attempt, outcome, row_bytes) == AcquireStep::Fallback,
        attempt == 0 && outcome == Acquire::NoChannel ==> spec_acquire(attempt, outcome, row_bytes)
            == AcquireStep::PauseAndRetry,
{
}

// ------------------------------------------------------------------ copies

/// As many copies are printed as are asked for, and no more; between two copies the head of an MXW01 comes to rest;
/// a cancelled job prints no further copy.
pub proof fn lemma_copies_are_printed(c: Copies, cancelled: bool, family: Family, r: CopyStep)
    requires
        c.wf(),
        c.is_next(cancelled, family, r),
    ensures
        r is Finished <==> c.copy == c.copies,
        r is Print <==> c.copy < c.copies && !cancelled,
        r matches CopyStep::Print { rest_first, .. } ==> (rest_first <==> c.copy > 0 && family == Family::Mxw01),
        c.copies == 1 ==> (r matches CopyStep::Print { progress, .. } ==> progress is None),
{
}

/// A job is confirmed where each of its copies is, and knows the battery by the last that told.
pub proof fn lemma_copies_add_up(c: Copies, confirmed: bool, battery: Option<u8>)
    requires
        c.wf(),
        c.copy < c.copies,
    ensures
        c.after(confirmed, battery).copy == c.copy + 1,
        c.after(confirmed, battery).copies == c.copies,
        c.after(confirmed, battery).confirmed <==> c.confirmed && confirmed,
        battery is Some ==> c.after(confirmed, battery).battery == battery,
        battery is None ==> c.after(confirmed, battery).battery == c.battery,
{
}

/// The head is asked up to forty times, half a second apart, until it stands by; what is wrong with it ends the wait.
pub proof fn lemma_rests(rest: Rest, cancelled: bool, r: RestStep, c: Condition, a: RestStep)
    requires
        rest.is_next(cancelled, r),
        Rest::is_answer(c, a),
    ensures
        r is Ask <==> rest.polls < 40 && !cancelled,
        rest.polls >= 40 ==> r matches RestStep::Failed(PrintError::Timeout(_)),
        c.ok && c.state@ == "standby"@ <==> a is AtRest,
        !c.ok ==> a == RestStep::Failed(PrintError::Condition(c)),
        c.ok && c.state@ != "standby"@ ==> a == (RestStep::Pause { ms: 500 }),
{
}

// ------------------------------------------------------------------ searching

/// A device that was none is avoided from now on and another is looked for, up to twice; a device that was asked for
/// is not passed over, and any other error ends the search.
pub proof fn lemma_searches(
    s: Search,
    result: Result<(), PrintError>,
    address: Seq<char>,
    old: AvoidList,
    new: AvoidList,
    now_ms: u64,
    r: SearchStep,
)
    requires
        s.is_ended(result, address, old, new, now_ms, r),
    ensures
        result is Ok ==> r == SearchStep::Open && new == old,
        result matches Err(e) ==> !(e is NotCatPrinter) ==> r == SearchStep::Fail(e) && new == old,
        result matches Err(e) ==> s.hinted ==> r == SearchStep::Fail(e) && new == old,
        result matches Err(e) ==> e is NotCatPrinter && !s.hinted ==> {
            &&& addresses(new.model()).contains(upper(address))
            &&& s.scans <= 2 <==> r == SearchStep::Scan
            &&& s.scans > 2 ==> r == SearchStep::Fail(PrintError::NotFound)
        },
{
    if result is Err && result->Err_0 is NotCatPrinter && !s.hinted {
        let l = addresses(new.model());
        assert(l[l.len() - 1] == upper(address));
    }
}

/// What an error says decides, whatever its name: an object that does not exist is gone; what speaks of the adapter
/// is the adapter's unless the object is gone; an aborted connection is neither a timeout nor anything else; and a
/// time that ran out is no other failure, where the error has no name or a general one.
pub proof fn lemma_phrases_decide(name: Seq<char>, message: Seq<char>)
    ensures
        ({
            let m = lower(message);
            let k = spec_classify(name, message);
            &&& contains(m, "doesn't exist"@) || contains(m, "unknown object"@) ==> k == ConnectFailureKind::Pruned
            &&& name == "org.bluez.Error.Failed"@ && (contains(m, "not connected"@) || contains(m, "disconnected"@))
                ==> k == ConnectFailureKind::Pruned
            &&& contains(m, "adapter not powered"@) || contains(m, "ehostunreach"@) || contains(
                m,
                "resource not ready"@,
            ) || contains(m, "no such device"@) || contains(m, "hci down"@) ==> k == ConnectFailureKind::AdapterOff
                || k == ConnectFailureKind::Pruned
            &&& contains(m, "econnaborted"@) ==> k != ConnectFailureKind::Timeout && k != ConnectFailureKind::Other
            &&& contains(m, "connection aborted"@) ==> k != ConnectFailureKind::Timeout && k
                != ConnectFailureKind::Other
            &&& (name == "org.bluez.Error.Failed"@ || name.len() == 0) && (contains(m, "timed out"@) || contains(
                m,
                "timeout"@,
            )) ==> k != ConnectFailureKind::Other
            &&& k == ConnectFailureKind::HostAbort ==> contains(m, "le-connection-abort-by-local"@) || contains(
                m,
                "connection aborted"@,
            )
            &&& k == ConnectFailureKind::Timeout && name.len() == 0 ==> contains(m, "timed out"@) || contains(
                m,
                "timeout"@,
            )
        }),
{
    reveal_strlit("org.bluez.Error.Timeout");
    reveal_strlit("org.freedesktop.DBus.Error.NoReply");
    assert("org.bluez.Error.Timeout"@.len() == 23 && "org.freedesktop.DBus.Error.NoReply"@.len() == 34);
}

// ------------------------------------------------------------------ adapters

/// A search uses the adapter that was chosen; where none is on, the first one is to be brought back; any other
/// failure ends the search.
pub proof fn lemma_adapters_of_searches(s: AdapterStep, objs: Objects, want: Option<Seq<char>>)
    requires
        is_adapter_step(s, objs, want),
    ensures
        s matches AdapterStep::Recover { path } ==> if adapters_in(objs).len() > 0 {
            path@ == adapters_in(objs)[0].path
        } else {
            path@ == "/org/bluez/hci0"@
        },
        s matches AdapterStep::Use(a) ==> a.powered,
        s matches AdapterStep::Fail(e) ==> !(e is AdapterOff) && want is Some,
        want is None && (forall|k: int| 0 <= k < adapters_in(objs).len() ==> !(#[trigger] adapters_in(objs)[k]).powered)
            ==> s is Recover,
{
    let r = choose|r: Result<AdapterInfo, PrintError>| #[trigger]
        is_chosen(r, objs, want) && match r {
            Ok(a) => s == AdapterStep::Use(a),
            Err(PrintError::AdapterOff) => s matches AdapterStep::Recover { path } && path@
                == crate::ble::recover_path(objs),
            Err(e) => s == AdapterStep::Fail(e),
        };
    if want is None {
        lemma_powered(adapters_in(objs));
        if forall|k: int| 0 <= k < adapters_in(objs).len() ==> !(#[trigger] adapters_in(objs)[k]).powered {
            crate::ble::discovery_laws::lemma_any_adapter(r, objs, 0);
        }
    }
}

proof fn lemma_powered(v: Seq<AdapterView>)
    ensures
        first_powered(v) matches Some(a) ==> a.powered,
    decreases v.len(),
{
    if v.len() > 0 {
        lemma_powered(v.skip(1));
    }
}

} // verus!
