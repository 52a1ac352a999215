//! A GATT session: connecting with retries, finding the characteristics, choosing how data is
//! written, and cutting bulk data into writes.

use vstd::prelude::*;
use vstd::slice::slice_subrange;

use crate::ble::bluez::{
    classify_connect_error, err_message, is_error_named, objects_with, prop_str,
    spec_classify_error, BusError, ConnectFailureKind, LiveDevice, Objects, Props, iface_props,
    IFACE_CHAR, IFACE_DEVICE, IFACE_SERVICE,
};
use crate::ble::discovery::opt_string;
use crate::ble::objects::{entry_views, views, with_iface};
use crate::models::{
    detect, detected_caps, detected_family, detected_label, opt_text, Caps, Detected, Family,
};
use crate::printer::PrintError;
use crate::protocol::mxw01::{data_chunk_size, parse_notification, spec_notification};
use crate::protocol::{CONTROL_UUID, DATA_UUID, NOTIFY_UUID, SERVICE_AE30, SERVICE_AF30};
use crate::text::{
    chars_of, eq_fold_str, has_prefix, is_text, lower, lower_chars, owned, same_fold, same_str,
    starts_with,
};

verus! {

pub const SERVICES_RESOLVED_TIMEOUT_MS: u64 = 10_000;

pub const CONNECT_RETRY_PAUSE_MS: u64 = 1200;

pub const HOST_ABORT_PAUSE_MS: u64 = 2500;

pub const PRUNE_PAUSE_MS: u64 = 800;

pub const POST_DISCONNECT_SLEEP_MS: u64 = 800;

/// The pause between two looks at a device that is being waited for.
pub const DEVICE_POLL_MS: u64 = 200;

/// Cheap toys drop notifications where the buffer is tiny; this is plenty for the command traffic.
pub const NOTIFY_CHANNEL: usize = 256;

// ------------------------------------------------------------------ retries

/// The pause after a failed connect: longer where the host aborted, short where the object is gone.
pub open spec fn spec_pause(kind: ConnectFailureKind) -> u64 {
    match kind {
        ConnectFailureKind::HostAbort => HOST_ABORT_PAUSE_MS,
        ConnectFailureKind::Pruned => PRUNE_PAUSE_MS,
        _ => CONNECT_RETRY_PAUSE_MS,
    }
}

/// The pause after a failed connect, in milliseconds.
pub fn pause_after_failure(kind: ConnectFailureKind) -> (r: u64)
    ensures
        r == spec_pause(kind),
{
    match kind {
        ConnectFailureKind::HostAbort => HOST_ABORT_PAUSE_MS,
        ConnectFailureKind::Pruned => PRUNE_PAUSE_MS,
        _ => CONNECT_RETRY_PAUSE_MS,
    }
}

/// What to do after a failed connect.
#[derive(Debug, Clone, Copy, PartialEq, Eq, Structural)]
pub enum ConnectNext {
    Retry { pause_ms: u64, refresh_discovery: bool },
    GiveUp,
    FailAdapterOff,
}

/// What to do after a failed connect. An adapter that is off ends it; where the device's object is gone
/// or the host aborted, discovery is refreshed, so that BlueZ can make the object anew.
pub open spec fn spec_next(kind: ConnectFailureKind, attempt: u8, attempts: u8) -> ConnectNext {
    if kind == ConnectFailureKind::AdapterOff {
        ConnectNext::FailAdapterOff
    } else if attempt >= attempts {
        ConnectNext::GiveUp
    } else {
        ConnectNext::Retry {
            pause_ms: spec_pause(kind),
            refresh_discovery: kind == ConnectFailureKind::Pruned || kind
                == ConnectFailureKind::HostAbort,
        }
    }
}

/// What to do after a failed connect.
pub fn connect_next_action(kind: ConnectFailureKind, attempt: u8, attempts: u8) -> (r: ConnectNext)
    ensures
        r == spec_next(kind, attempt, attempts),
{
    if kind == ConnectFailureKind::AdapterOff {
        return ConnectNext::FailAdapterOff;
    }
    if attempt >= attempts {
        return ConnectNext::GiveUp;
    }
    ConnectNext::Retry {
        pause_ms: pause_after_failure(kind),
        refresh_discovery: kind == ConnectFailureKind::Pruned || kind
            == ConnectFailureKind::HostAbort,
    }
}

/// How a call to connect ended.
#[derive(Debug)]
pub enum ConnectCall {
    Connected,
    Failed(BusError),
    TimedOut,
}

/// What a call to connect came to.
#[derive(Debug)]
pub enum ConnectVerdict {
    Connected,
    /// A connect is under way already: wait for it.
    Wait,
    Failed { kind: ConnectFailureKind, detail: String },
}

/// `v` is what a call to connect came to: a device that is connected already is connected.
pub open spec fn is_verdict(v: ConnectVerdict, call: ConnectCall) -> bool {
    match call {
        ConnectCall::Connected => v is Connected,
        ConnectCall::TimedOut => v matches ConnectVerdict::Failed { kind, detail } && kind
            == ConnectFailureKind::Timeout && detail@ == "timed out"@,
        ConnectCall::Failed(e) => if e.named("org.bluez.Error.AlreadyConnected"@) {
            v is Connected
        } else if e.named("org.bluez.Error.InProgress"@) {
            v is Wait
        } else {
            v matches ConnectVerdict::Failed { kind, detail } && kind == spec_classify_error(e)
                && detail@ == e.message()
        },
    }
}

/// What a call to connect came to.
pub fn connect_verdict(call: &ConnectCall) -> (r: ConnectVerdict)
    ensures
        is_verdict(r, *call),
{
    match call {
        ConnectCall::Connected => ConnectVerdict::Connected,
        ConnectCall::TimedOut => ConnectVerdict::Failed {
            kind: ConnectFailureKind::Timeout,
            detail: owned("timed out"),
        },
        ConnectCall::Failed(e) => {
            if is_error_named(e, "org.bluez.Error.AlreadyConnected") {
                ConnectVerdict::Connected
            } else if is_error_named(e, "org.bluez.Error.InProgress") {
                ConnectVerdict::Wait
            } else {
                ConnectVerdict::Failed { kind: classify_connect_error(e), detail: err_message(e) }
            }
        },
    }
}

/// What to do in a wait for something to become true, within a time limit.
#[derive(Debug, Clone, Copy, PartialEq, Eq, Structural)]
pub enum WaitStep {
    Done,
    TimedOut,
    Again,
}

/// Takes a look at what is waited for. The look counts even where the time is up.
pub fn wait_step(seen: bool, now_ms: u64, deadline_ms: u64) -> (r: WaitStep)
    ensures
        r == if seen {
            WaitStep::Done
        } else if now_ms >= deadline_ms {
            WaitStep::TimedOut
        } else {
            WaitStep::Again
        },
{
    if seen {
        WaitStep::Done
    } else if now_ms >= deadline_ms {
        WaitStep::TimedOut
    } else {
        WaitStep::Again
    }
}

/// Connecting to a device, over its attempts. Every attempt looks the device up anew: the path of
/// discovery may be gone by then.
#[derive(Debug)]
pub struct ConnectRun {
    /// The attempt that is under way, from 1.
    pub attempt: u8,
    pub attempts: u8,
    /// What the last attempt failed with.
    pub last: String,
    /// The signal when discovered.
    pub found_rssi: Option<i16>,
    pub last_rssi: Option<i16>,
    /// The device was connected when discovered.
    pub was_connected: bool,
}

/// What to do next.
#[derive(Debug)]
pub enum ConnectStep {
    /// Call connect on the device at this path.
    Connect { path: String },
    /// Pause, refresh the discovery where it is said, and begin the next attempt.
    Pause { pause_ms: u64, refresh_discovery: bool },
    Fail(PrintError),
}

/// What is suggested where no attempt succeeded.
pub open spec fn connect_hint(rssi: Option<i16>, was_connected: bool) -> Seq<char> {
    (if rssi is Some && rssi->0 < -80 {
        " It is far away (weak Bluetooth) — move it next to the computer."@
    } else {
        Seq::empty()
    }) + if was_connected {
        " Bluetooth Settings may be holding the printer; turn the printer off and on."@
    } else {
        " Close the phone app if it is open — the printer allows only one connection."@
    }
}

/// The first signal that is known.
pub open spec fn rssi_or(a: Option<i16>, b: Option<i16>) -> Option<i16> {
    if a is Some {
        a
    } else {
        b
    }
}

impl ConnectRun {
    /// `s` is the failure of all attempts.
    pub open spec fn is_gave_up(self, s: ConnectStep) -> bool {
        s matches ConnectStep::Fail(PrintError::ConnectFailed { attempts, last, hint }) && attempts
            == self.attempts && last@ == self.last@ && hint@ == connect_hint(
            self.last_rssi,
            self.was_connected,
        )
    }

    /// The first attempt; there is at least one.
    pub fn new(attempts: u8, found_rssi: Option<i16>, was_connected: bool) -> (r: ConnectRun)
        ensures
            r.attempt == 1,
            r.attempts == if attempts < 1 {
                1
            } else {
                attempts
            },
            r.last@ == Seq::<char>::empty(),
            r.found_rssi == found_rssi,
            r.last_rssi == found_rssi,
            r.was_connected == was_connected,
    {
        let last = String::new();
        assert(last@ =~= Seq::<char>::empty());
        ConnectRun {
            attempt: 1,
            attempts: if attempts < 1 {
                1
            } else {
                attempts
            },
            last,
            found_rssi,
            last_rssi: found_rssi,
            was_connected,
        }
    }

    fn give_up(&self) -> (r: ConnectStep)
        ensures
            self.is_gave_up(r),
    {
        let mut hint = String::new();
        assert(hint@ =~= Seq::<char>::empty());
        if let Some(r) = self.last_rssi {
            if r < -80 {
                hint.push_str(" It is far away (weak Bluetooth) — move it next to the computer.");
            }
        }
        if self.was_connected {
            hint.push_str(
                " Bluetooth Settings may be holding the printer; turn the printer off and on.",
            );
        } else {
            hint.push_str(
                " Close the phone app if it is open — the printer allows only one connection.",
            );
        }
        assert(hint@ =~= connect_hint(self.last_rssi, self.was_connected));
        ConnectStep::Fail(
            PrintError::ConnectFailed {
                attempts: self.attempts,
                last: owned(self.last.as_str()),
                hint,
            },
        )
    }

    /// `new` and `s` are what comes of a failure of the attempt.
    pub open spec fn is_failed(
        self,
        new: ConnectRun,
        s: ConnectStep,
        kind: ConnectFailureKind,
        detail: Seq<char>,
        rssi: Option<i16>,
    ) -> bool {
        let next = spec_next(kind, self.attempt, self.attempts);
        &&& new.last@ == kind.last_text(detail)
        &&& new == (ConnectRun {
            attempt: if next is Retry {
                (self.attempt + 1) as u8
            } else {
                self.attempt
            },
            last: new.last,
            last_rssi: rssi,
            ..self
        })
        &&& match next {
            ConnectNext::Retry { pause_ms, refresh_discovery } => s == ConnectStep::Pause {
                pause_ms,
                refresh_discovery,
            },
            ConnectNext::FailAdapterOff => s == ConnectStep::Fail(PrintError::AdapterOff),
            ConnectNext::GiveUp => new.is_gave_up(s),
        }
    }

    /// The attempt failed.
    pub fn failed(&mut self, kind: ConnectFailureKind, detail: &str) -> (r: ConnectStep)
        ensures
            old(self).is_failed(*final(self), r, kind, detail@, old(self).last_rssi),
    {
        self.last = kind.format_last(detail);
        match connect_next_action(kind, self.attempt, self.attempts) {
            ConnectNext::Retry { pause_ms, refresh_discovery } => {
                self.attempt = self.attempt + 1;
                ConnectStep::Pause { pause_ms, refresh_discovery }
            },
            ConnectNext::FailAdapterOff => ConnectStep::Fail(PrintError::AdapterOff),
            ConnectNext::GiveUp => self.give_up(),
        }
    }

    /// The device was looked up for the attempt.
    pub fn resolved(&mut self, live: Option<LiveDevice>) -> (r: ConnectStep)
        ensures
            match live {
                Some(d) => {
                    &&& r == ConnectStep::Connect { path: d.path }
                    &&& *final(self) == (ConnectRun {
                        last_rssi: rssi_or(d.rssi, old(self).found_rssi),
                        ..*old(self)
                    })
                },
                None => old(self).is_failed(
                    *final(self),
                    r,
                    ConnectFailureKind::Pruned,
                    "device object gone"@,
                    old(self).last_rssi,
                ),
            },
    {
        match live {
            Some(d) => {
                self.last_rssi = match d.rssi {
                    Some(r) => Some(r),
                    None => self.found_rssi,
                };
                ConnectStep::Connect { path: d.path }
            },
            None => self.failed(ConnectFailureKind::Pruned, "device object gone"),
        }
    }
}

/// A run makes no more attempts than it was given: a pause is only ever ordered before an attempt that
/// is still within the limit.
pub proof fn lemma_attempts_are_bounded(
    run: ConnectRun,
    new: ConnectRun,
    s: ConnectStep,
    kind: ConnectFailureKind,
    detail: Seq<char>,
    rssi: Option<i16>,
)
    requires
        1 <= run.attempt <= run.attempts,
        run.is_failed(new, s, kind, detail, rssi),
    ensures
        1 <= new.attempt <= new.attempts,
        new.attempts == run.attempts,
        s is Pause ==> new.attempt == run.attempt + 1,
        !(s is Pause) ==> s is Fail,
{
}

// ------------------------------------------------------------------ characteristics

/// Where the characteristics of a cat printer are.
#[derive(Debug)]
pub struct Chars {
    pub control: String,
    pub notify: String,
    pub data: Option<String>,
    pub has_ae03: bool,
}

/// The text names one of the services of cat printers.
pub open spec fn is_service(u: Seq<char>) -> bool {
    same_fold(SERVICE_AE30@, u) || same_fold(SERVICE_AF30@, u)
}

/// The entry is a cat printer's service of a device.
pub open spec fn is_service_of(entry: (Seq<char>, Props), device_path: Seq<char>) -> bool {
    starts_with(entry.0, device_path + "/"@) && (entry.1.text("UUID"@) matches Some(u)
        && is_service(u))
}

/// The paths of the cat printer's services of a device.
pub open spec fn service_paths(
    services: Seq<(Seq<char>, Props)>,
    device_path: Seq<char>,
) -> Seq<Seq<char>>
    decreases services.len(),
{
    if services.len() == 0 {
        Seq::empty()
    } else if is_service_of(services.last(), device_path) {
        service_paths(services.drop_last(), device_path).push(services.last().0)
    } else {
        service_paths(services.drop_last(), device_path)
    }
}

/// A path lies under one of the paths.
pub open spec fn lies_under(paths: Seq<Seq<char>>, path: Seq<char>) -> bool {
    exists|i: int| 0 <= i < paths.len() && starts_with(path, #[trigger] paths[i] + "/"@)
}

/// The last characteristic of a listing with a UUID, of those under the services.
pub open spec fn last_char(
    chars: Seq<(Seq<char>, Props)>,
    services: Seq<Seq<char>>,
    uuid: Seq<char>,
) -> Option<Seq<char>>
    decreases chars.len(),
{
    if chars.len() == 0 {
        None
    } else {
        let (path, props) = chars.last();
        if lies_under(services, path) && (props.text("UUID"@) matches Some(u)
            && lower(u) == uuid) {
            Some(path)
        } else {
            last_char(chars.drop_last(), services, uuid)
        }
    }
}

/// `r` is where the characteristics of a device are, or what it lacks.
pub open spec fn is_resolved_chars(
    r: Result<Chars, PrintError>,
    objs: Objects,
    device_path: Seq<char>,
) -> bool {
    let services = service_paths(with_iface(objs.list@, IFACE_SERVICE@), device_path);
    let chars = with_iface(objs.list@, IFACE_CHAR@);
    let control = last_char(chars, services, CONTROL_UUID@);
    let notify = last_char(chars, services, NOTIFY_UUID@);
    let data = last_char(chars, services, DATA_UUID@);
    if services.len() == 0 {
        r matches Err(PrintError::NotCatPrinter(t)) && t@ == "missing the AE30 service"@
    } else if control is None {
        r matches Err(PrintError::NotCatPrinter(t)) && t@ == "missing AE01"@
    } else if notify is None {
        r matches Err(PrintError::NotCatPrinter(t)) && t@ == "missing AE02"@
    } else {
        r matches Ok(c) && c.control@ == control->0 && c.notify@ == notify->0 && opt_string(c.data)
            == data && c.has_ae03 == (data is Some)
    }
}

fn prefix_of(path: &str) -> (r: String)
    ensures
        r@ == path@ + "/"@,
{
    let mut p = owned(path);
    p.push_str("/");
    p
}

/// The paths of the cat printer's services of a device.
fn find_services(objs: &Objects, device_path: &str) -> (r: Vec<String>)
    ensures
        views(r@) == service_paths(with_iface(objs.list@, IFACE_SERVICE@), device_path@),
{
    let list = objects_with(objs, IFACE_SERVICE);
    let ghost entries = entry_views(list@);
    let under = prefix_of(device_path);
    let mut out: Vec<String> = Vec::new();
    let mut i: usize = 0;
    assert(views(out@) =~= service_paths(entries.take(0), device_path@));
    while i < list.len()
        invariant
            i <= list.len(),
            entries == entry_views(list@),
            under@ == device_path@ + "/"@,
            views(out@) == service_paths(entries.take(i as int), device_path@),
        decreases list.len() - i,
    {
        let ghost was = out@;
        assert(entries.take(i as int + 1).drop_last() =~= entries.take(i as int));
        assert(entries.take(i as int + 1).last() == entries[i as int]);
        let path = list[i].0.as_str();
        let cs = chars_of(path);
        if has_prefix(cs.as_slice(), under.as_str()) {
            if let Some(u) = prop_str(list[i].1, "UUID") {
                if eq_fold_str(SERVICE_AE30, u.as_str()) || eq_fold_str(SERVICE_AF30, u.as_str()) {
                    out.push(owned(path));
                    assert(views(out@) =~= views(was).push(path@));
                }
            }
        }
        i += 1;
    }
    assert(entries.take(entries.len() as int) =~= entries);
    out
}

fn is_under(paths: &Vec<String>, path: &str) -> (r: bool)
    ensures
        r == lies_under(views(paths@), path@),
{
    let cs = chars_of(path);
    let mut k: usize = 0;
    while k < paths.len()
        invariant
            k <= paths.len(),
            cs@ == path@,
            forall|j: int| 0 <= j < k ==> !starts_with(path@, #[trigger] views(paths@)[j] + "/"@),
        decreases paths.len() - k,
    {
        let p = prefix_of(paths[k].as_str());
        if has_prefix(cs.as_slice(), p.as_str()) {
            assert(starts_with(path@, views(paths@)[k as int] + "/"@));
            return true;
        }
        k += 1;
    }
    false
}

/// Finds the control, notify and data characteristics under a device's cat printer services.
pub fn resolve_chars(objs: &Objects, device_path: &str) -> (r: Result<Chars, PrintError>)
    ensures
        is_resolved_chars(r, *objs, device_path@),
{
    let services = find_services(objs, device_path);
    let ghost sv = views(services@);
    assert(sv.len() == services@.len());
    if services.len() == 0 {
        return Err(PrintError::NotCatPrinter(owned("missing the AE30 service")));
    }
    let list = objects_with(objs, IFACE_CHAR);
    let ghost entries = entry_views(list@);
    let mut control: Option<String> = None;
    let mut notify: Option<String> = None;
    let mut data: Option<String> = None;
    let mut i: usize = 0;
    proof {
        reveal_strlit("0000ae01-0000-1000-8000-00805f9b34fb");
        reveal_strlit("0000ae02-0000-1000-8000-00805f9b34fb");
        reveal_strlit("0000ae03-0000-1000-8000-00805f9b34fb");
        assert(CONTROL_UUID@[7] == '1' && NOTIFY_UUID@[7] == '2' && DATA_UUID@[7] == '3');
    }
    while i < list.len()
        invariant
            i <= list.len(),
            entries == entry_views(list@),
            sv == views(services@),
            CONTROL_UUID@ != NOTIFY_UUID@,
            CONTROL_UUID@ != DATA_UUID@,
            NOTIFY_UUID@ != DATA_UUID@,
            opt_string(control) == last_char(entries.take(i as int), sv, CONTROL_UUID@),
            opt_string(notify) == last_char(entries.take(i as int), sv, NOTIFY_UUID@),
            opt_string(data) == last_char(entries.take(i as int), sv, DATA_UUID@),
        decreases list.len() - i,
    {
        let ghost e = entries[i as int];
        assert(entries.take(i as int + 1).drop_last() =~= entries.take(i as int));
        assert(entries.take(i as int + 1).last() == e);
        let path = list[i].0.as_str();
        if is_under(&services, path) {
            if let Some(u) = prop_str(list[i].1, "UUID") {
                let low = lower_chars(chars_of(u.as_str()).as_slice());
                if is_text(low.as_slice(), CONTROL_UUID) {
                    control = Some(owned(path));
                } else if is_text(low.as_slice(), NOTIFY_UUID) {
                    notify = Some(owned(path));
                } else if is_text(low.as_slice(), DATA_UUID) {
                    data = Some(owned(path));
                }
            }
        }
        i += 1;
    }
    assert(entries.take(entries.len() as int) =~= entries);
    let control = match control {
        Some(c) => c,
        None => return Err(PrintError::NotCatPrinter(owned("missing AE01"))),
    };
    let notify = match notify {
        Some(n) => n,
        None => return Err(PrintError::NotCatPrinter(owned("missing AE02"))),
    };
    let has_ae03 = data.is_some();
    Ok(Chars { control, notify, data, has_ae03 })
}

// ------------------------------------------------------------------ writing

/// The largest payload of one write.
pub open spec fn spec_max_payload(mtu: u16) -> int {
    if mtu > 4 {
        mtu - 3
    } else {
        1
    }
}

/// The largest payload of one write.
pub fn max_payload(mtu: u16) -> (r: usize)
    ensures
        r == spec_max_payload(mtu),
        1 <= r <= 65532,
{
    if mtu > 4 {
        mtu as usize - 3
    } else {
        1
    }
}

/// What to do with an error of the acquired socket.
#[derive(Debug, Clone, Copy, PartialEq, Eq, Structural)]
pub enum IoAction {
    /// Transient: write the same packet again.
    Retry,
    /// Everything else on this socket means that the link is gone.
    LinkLost,
}

/// Interrupted call.
pub const EINTR: i32 = 4;

/// Try again.
pub const EAGAIN: i32 = 11;

/// What to do with an error of the acquired socket, by its number (where it has one).
pub open spec fn spec_io(errno: Option<i32>) -> IoAction {
    if errno == Some(EINTR) || errno == Some(EAGAIN) {
        IoAction::Retry
    } else {
        IoAction::LinkLost
    }
}

/// What to do with an error of the acquired socket, by its number (where it has one).
pub fn classify_io(errno: Option<i32>) -> (r: IoAction)
    ensures
        r == spec_io(errno),
{
    match errno {
        Some(n) => if n == EINTR || n == EAGAIN {
            IoAction::Retry
        } else {
            IoAction::LinkLost
        },
        None => IoAction::LinkLost,
    }
}

/// One row at one bit per pixel: what every channel must carry.
pub const MIN_ROW_BYTES: usize = 48;

/// One row at four bits per pixel.
pub const GRAY_ROW_BYTES: usize = 192;

/// How an attempt to acquire the data channel ended.
#[derive(Debug, Clone, Copy, PartialEq, Eq, Structural)]
pub enum Acquire {
    /// A channel with this MTU.
    Channel(u16),
    /// The channel cannot be acquired.
    Refused,
    /// No answer, or the channel could not be used.
    NoChannel,
}

/// What to do next.
#[derive(Debug, Clone, Copy, PartialEq, Eq, Structural)]
pub enum AcquireStep {
    /// Write through the channel.
    Use,
    /// Pause, then try once more.
    PauseAndRetry,
    /// Write values on the characteristic instead.
    Fallback,
}

/// How often the channel is asked for.
pub const ACQUIRE_TRIES: u8 = 2;

/// The pause between the tries.
pub const ACQUIRE_PAUSE_MS: u64 = 500;

/// What to do after try number `attempt` (from 0) to acquire the data channel. A channel that cannot
/// carry a row is given back.
pub open spec fn spec_acquire(attempt: u8, outcome: Acquire, row_bytes: usize) -> AcquireStep {
    match outcome {
        Acquire::Refused => AcquireStep::Fallback,
        Acquire::Channel(mtu) => if mtu - 3 >= row_bytes || row_bytes == 0 {
            AcquireStep::Use
        } else if attempt == 0 {
            AcquireStep::PauseAndRetry
        } else {
            AcquireStep::Fallback
        },
        Acquire::NoChannel => if attempt == 0 {
            AcquireStep::PauseAndRetry
        } else {
            AcquireStep::Fallback
        },
    }
}

/// What to do after try number `attempt` (from 0) to acquire the data channel. A channel that cannot
/// carry a row is given back.
pub fn acquire_step(attempt: u8, outcome: Acquire, row_bytes: usize) -> (r: AcquireStep)
    ensures
        r == spec_acquire(attempt, outcome, row_bytes),
{
    match outcome {
        Acquire::Refused => AcquireStep::Fallback,
        Acquire::Channel(mtu) => {
            let payload: usize = if mtu > 3 {
                mtu as usize - 3
            } else {
                0
            };
            if payload >= row_bytes {
                AcquireStep::Use
            } else if attempt == 0 {
                AcquireStep::PauseAndRetry
            } else {
                AcquireStep::Fallback
            }
        },
        Acquire::NoChannel => if attempt == 0 {
            AcquireStep::PauseAndRetry
        } else {
            AcquireStep::Fallback
        },
    }
}

/// The MTU of a characteristic, which is never below 23.
pub open spec fn spec_mtu(prop: Option<u16>) -> u16 {
    match prop {
        Some(m) => if m < 23 {
            23
        } else {
            m
        },
        None => 23,
    }
}

/// The MTU of a characteristic.
pub fn mtu_of(prop: Option<u16>) -> (r: u16)
    ensures
        r == spec_mtu(prop),
{
    match prop {
        Some(m) => if m < 23 {
            23
        } else {
            m
        },
        None => 23,
    }
}

/// The MTU for writing values on a characteristic, where no channel could be acquired.
pub fn fallback_mtu(prop: Option<u16>, row_bytes: usize) -> (r: Result<u16, PrintError>)
    ensures
        if spec_mtu(prop) - 3 < row_bytes {
            r == Err::<u16, PrintError>(PrintError::MtuTooSmall { mtu: spec_mtu(prop) })
        } else {
            r == Ok::<u16, PrintError>(spec_mtu(prop))
        },
{
    let mtu: u16 = mtu_of(prop);
    if (mtu as usize - 3) < row_bytes {
        return Err(PrintError::MtuTooSmall { mtu });
    }
    Ok(mtu)
}

fn has_flag(flags: &Vec<String>, name: &str) -> (r: bool)
    ensures
        r == views(flags@).contains(name@),
{
    let mut i: usize = 0;
    while i < flags.len()
        invariant
            i <= flags.len(),
            forall|k: int| 0 <= k < i ==> #[trigger] views(flags@)[k] != name@,
        decreases flags.len() - i,
    {
        if same_str(flags[i].as_str(), name) {
            assert(views(flags@)[i as int] == name@);
            return true;
        }
        i += 1;
    }
    false
}

/// How control frames are written on a characteristic of the classic family: acknowledged, where it
/// offers `write` and no write without a response.
pub fn write_type(flags: &Vec<String>) -> (r: &'static str)
    ensures
        r == if views(flags@).contains("write"@) && !views(flags@).contains(
            "write-without-response"@,
        ) {
            "request"
        } else {
            "command"
        },
{
    if has_flag(flags, "write") && !has_flag(flags, "write-without-response") {
        "request"
    } else {
        "command"
    }
}

/// The characteristic that takes bulk data: AE03 where there is one, else AE01.
pub fn data_char(chars: &Chars) -> (r: &String)
    ensures
        *r == if chars.has_ae03 && chars.data is Some {
            chars.data->0
        } else {
            chars.control
        },
{
    if chars.has_ae03 {
        match &chars.data {
            Some(d) => d,
            None => &chars.control,
        }
    } else {
        &chars.control
    }
}

/// The name of a device: that of discovery, or that of its object.
pub open spec fn name_of(found: Option<Seq<char>>, objs: Objects, path: Seq<char>) -> Option<
    Seq<char>,
> {
    if found is Some {
        found
    } else {
        match objs.props(path, IFACE_DEVICE@) {
            Some(p) => p.text("Name"@),
            None => None,
        }
    }
}

/// Which driver a connected device gets, by its name and its characteristics, or as it is forced.
pub fn driver_for(
    found: Option<&str>,
    objs: &Objects,
    path: &str,
    has_ae03: bool,
    forced: Option<Family>,
) -> (r: Detected)
    requires
        objs.wf(),
    ensures
        ({
            let name = name_of(opt_text(found), *objs, path@);
            &&& r.family == detected_family(name, has_ae03, forced)
            &&& r.caps == detected_caps(name, has_ae03, forced)
            &&& r.label@ == detected_label(name, has_ae03, forced)
        }),
{
    match found {
        Some(n) => detect(Some(n), has_ae03, forced),
        None => match iface_props(objs, path, IFACE_DEVICE) {
            Some(p) => match prop_str(p, "Name") {
                Some(n) => detect(Some(n.as_str()), has_ae03, forced),
                None => detect(None, has_ae03, forced),
            },
            None => detect(None, has_ae03, forced),
        },
    }
}

/// The capabilities of a connected printer: gray is given up where the MTU cannot carry its rows.
pub fn session_caps(caps: Caps, mtu: u16) -> (r: Caps)
    ensures
        r == (Caps {
            grayscale_4bpp: caps.grayscale_4bpp && spec_max_payload(mtu) >= GRAY_ROW_BYTES,
            ..caps
        }),
{
    let mut c = caps;
    if c.grayscale_4bpp && max_payload(mtu) < GRAY_ROW_BYTES {
        c.grayscale_4bpp = false;
    }
    c
}

/// Bytes of a row as it is sent.
pub fn row_bytes(family: Family, caps: Caps) -> (r: usize)
    ensures
        r == if family == Family::Mxw01 && caps.grayscale_4bpp {
            GRAY_ROW_BYTES
        } else {
            MIN_ROW_BYTES
        },
{
    if family == Family::Mxw01 && caps.grayscale_4bpp {
        GRAY_ROW_BYTES
    } else {
        MIN_ROW_BYTES
    }
}

/// The payload of a notification that answers a command.
pub fn reply_payload(raw: &[u8], expect: u8) -> (r: Option<Vec<u8>>)
    ensures
        match r {
            Some(p) => spec_notification(raw@) == Some((expect, p@)),
            None => !(spec_notification(raw@) matches Some((c, _)) && c == expect),
        },
{
    match parse_notification(raw) {
        Some(f) => if f.cmd == expect {
            Some(f.payload)
        } else {
            None
        },
        None => None,
    }
}

/// What is missing where a command is not answered.
pub fn no_answer(expect: u8) -> (r: PrintError)
    ensures
        r == PrintError::NoAnswer(
            if expect == 0xA1 {
                "status"
            } else if expect == 0xA9 {
                "print request"
            } else if expect == 0xAA {
                "print complete"
            } else {
                "printer reply"
            },
        ),
{
    if expect == 0xA1 {
        PrintError::NoAnswer("status")
    } else if expect == 0xA9 {
        PrintError::NoAnswer("print request")
    } else if expect == 0xAA {
        PrintError::NoAnswer("print complete")
    } else {
        PrintError::NoAnswer("printer reply")
    }
}

// ------------------------------------------------------------------ bulk data

/// The pieces of bulk data, each of `chunk` bytes but the last.
pub open spec fn pieces(data: Seq<u8>, chunk: nat) -> Seq<Seq<u8>>
    decreases data.len(),
{
    if data.len() == 0 || chunk == 0 {
        Seq::empty()
    } else if data.len() <= chunk {
        seq![data]
    } else {
        seq![data.take(chunk as int)] + pieces(data.skip(chunk as int), chunk)
    }
}

/// The pieces put together.
pub open spec fn joined_pieces(p: Seq<Seq<u8>>) -> Seq<u8>
    decreases p.len(),
{
    if p.len() == 0 {
        Seq::empty()
    } else {
        p[0] + joined_pieces(p.skip(1))
    }
}

/// Bulk data on its way out in whole-row pieces. What has reached the printer is counted, so that on an
/// error it is known whether the head already has data (and the job must not be sent again blindly).
#[derive(Debug)]
pub struct Bulk {
    pub chunk: usize,
    pub sent: usize,
}

impl Bulk {
    /// Data of rows of `row_bytes` bytes on a link of an MTU.
    pub fn new(mtu: u16, slow: bool, row_bytes: usize) -> (r: Bulk)
        requires
            row_bytes > 0,
        ensures
            r.sent == 0,
            r.chunk >= row_bytes,
            r.chunk % row_bytes == 0,
            slow || spec_max_payload(mtu) < row_bytes ==> r.chunk == row_bytes,
            !slow && spec_max_payload(mtu) >= row_bytes ==> r.chunk <= spec_max_payload(mtu)
                && r.chunk + row_bytes > spec_max_payload(mtu),
    {
        Bulk { chunk: data_chunk_size(max_payload(mtu), slow, row_bytes), sent: 0 }
    }

    /// The next piece; `None` where all was sent.
    pub fn next<'a>(&self, data: &'a [u8]) -> (r: Option<&'a [u8]>)
        requires
            self.chunk > 0,
            self.sent <= data@.len(),
        ensures
            match r {
                Some(p) => {
                    let left = data@.skip(self.sent as int);
                    &&& left.len() > 0
                    &&& p@ == pieces(left, self.chunk as nat)[0]
                    &&& p@.len() > 0
                    &&& p@ == left.take(p@.len() as int)
                },
                None => self.sent == data@.len(),
            },
    {
        if self.sent == data.len() {
            return None;
        }
        let left: usize = data.len() - self.sent;
        let n: usize = if left <= self.chunk {
            left
        } else {
            self.chunk
        };
        let p = slice_subrange(data, self.sent, self.sent + n);
        assert(p@ =~= data@.skip(self.sent as int).take(n as int));
        assert(left <= self.chunk ==> data@.skip(self.sent as int).take(n as int) =~= data@.skip(
            self.sent as int,
        ));
        Some(p)
    }

    /// A piece reached the printer.
    pub fn wrote(&mut self, n: usize)
        requires
            old(self).sent + n <= usize::MAX,
        ensures
            final(self).sent == old(self).sent + n,
            final(self).chunk == old(self).chunk,
    {
        self.sent = self.sent + n;
    }
}

/// The pieces are the data, none is empty, none is longer than a chunk, and all but the last are whole
/// chunks.
pub proof fn lemma_pieces(data: Seq<u8>, chunk: nat)
    requires
        chunk > 0,
    ensures
        joined_pieces(pieces(data, chunk)) == data,
        forall|i: int|
            0 <= i < pieces(data, chunk).len() ==> 0 < (#[trigger] pieces(data, chunk)[i]).len()
                <= chunk,
        forall|i: int|
            0 <= i < pieces(data, chunk).len() - 1 ==> (#[trigger] pieces(data, chunk)[i]).len()
                == chunk,
    decreases data.len(),
{
    let p = pieces(data, chunk);
    if data.len() == 0 {
        assert(joined_pieces(p) =~= data);
    } else if data.len() <= chunk {
        assert(p.skip(1) =~= Seq::<Seq<u8>>::empty());
        assert(joined_pieces(p.skip(1)) =~= Seq::<u8>::empty());
        assert(joined_pieces(p) =~= data);
    } else {
        let rest = data.skip(chunk as int);
        lemma_pieces(rest, chunk);
        let q = pieces(rest, chunk);
        assert(p.skip(1) =~= q);
        assert(joined_pieces(p) =~= data);
        assert forall|i: int| 0 <= i < p.len() implies 0 < (#[trigger] p[i]).len() <= chunk by {
            if i > 0 {
                assert(p[i] == q[i - 1]);
            }
        }
        assert forall|i: int| 0 <= i < p.len() - 1 implies (#[trigger] p[i]).len() == chunk by {
            if i > 0 {
                assert(p[i] == q[i - 1]);
            }
        }
    }
}

} // verus!
