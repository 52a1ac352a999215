//! The thing that the job engine prints to: a real Bluetooth cat printer or the fake (files)
//! printer.

use vstd::prelude::*;

use crate::ble::BlePrinter;
use crate::models::Family;
use crate::printer::fake::FakePrinter;
use crate::render::{GrayStrip, RenderError, RenderOptions};
use crate::text::{dec, is_text, chars_of, owned, push_dec};

pub mod fake;
pub mod fake_laws;

verus! {

/// A job after stage-one rendering: still gray, packed per model at print time.
#[derive(Debug)]
pub struct PreparedJob {
    pub id: u32,
    pub name: String,
    pub strip: GrayStrip,
    pub opts: RenderOptions,
    pub copies: u32,
}

/// The printer that jobs go to.
#[derive(Debug)]
pub enum Printer {
    Ble(BlePrinter),
    Fake(FakePrinter),
}

impl Printer {
    /// Whether this is the fake printer.
    pub fn is_fake(&self) -> (r: bool)
        ensures
            r == (*self is Fake),
    {
        match self {
            Printer::Ble(_) => false,
            Printer::Fake(_) => true,
        }
    }
}

/// What a printer is doing.
#[derive(Debug, Clone, Copy, PartialEq, Eq, Structural)]
pub enum Phase {
    Searching,
    Connecting,
    Preparing,
    Printing,
    Finishing,
}

/// How far a job has come.
#[derive(Debug, Clone)]
pub struct Progress {
    pub phase: Phase,
    /// 0..=100 within the current job (all copies).
    pub percent: u8,
    pub message: String,
}

/// What came of a print.
#[derive(Debug, Clone)]
pub struct PrintReport {
    pub model: String,
    pub family: Option<Family>,
    pub lines: u32,
    pub segments: u32,
    pub copies: u32,
    /// The printer confirmed completion.
    pub complete_confirmed: bool,
    pub mtu: Option<u16>,
    pub battery: Option<u8>,
    pub elapsed_ms: u64,
}

/// Printer condition reported by a status query (both families map onto this).
#[derive(Debug, Clone, PartialEq, Eq)]
pub struct Condition {
    pub ok: bool,
    pub state: String,
    pub battery: Option<u8>,
    pub temperature: Option<u8>,
    /// no-paper, overheated, low-battery or other
    pub error: Option<String>,
    pub message: String,
}

impl Condition {
    /// The condition's error key is `key`.
    pub open spec fn error_is(self, key: Seq<char>) -> bool {
        self.error is Some && (self.error->0)@ == key
    }

    /// Whether the condition's error key is `key`.
    pub fn has_error(&self, key: &str) -> (r: bool)
        ensures
            r == self.error_is(key@),
    {
        match &self.error {
            Some(e) => {
                let cs = chars_of(e.as_str());
                is_text(cs.as_slice(), key)
            },
            None => false,
        }
    }
}

/// Why a print did not succeed.
#[derive(Debug)]
pub enum PrintError {
    NoBluetoothd,
    AdapterOff,
    NotFound,
    NeedExperimental,
    ConnectFailed { attempts: u8, last: String, hint: String },
    MtuTooSmall { mtu: u16 },
    NotCatPrinter(String),
    Condition(Condition),
    Rejected(String),
    NoAnswer(&'static str),
    LinkLost,
    Timeout(&'static str),
    Cancelled,
    Bus(String),
    Render(RenderError),
    /// An I/O error, by its text.
    Io(String),
}

/// What an adult is asked to do where an LE connection cannot be forced.
pub const NEED_EXPERIMENTAL_TEXT: &'static str =
    "Bluetooth on this computer cannot force an LE connect (BlueZ Experimental is off). An adult needs to run: sudo ./install.sh update";

impl PrintError {
    /// Worth retrying inside the printer-wait window.
    pub open spec fn spec_retryable(self) -> bool {
        match self {
            PrintError::NoBluetoothd => true,
            PrintError::AdapterOff => true,
            PrintError::NotFound => true,
            PrintError::NeedExperimental => false,
            PrintError::ConnectFailed { .. } => true,
            PrintError::MtuTooSmall { .. } => true,
            PrintError::NotCatPrinter(_) => false,
            PrintError::Condition(c) => !c.error_is("other"@),
            PrintError::Rejected(_) => false,
            PrintError::NoAnswer(_) => true,
            PrintError::LinkLost => true,
            PrintError::Timeout(_) => true,
            PrintError::Cancelled => false,
            PrintError::Bus(_) => true,
            PrintError::Render(_) => false,
            PrintError::Io(_) => false,
        }
    }

    /// Whether it is worth retrying inside the printer-wait window.
    pub fn retryable(&self) -> (r: bool)
        ensures
            r == self.spec_retryable(),
    {
        match self {
            PrintError::NoBluetoothd => true,
            PrintError::AdapterOff => true,
            PrintError::NotFound => true,
            PrintError::NeedExperimental => false,
            PrintError::ConnectFailed { .. } => true,
            PrintError::MtuTooSmall { .. } => true,
            PrintError::NotCatPrinter(_) => false,
            PrintError::Condition(c) => !c.has_error("other"),
            PrintError::Rejected(_) => false,
            PrintError::NoAnswer(_) => true,
            PrintError::LinkLost => true,
            PrintError::Timeout(_) => true,
            PrintError::Cancelled => false,
            PrintError::Bus(_) => true,
            PrintError::Render(_) => false,
            PrintError::Io(_) => false,
        }
    }

    /// The error's text.
    pub open spec fn text(self) -> Seq<char> {
        match self {
            PrintError::NoBluetoothd =>
                "Bluetooth is not available on this computer (bluetoothd is not running)"@,
            PrintError::AdapterOff => "Bluetooth is turned off on this computer"@,
            PrintError::NotFound =>
                "Cat printer not found — turn it on and keep it near the computer"@,
            PrintError::NeedExperimental => NEED_EXPERIMENTAL_TEXT@,
            PrintError::ConnectFailed { last, hint, .. } => "Could not connect to the cat printer ("@
                + last@ + ")."@ + hint@,
            PrintError::MtuTooSmall { mtu } => "Bluetooth link too small for image data (MTU "@ + dec(
                mtu as nat,
            ) + "); move the printer closer and try again"@,
            PrintError::NotCatPrinter(s) => "Connected, but this is not a cat printer we know: "@ + s@,
            PrintError::Condition(c) => c.message@,
            PrintError::Rejected(s) => "Printer rejected the print job ("@ + s@ + ")"@,
            PrintError::NoAnswer(s) => "Printer did not answer ("@ + s@ + ")"@,
            PrintError::LinkLost => "Bluetooth link to the printer was lost"@,
            PrintError::Timeout(s) => "Timed out while "@ + s@,
            PrintError::Cancelled => "cancelled"@,
            PrintError::Bus(s) => "Bluetooth error: "@ + s@,
            PrintError::Render(e) => "render error: "@ + e@.text(),
            PrintError::Io(s) => "I/O error: "@ + s@,
        }
    }

    /// One line for the person at the queue.
    pub fn kid_message(&self) -> (r: String)
        ensures
            r@ == self.text(),
    {
        match self {
            PrintError::NoBluetoothd => owned(
                "Bluetooth is not available on this computer (bluetoothd is not running)",
            ),
            PrintError::AdapterOff => owned("Bluetooth is turned off on this computer"),
            PrintError::NotFound => owned(
                "Cat printer not found — turn it on and keep it near the computer",
            ),
            PrintError::NeedExperimental => owned(NEED_EXPERIMENTAL_TEXT),
            PrintError::ConnectFailed { last, hint, .. } => {
                let mut r = owned("Could not connect to the cat printer (");
                r.push_str(last.as_str());
                r.push_str(").");
                r.push_str(hint.as_str());
                r
            },
            PrintError::MtuTooSmall { mtu } => {
                let mut r = owned("Bluetooth link too small for image data (MTU ");
                push_dec(&mut r, *mtu as u64);
                r.push_str("); move the printer closer and try again");
                r
            },
            PrintError::NotCatPrinter(s) => prefixed(
                "Connected, but this is not a cat printer we know: ",
                s.as_str(),
            ),
            PrintError::Condition(c) => owned(c.message.as_str()),
            PrintError::Rejected(s) => {
                let mut r = prefixed("Printer rejected the print job (", s.as_str());
                r.push_str(")");
                r
            },
            PrintError::NoAnswer(s) => {
                let mut r = prefixed("Printer did not answer (", s);
                r.push_str(")");
                r
            },
            PrintError::LinkLost => owned("Bluetooth link to the printer was lost"),
            PrintError::Timeout(s) => prefixed("Timed out while ", s),
            PrintError::Cancelled => owned("cancelled"),
            PrintError::Bus(s) => prefixed("Bluetooth error: ", s.as_str()),
            PrintError::Render(e) => prefixed("render error: ", e.message().as_str()),
            PrintError::Io(s) => prefixed("I/O error: ", s.as_str()),
        }
    }

    /// The IPP printer-state-reasons keywords of this error.
    pub open spec fn reasons(self) -> Seq<&'static str> {
        match self {
            PrintError::NotFound => seq!["connecting-to-device"],
            PrintError::ConnectFailed { .. } => seq!["connecting-to-device"],
            PrintError::NoBluetoothd => seq!["connecting-to-device", "other-error"],
            PrintError::AdapterOff => seq!["connecting-to-device", "other-error"],
            PrintError::Condition(c) => if c.error_is("no-paper"@) {
                seq!["media-empty-error", "media-needed"]
            } else if c.error_is("overheated"@) {
                seq!["fuser-over-temp-warning"]
            } else if c.error_is("low-battery"@) {
                seq!["other-warning"]
            } else {
                seq!["other-error"]
            },
            PrintError::Render(_) => seq![],
            PrintError::Cancelled => seq![],
            _ => seq!["other-error"],
        }
    }

    /// The IPP printer-state-reasons keywords while this error is being retried or after giving up.
    pub fn printer_reasons(&self) -> (r: Vec<&'static str>)
        ensures
            r@ == self.reasons(),
    {
        let mut r: Vec<&'static str> = Vec::new();
        match self {
            PrintError::NotFound => {
                r.push("connecting-to-device");
            },
            PrintError::ConnectFailed { .. } => {
                r.push("connecting-to-device");
            },
            PrintError::NoBluetoothd => {
                r.push("connecting-to-device");
                r.push("other-error");
            },
            PrintError::AdapterOff => {
                r.push("connecting-to-device");
                r.push("other-error");
            },
            PrintError::Condition(c) => {
                if c.has_error("no-paper") {
                    r.push("media-empty-error");
                    r.push("media-needed");
                } else if c.has_error("overheated") {
                    r.push("fuser-over-temp-warning");
                } else if c.has_error("low-battery") {
                    r.push("other-warning");
                } else {
                    r.push("other-error");
                }
            },
            PrintError::Render(_) => {},
            PrintError::Cancelled => {},
            _ => {
                r.push("other-error");
            },
        }
        assert(r@ =~= self.reasons());
        r
    }
}

/// `a` followed by `b`.
pub(crate) fn prefixed(a: &str, b: &str) -> (r: String)
    ensures
        r@ == a@ + b@,
{
    let mut r = owned(a);
    r.push_str(b);
    r
}

/// A printer's own trouble is never reported with a reason that says the job was cancelled or
/// that the device is paused or stopped.
pub proof fn lemma_reasons_keep_queue_running(e: PrintError, i: int)
    requires
        0 <= i < e.reasons().len(),
    ensures
        e.reasons()[i]@ != "paused"@,
        e.reasons()[i]@ != "stopped"@,
        e.reasons()[i]@ != "moving-to-paused"@,
{
    reveal_strlit("paused");
    reveal_strlit("stopped");
    reveal_strlit("moving-to-paused");
    reveal_strlit("connecting-to-device");
    reveal_strlit("other-error");
    reveal_strlit("media-empty-error");
    reveal_strlit("media-needed");
    reveal_strlit("fuser-over-temp-warning");
    reveal_strlit("other-warning");
    assert(e.reasons()[i]@.len() >= 11 && e.reasons()[i]@.len() != 16);
}

} // verus!
