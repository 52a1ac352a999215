//! MXW01 wire protocol: frames, commands, status, image packing.
//!
//! Frames start with `22 21`, image bytes go to characteristic AE03, and the CRC-8 covers the
//! payload only.

use vstd::prelude::*;

use crate::protocol::{frame, pack_bits, spec_frame, spec_pack_bits, spec_unframe, unframe, PrintMode};
use crate::text::{dec, hex2, owned, push_dec, push_hex2};

verus! {

// ------------------------------------------------------------------ geometry

/// Dots across the print head.
pub const WIDTH: usize = 384;

/// Bytes per row at 1 bit per pixel.
pub const ROW_BYTES_1BPP: usize = 48;

/// Bytes per row at 4 bits per pixel.
pub const ROW_BYTES_4BPP: usize = 192;

/// The printer wants at least this many rows per print request; shorter buffers are zero-padded.
pub const MIN_LINES: usize = 90;

/// Minimum AE03 payload at 1 bit per pixel (90 rows).
pub const MIN_DATA_BYTES: usize = 4320;

/// Minimum AE03 payload at 4 bits per pixel (90 rows).
pub const MIN_DATA_BYTES_4BPP: usize = 17280;

// ------------------------------------------------------------------ framing

/// First byte of every frame.
pub const PREAMBLE_0: u8 = 0x22;

/// Second byte of every frame.
pub const PREAMBLE_1: u8 = 0x21;

/// Every frame ends with this byte.
pub const FOOTER: u8 = 0xFF;

/// A2 intensity that prints well on plain paper.
pub const DEFAULT_INTENSITY: u8 = 0x5D;

// ------------------------------------------------------------------ timing

/// Seconds to scan for the printer before giving up.
pub const SCAN_TIMEOUT_S: u64 = 8;

/// Milliseconds between bulk AE03 writes.
pub const PACING_MS: u64 = 8;

/// Seconds to wait for a reply notification to a control command.
pub const NOTIFICATION_TIMEOUT_S: u64 = 7;

/// Base seconds to wait for the AA print-complete notification,
pub const PRINT_COMPLETE_BASE_TIMEOUT_S: u64 = 15;

/// plus one second per this many lines.
pub const PRINT_COMPLETE_LINES_PER_SEC: u64 = 15;

/// Public ceiling for a Connect / InProgress wait. Not used for a live advert: that path uses
/// [`LIVE_CONNECT_TIMEOUT_S`], so that a powered-on printer cannot sit in a 12 s page.
pub const CONNECT_TIMEOUT_S: u64 = 12;

/// Per-attempt connect when the device is advertising or already held.
pub const LIVE_CONNECT_TIMEOUT_S: u64 = 8;

/// Connect attempts before giving up.
pub const CONNECT_ATTEMPTS: u8 = 3;

/// How long to wait for the print-complete (AA) notification for a job of `lines` rows, in
/// nanoseconds: 15 s plus a fifteenth of a second per line, to the nearest nanosecond.
pub open spec fn spec_complete_ns(lines: u32) -> int {
    15_000_000_000 + (2_000_000_000 * lines + 15) / 30
}

/// How long to wait for the print-complete (AA) notification for a job of `lines` rows, in
/// nanoseconds: 15 s plus a fifteenth of a second per line, to the nearest nanosecond.
pub fn print_complete_timeout(lines: u32) -> (ns: u64)
    ensures
        ns == spec_complete_ns(lines),
{
    15_000_000_000 + (2_000_000_000 * (lines as u64) + 15) / 30
}

// ------------------------------------------------------------------ commands

/// Command identifiers (byte 2 of a frame).
#[derive(Debug, Clone, Copy, PartialEq, Eq, Hash, Structural)]
pub enum Cmd {
    /// A1: request / receive status (paper, temperature, battery, state).
    GetStatus,
    /// A2: set print intensity (one byte).
    Intensity,
    /// A3: eject (feed) paper.
    Eject,
    /// A4: retract paper.
    Retract,
    /// A7: query count.
    QueryCount,
    /// A9: print request.
    Print,
    /// AA: print complete (received).
    PrintComplete,
    /// AB: battery level.
    Battery,
    /// AC: cancel print.
    CancelPrint,
    /// AD: print data flush (end of AE03 transfer).
    Flush,
    /// B0: get print type.
    GetPrintType,
    /// B1: get firmware version.
    GetVersion,
}

impl Cmd {
    /// The command's byte on the wire.
    pub open spec fn code(self) -> u8 {
        match self {
            Cmd::GetStatus => 0xA1,
            Cmd::Intensity => 0xA2,
            Cmd::Eject => 0xA3,
            Cmd::Retract => 0xA4,
            Cmd::QueryCount => 0xA7,
            Cmd::Print => 0xA9,
            Cmd::PrintComplete => 0xAA,
            Cmd::Battery => 0xAB,
            Cmd::CancelPrint => 0xAC,
            Cmd::Flush => 0xAD,
            Cmd::GetPrintType => 0xB0,
            Cmd::GetVersion => 0xB1,
        }
    }

    /// The command's byte on the wire.
    pub fn as_u8(self) -> (r: u8)
        ensures
            r == self.code(),
    {
        match self {
            Cmd::GetStatus => 0xA1,
            Cmd::Intensity => 0xA2,
            Cmd::Eject => 0xA3,
            Cmd::Retract => 0xA4,
            Cmd::QueryCount => 0xA7,
            Cmd::Print => 0xA9,
            Cmd::PrintComplete => 0xAA,
            Cmd::Battery => 0xAB,
            Cmd::CancelPrint => 0xAC,
            Cmd::Flush => 0xAD,
            Cmd::GetPrintType => 0xB0,
            Cmd::GetVersion => 0xB1,
        }
    }

    /// The command of a raw byte, where there is one.
    pub fn from_u8(b: u8) -> (r: Option<Cmd>)
        ensures
            r is Some ==> (r->0).code() == b,
            r is None ==> forall|c: Cmd| c.code() != b,
    {
        let c = match b {
            0xA1 => Cmd::GetStatus,
            0xA2 => Cmd::Intensity,
            0xA3 => Cmd::Eject,
            0xA4 => Cmd::Retract,
            0xA7 => Cmd::QueryCount,
            0xA9 => Cmd::Print,
            0xAA => Cmd::PrintComplete,
            0xAB => Cmd::Battery,
            0xAC => Cmd::CancelPrint,
            0xAD => Cmd::Flush,
            0xB0 => Cmd::GetPrintType,
            0xB1 => Cmd::GetVersion,
            _ => return None,
        };
        Some(c)
    }
}

/// No two commands share a byte, so `from_u8` finds the one command of a byte.
pub proof fn lemma_cmd_code_injective(a: Cmd, b: Cmd)
    requires
        a.code() == b.code(),
    ensures
        a == b,
{
}

/// Errors from frame building / packing.
#[derive(Debug, Clone, PartialEq, Eq, Structural)]
pub enum ProtocolError {
    /// Payload longer than the u16 length field allows.
    PayloadTooLarge(usize),
    /// A row / buffer does not have the printer's width.
    BadWidth { expected: usize, got: usize },
    /// Buffer length is not a whole number of rows.
    NotWholeRows { len: usize, row_bytes: usize },
    /// Nothing to pack.
    Empty,
}

impl ProtocolError {
    /// The error's text.
    pub open spec fn text(self) -> Seq<char> {
        match self {
            ProtocolError::PayloadTooLarge(n) => "payload too large: "@ + dec(n as nat) + " bytes"@,
            ProtocolError::BadWidth { expected, got } => "row length must be "@ + dec(
                expected as nat,
            ) + ", got "@ + dec(got as nat),
            ProtocolError::NotWholeRows { len, row_bytes } => "image buffer length "@ + dec(
                len as nat,
            ) + " is not a multiple of "@ + dec(row_bytes as nat),
            ProtocolError::Empty => "image has no rows"@,
        }
    }

    /// The error's text.
    pub fn message(&self) -> (r: String)
        ensures
            r@ == self.text(),
    {
        match self {
            ProtocolError::PayloadTooLarge(n) => {
                let mut r = owned("payload too large: ");
                push_dec(&mut r, *n as u64);
                r.push_str(" bytes");
                r
            },
            ProtocolError::BadWidth { expected, got } => {
                let mut r = owned("row length must be ");
                push_dec(&mut r, *expected as u64);
                r.push_str(", got ");
                push_dec(&mut r, *got as u64);
                r
            },
            ProtocolError::NotWholeRows { len, row_bytes } => {
                let mut r = owned("image buffer length ");
                push_dec(&mut r, *len as u64);
                r.push_str(" is not a multiple of ");
                push_dec(&mut r, *row_bytes as u64);
                r
            },
            ProtocolError::Empty => owned("image has no rows"),
        }
    }
}

/// The control packet `22 21 cmd 00 len_le(2) payload crc8(payload) FF`.
pub open spec fn spec_command(cmd: u8, payload: Seq<u8>) -> Seq<u8> {
    spec_frame(PREAMBLE_0, PREAMBLE_1, cmd, payload)
}

/// Builds a complete AE01 control packet.
pub fn make_command(cmd: u8, payload: &[u8]) -> (r: Result<Vec<u8>, ProtocolError>)
    ensures
        match r {
            Ok(out) => payload@.len() <= 0xFFFF && out@ == spec_command(cmd, payload@),
            Err(e) => payload@.len() > 0xFFFF && e == ProtocolError::PayloadTooLarge(payload.len()),
        },
{
    if payload.len() > 0xFFFF {
        return Err(ProtocolError::PayloadTooLarge(payload.len()));
    }
    Ok(frame(PREAMBLE_0, PREAMBLE_1, cmd, payload))
}

/// A parsed frame (notification or command).
#[derive(Debug, Clone, PartialEq, Eq)]
pub struct Frame {
    /// Command byte.
    pub cmd: u8,
    /// Payload bytes (without CRC and footer).
    pub payload: Vec<u8>,
}

/// The command and payload of an MXW01 frame.
pub open spec fn spec_notification(data: Seq<u8>) -> Option<(u8, Seq<u8>)> {
    spec_unframe(PREAMBLE_0, PREAMBLE_1, data)
}

/// Parses an MXW01 frame; `None` if the preamble is wrong or the payload is truncated. Bytes
/// beyond the declared payload (CRC, footer) are ignored.
pub fn parse_notification(data: &[u8]) -> (r: Option<Frame>)
    ensures
        match r {
            Some(f) => spec_notification(data@) == Some((f.cmd, f.payload@)),
            None => spec_notification(data@) is None,
        },
{
    match unframe(PREAMBLE_0, PREAMBLE_1, data) {
        Some((cmd, payload)) => Some(Frame { cmd, payload }),
        None => None,
    }
}

/// Whatever is built by `make_command` is parsed back by `parse_notification`.
pub proof fn lemma_command_round_trip(cmd: u8, payload: Seq<u8>)
    requires
        payload.len() <= 0xFFFF,
    ensures
        spec_notification(spec_command(cmd, payload)) == Some((cmd, payload)),
{
    crate::protocol::lemma_unframe_frame(PREAMBLE_0, PREAMBLE_1, cmd, payload, Seq::empty());
    assert(spec_command(cmd, payload) + Seq::<u8>::empty() == spec_command(cmd, payload));
}

fn small_command(c: Cmd, payload: &[u8]) -> (r: Vec<u8>)
    requires
        payload@.len() <= 0xFFFF,
    ensures
        r@ == spec_command(c.code(), payload@),
{
    frame(PREAMBLE_0, PREAMBLE_1, c.as_u8(), payload)
}

fn one(b: u8) -> (r: Vec<u8>)
    ensures
        r@ == seq![b],
{
    let mut v: Vec<u8> = Vec::new();
    v.push(b);
    v
}

/// `n` as two bytes, little endian.
pub open spec fn le16(n: u16) -> Seq<u8> {
    seq![(n % 256) as u8, (n / 256) as u8]
}

fn two_le(n: u16) -> (r: Vec<u8>)
    ensures
        r@ == le16(n),
{
    let mut v: Vec<u8> = Vec::new();
    v.push((n % 256) as u8);
    v.push((n / 256) as u8);
    v
}

/// A1 status request.
pub fn cmd_get_status() -> (r: Vec<u8>)
    ensures
        r@ == spec_command(0xA1, seq![0u8]),
{
    small_command(Cmd::GetStatus, one(0x00).as_slice())
}

/// A2 set intensity.
pub fn cmd_set_intensity(intensity: u8) -> (r: Vec<u8>)
    ensures
        r@ == spec_command(0xA2, seq![intensity]),
{
    small_command(Cmd::Intensity, one(intensity).as_slice())
}

/// Wire byte for a print mode (A9 payload byte 3).
pub open spec fn spec_mode_byte(mode: PrintMode) -> u8 {
    match mode {
        PrintMode::Mono => 0x00,
        PrintMode::Gray4 => 0x02,
    }
}

/// Wire byte for a print mode (A9 payload byte 3).
pub fn mode_byte(mode: PrintMode) -> (r: u8)
    ensures
        r == spec_mode_byte(mode),
{
    match mode {
        PrintMode::Mono => 0x00,
        PrintMode::Gray4 => 0x02,
    }
}

/// A9 print request: `lines` (pixel rows, little endian), 0x30, mode.
pub fn cmd_print_request(lines: u16, mode: PrintMode) -> (r: Vec<u8>)
    ensures
        r@ == spec_command(0xA9, le16(lines) + seq![0x30u8, spec_mode_byte(mode)]),
{
    let mut payload = two_le(lines);
    payload.push(0x30);
    payload.push(mode_byte(mode));
    assert(payload@ == le16(lines) + seq![0x30u8, spec_mode_byte(mode)]);
    small_command(Cmd::Print, payload.as_slice())
}

/// AD flush: end of the AE03 transfer.
pub fn cmd_flush() -> (r: Vec<u8>)
    ensures
        r@ == spec_command(0xAD, seq![0u8]),
{
    small_command(Cmd::Flush, one(0x00).as_slice())
}

/// A3 eject (feed) `lines` rows of paper.
pub fn cmd_eject(lines: u16) -> (r: Vec<u8>)
    ensures
        r@ == spec_command(0xA3, le16(lines)),
{
    small_command(Cmd::Eject, two_le(lines).as_slice())
}

/// A4 retract `lines` rows of paper.
pub fn cmd_retract(lines: u16) -> (r: Vec<u8>)
    ensures
        r@ == spec_command(0xA4, le16(lines)),
{
    small_command(Cmd::Retract, two_le(lines).as_slice())
}

/// AB battery level request.
pub fn cmd_get_battery() -> (r: Vec<u8>)
    ensures
        r@ == spec_command(0xAB, seq![0u8]),
{
    small_command(Cmd::Battery, one(0x00).as_slice())
}

/// B1 firmware version request.
pub fn cmd_get_version() -> (r: Vec<u8>)
    ensures
        r@ == spec_command(0xB1, seq![0u8]),
{
    small_command(Cmd::GetVersion, one(0x00).as_slice())
}

// ------------------------------------------------------------------ status

/// Printer state byte of an A1 status payload.
#[derive(Debug, Clone, Copy, PartialEq, Eq, Structural)]
pub enum State {
    /// 0x00
    Standby,
    /// 0x01
    Printing,
    /// 0x02
    Feeding,
    /// 0x03
    Ejecting,
    /// Anything else.
    Unknown(u8),
}

impl State {
    /// The state that a status byte stands for.
    pub open spec fn of(b: u8) -> State {
        if b == 0 {
            State::Standby
        } else if b == 1 {
            State::Printing
        } else if b == 2 {
            State::Feeding
        } else if b == 3 {
            State::Ejecting
        } else {
            State::Unknown(b)
        }
    }

    /// Human-readable name.
    pub open spec fn text(self) -> Seq<char> {
        match self {
            State::Standby => "standby"@,
            State::Printing => "printing"@,
            State::Feeding => "feeding"@,
            State::Ejecting => "ejecting"@,
            State::Unknown(b) => "0x"@ + hex2(b),
        }
    }

    /// Decodes the state byte.
    pub fn from_u8(b: u8) -> (r: State)
        ensures
            r == State::of(b),
    {
        match b {
            0x00 => State::Standby,
            0x01 => State::Printing,
            0x02 => State::Feeding,
            0x03 => State::Ejecting,
            other => State::Unknown(other),
        }
    }

    /// Human-readable name; an unknown state is named by its byte.
    pub fn name(&self) -> (r: String)
        ensures
            r@ == self.text(),
    {
        match self {
            State::Standby => owned("standby"),
            State::Printing => owned("printing"),
            State::Feeding => owned("feeding"),
            State::Ejecting => owned("ejecting"),
            State::Unknown(b) => {
                let mut r = owned("0x");
                push_hex2(&mut r, *b);
                r
            },
        }
    }
}

/// Error reported by an A1 status payload.
#[derive(Debug, Clone, Copy, PartialEq, Eq, Structural)]
pub enum StatusError {
    /// Codes 0x01 and 0x09.
    NoPaper,
    /// Code 0x04.
    Overheated,
    /// Code 0x08.
    LowBattery,
    /// Any other error code.
    Other(u8),
    /// The payload was too short to carry a status.
    ShortPayload,
}

impl StatusError {
    /// The error that an error code stands for.
    pub open spec fn of(code: u8) -> StatusError {
        if code == 1 || code == 9 {
            StatusError::NoPaper
        } else if code == 4 {
            StatusError::Overheated
        } else if code == 8 {
            StatusError::LowBattery
        } else {
            StatusError::Other(code)
        }
    }

    /// The error's text.
    pub open spec fn text(self) -> Seq<char> {
        match self {
            StatusError::NoPaper => "no paper"@,
            StatusError::Overheated => "overheated"@,
            StatusError::LowBattery => "low battery"@,
            StatusError::Other(c) => "error 0x"@ + hex2(c),
            StatusError::ShortPayload => "short status payload"@,
        }
    }

    /// The error's text.
    pub fn name(&self) -> (r: String)
        ensures
            r@ == self.text(),
    {
        match self {
            StatusError::NoPaper => owned("no paper"),
            StatusError::Overheated => owned("overheated"),
            StatusError::LowBattery => owned("low battery"),
            StatusError::Other(c) => {
                let mut r = owned("error 0x");
                push_hex2(&mut r, *c);
                r
            },
            StatusError::ShortPayload => owned("short status payload"),
        }
    }
}

/// Decoded A1 status.
#[derive(Debug, Clone, PartialEq, Eq)]
pub struct PrinterStatus {
    /// `payload[6] == 0`.
    pub ok: bool,
    /// Decoded state byte.
    pub state: State,
    /// Raw state byte (0xFF for a short payload).
    pub state_code: u8,
    /// Battery percent (`payload[3]`).
    pub battery: Option<u8>,
    /// Temperature (`payload[4]`).
    pub temperature: Option<u8>,
    /// Error, if `!ok`.
    pub error: Option<StatusError>,
    /// The raw payload.
    pub raw: Vec<u8>,
}

impl PrinterStatus {
    /// The message for the person at the printer.
    pub open spec fn kid_text(self) -> Seq<char> {
        if self.ok {
            "Printer ready ("@ + self.state.text() + match self.battery {
                Some(b) => ", battery "@ + dec(b as nat) + "%"@,
                None => Seq::empty(),
            } + ")"@
        } else {
            match self.error {
                Some(StatusError::NoPaper) => "The cat printer is out of paper."@,
                Some(StatusError::Overheated) => "The cat printer is too hot. Give it a minute."@,
                Some(StatusError::LowBattery) => "The cat printer battery is low. Charge it."@,
                _ => "The cat printer is not ready. Turn it on and check the paper."@,
            }
        }
    }

    /// Stable machine key for the error.
    pub open spec fn key(self) -> Option<&'static str> {
        if self.ok {
            None
        } else {
            match self.error {
                Some(StatusError::NoPaper) => Some("no-paper"),
                Some(StatusError::Overheated) => Some("overheated"),
                Some(StatusError::LowBattery) => Some("low-battery"),
                _ => Some("other"),
            }
        }
    }

    /// The message for the person at the printer.
    pub fn kid_message(&self) -> (r: String)
        ensures
            r@ == self.kid_text(),
    {
        if self.ok {
            let mut r = owned("Printer ready (");
            r.push_str(self.state.name().as_str());
            match self.battery {
                Some(b) => {
                    r.push_str(", battery ");
                    push_dec(&mut r, b as u64);
                    r.push_str("%");
                },
                None => {},
            }
            r.push_str(")");
            assert(r@ == self.kid_text());
            return r;
        }
        match self.error {
            Some(StatusError::NoPaper) => owned("The cat printer is out of paper."),
            Some(StatusError::Overheated) => owned("The cat printer is too hot. Give it a minute."),
            Some(StatusError::LowBattery) => owned("The cat printer battery is low. Charge it."),
            _ => owned("The cat printer is not ready. Turn it on and check the paper."),
        }
    }

    /// Stable machine key for the error: `no-paper`, `overheated`, `low-battery` or `other`; `None`
    /// if ok.
    pub fn error_key(&self) -> (r: Option<&'static str>)
        ensures
            r == self.key(),
    {
        if self.ok {
            return None;
        }
        match self.error {
            Some(StatusError::NoPaper) => Some("no-paper"),
            Some(StatusError::Overheated) => Some("overheated"),
            Some(StatusError::LowBattery) => Some("low-battery"),
            _ => Some("other"),
        }
    }
}

/// `st` is the decoding of the A1 status payload `p`:
///
/// * `[0]` state (0 standby / 1 printing / 2 feeding / 3 ejecting)
/// * `[3]` battery percent
/// * `[4]` temperature
/// * `[6]` 0 = ok, nonzero = error
/// * `[7]` error code (1/9 no paper, 4 overheat, 8 low battery)
pub open spec fn is_status_of(st: PrinterStatus, p: Seq<u8>) -> bool {
    &&& st.raw@ == p
    &&& if p.len() < 7 {
        &&& !st.ok
        &&& st.state == State::Unknown(0xFF)
        &&& st.state_code == 0xFF
        &&& st.battery is None
        &&& st.temperature is None
        &&& st.error == Some(StatusError::ShortPayload)
    } else {
        &&& st.ok == (p[6] == 0)
        &&& st.state == State::of(p[0])
        &&& st.state_code == p[0]
        &&& st.battery == Some(p[3])
        &&& st.temperature == Some(p[4])
        &&& st.error == if p[6] != 0 && p.len() > 7 {
            Some(StatusError::of(p[7]))
        } else {
            None
        }
    }
}

/// Parses an A1 status payload.
pub fn parse_status(payload: &[u8]) -> (r: PrinterStatus)
    ensures
        is_status_of(r, payload@),
{
    let mut raw: Vec<u8> = Vec::new();
    raw.extend_from_slice(payload);
    assert(raw@ == payload@);
    if payload.len() < 7 {
        return PrinterStatus {
            ok: false,
            state: State::Unknown(0xFF),
            state_code: 0xFF,
            battery: None,
            temperature: None,
            error: Some(StatusError::ShortPayload),
            raw,
        };
    }
    let ok = payload[6] == 0;
    let error = if !ok && payload.len() > 7 {
        Some(
            match payload[7] {
                0x01 => StatusError::NoPaper,
                0x09 => StatusError::NoPaper,
                0x04 => StatusError::Overheated,
                0x08 => StatusError::LowBattery,
                other => StatusError::Other(other),
            },
        )
    } else {
        None
    };
    PrinterStatus {
        ok,
        state: State::from_u8(payload[0]),
        state_code: payload[0],
        battery: Some(payload[3]),
        temperature: Some(payload[4]),
        error,
        raw,
    }
}

// ------------------------------------------------------------------ image packing

/// Bytes per row for a print mode.
pub open spec fn spec_bytes_per_row(mode: PrintMode) -> usize {
    match mode {
        PrintMode::Mono => ROW_BYTES_1BPP,
        PrintMode::Gray4 => ROW_BYTES_4BPP,
    }
}

/// Bytes per row for a print mode (48 at 1 bit per pixel, 192 at 4).
pub fn bytes_per_row(mode: PrintMode) -> (r: usize)
    ensures
        r == spec_bytes_per_row(mode),
        r == mode.spec_bytes_per_row(WIDTH as int),
{
    match mode {
        PrintMode::Mono => ROW_BYTES_1BPP,
        PrintMode::Gray4 => ROW_BYTES_4BPP,
    }
}

/// Minimum AE03 payload for a print mode: 90 rows.
pub fn min_data_bytes(mode: PrintMode) -> (r: usize)
    ensures
        r == MIN_LINES * spec_bytes_per_row(mode),
{
    match mode {
        PrintMode::Mono => MIN_DATA_BYTES,
        PrintMode::Gray4 => MIN_DATA_BYTES_4BPP,
    }
}

/// AE03 write size: whole rows only, as large as the ATT MTU allows. `slow` (or an MTU below one
/// row) forces one row per write.
pub fn data_chunk_size(max_att_bytes: usize, slow: bool, row_bytes: usize) -> (r: usize)
    requires
        row_bytes > 0,
    ensures
        slow || max_att_bytes < row_bytes ==> r == row_bytes,
        !slow && max_att_bytes >= row_bytes ==> r <= max_att_bytes && r + row_bytes > max_att_bytes,
        r >= row_bytes,
        r % row_bytes == 0,
{
    if slow || max_att_bytes < row_bytes {
        assert(row_bytes as int % row_bytes as int == 0) by (nonlinear_arith)
            requires
                row_bytes > 0,
        ;
        return row_bytes;
    }
    let q: usize = max_att_bytes / row_bytes;
    assert(q >= 1) by (nonlinear_arith)
        requires
            q == max_att_bytes / row_bytes,
            max_att_bytes >= row_bytes,
            row_bytes > 0,
    ;
    assert(q * row_bytes <= max_att_bytes && q * row_bytes + row_bytes > max_att_bytes && q
        * row_bytes >= row_bytes && (q * row_bytes) as int % row_bytes as int == 0)
        by (nonlinear_arith)
        requires
            q == max_att_bytes / row_bytes,
            q >= 1,
            row_bytes > 0,
    ;
    q * row_bytes
}

/// Gray value (0 black to 255 white) to 4-bit burn level (0 white to 15 black).
pub open spec fn spec_gray_to_level(gray: u8) -> u8 {
    ((255 - gray) / 16) as u8
}

/// Gray value (0 black to 255 white) to 4-bit burn level (0 white to 15 black).
pub fn gray_to_level(gray: u8) -> (r: u8)
    ensures
        r == spec_gray_to_level(gray),
        r <= 15,
{
    (255 - gray) / 16
}

/// `data` filled up with zeros to `min` bytes, where `pad` asks for it.
pub open spec fn padded(data: Seq<u8>, pad: bool, min: int) -> Seq<u8> {
    if pad && data.len() < min {
        data + Seq::new((min - data.len()) as nat, |i: int| 0u8)
    } else {
        data
    }
}

fn pad_to(data: Vec<u8>, pad: bool, min: usize) -> (r: Vec<u8>)
    ensures
        r@ == padded(data@, pad, min as int),
{
    let mut out = data;
    if pad {
        while out.len() < min
            invariant
                data@.len() <= out@.len(),
                data@.len() <= min ==> out@.len() <= min,
                data@.len() > min ==> out@ == data@,
                out@ == data@ + Seq::new((out@.len() - data@.len()) as nat, |i: int| 0u8),
            decreases min - out.len(),
        {
            out.push(0x00);
        }
    }
    assert(out@ =~= padded(data@, pad, min as int));
    out
}

/// The checks on a buffer of `len` pixels in rows of `width`, in the order in which they are made.
pub open spec fn shape_error(len: usize, width: usize) -> Option<ProtocolError> {
    if width != WIDTH {
        Some(ProtocolError::BadWidth { expected: WIDTH, got: width })
    } else if len == 0 {
        Some(ProtocolError::Empty)
    } else if len % width != 0 {
        Some(ProtocolError::NotWholeRows { len, row_bytes: width })
    } else {
        None
    }
}

fn check_shape(len: usize, width: usize) -> (r: Option<ProtocolError>)
    ensures
        r == shape_error(len, width),
{
    if width != WIDTH {
        return Some(ProtocolError::BadWidth { expected: WIDTH, got: width });
    }
    if len == 0 {
        return Some(ProtocolError::Empty);
    }
    if len % width != 0 {
        return Some(ProtocolError::NotWholeRows { len, row_bytes: width });
    }
    None
}

/// Packs a bitmap (`true` = black, row-major) into rows of 1 bit per pixel: the lowest bit is the
/// leftmost pixel of each group of eight. `width` must be 384. Zero-pads to `MIN_DATA_BYTES` when
/// `pad`.
pub fn pack_1bpp(rows: &[bool], width: usize, pad: bool) -> (r: Result<Vec<u8>, ProtocolError>)
    ensures
        match r {
            Ok(out) => shape_error(rows.len(), width) is None && out@ == padded(
                spec_pack_bits(rows@),
                pad,
                MIN_DATA_BYTES as int,
            ),
            Err(e) => shape_error(rows.len(), width) == Some(e),
        },
{
    if let Some(e) = check_shape(rows.len(), width) {
        return Err(e);
    }
    Ok(pad_to(pack_bits(rows), pad, MIN_DATA_BYTES))
}

/// Packs a gray buffer (0 black to 255 white) into rows of 1 bit per pixel, black where
/// `is_black` says so.
pub fn pack_1bpp_from_gray<F: Fn(u8) -> bool>(
    gray: &[u8],
    width: usize,
    height: usize,
    pad: bool,
    is_black: F,
) -> (r: Result<Vec<u8>, ProtocolError>)
    requires
        width * height <= usize::MAX,
        forall|g: u8| #[trigger] is_black.requires((g,)),
    ensures
        gray@.len() != width * height ==> r == Err::<Vec<u8>, ProtocolError>(
            ProtocolError::NotWholeRows { len: gray.len(), row_bytes: width },
        ),
        gray@.len() == width * height ==> match r {
            Ok(out) => shape_error(gray.len(), width) is None && exists|bits: Seq<bool>|
                bits.len() == gray@.len() && (forall|i: int|
                    0 <= i < bits.len() ==> is_black.ensures((gray@[i],), #[trigger] bits[i]))
                    && out@ == padded(#[trigger] spec_pack_bits(bits), pad, MIN_DATA_BYTES as int),
            Err(e) => shape_error(gray.len(), width) == Some(e),
        },
{
    if gray.len() != width * height {
        return Err(ProtocolError::NotWholeRows { len: gray.len(), row_bytes: width });
    }
    let mut bits: Vec<bool> = Vec::new();
    let mut i: usize = 0;
    while i < gray.len()
        invariant
            i <= gray.len(),
            bits@.len() == i,
            forall|g: u8| #[trigger] is_black.requires((g,)),
            forall|j: int| 0 <= j < i ==> is_black.ensures((gray@[j],), #[trigger] bits@[j]),
        decreases gray.len() - i,
    {
        let b = is_black(gray[i]);
        bits.push(b);
        i += 1;
    }
    pack_1bpp(bits.as_slice(), width, pad)
}

/// `level` or 15, whichever is less.
pub open spec fn clamp15(level: u8) -> u8 {
    if level < 15 {
        level
    } else {
        15
    }
}

/// Levels two to a byte: even `x` is the high nibble, odd `x` the low nibble.
pub open spec fn spec_pack_nibbles(levels: Seq<u8>) -> Seq<u8> {
    Seq::new(
        (levels.len() / 2) as nat,
        |k: int| (16 * clamp15(levels[2 * k]) + clamp15(levels[2 * k + 1])) as u8,
    )
}

/// Packs an array of levels (0 = white to 15 = black, greater ones counting as 15) into rows of 4
/// bits per pixel. `width` must be 384. Zero-pads to `MIN_DATA_BYTES_4BPP` when `pad`.
pub fn pack_4bpp(levels: &[u8], width: usize, pad: bool) -> (r: Result<Vec<u8>, ProtocolError>)
    ensures
        match r {
            Ok(out) => shape_error(levels.len(), width) is None && out@ == padded(
                spec_pack_nibbles(levels@),
                pad,
                MIN_DATA_BYTES_4BPP as int,
            ),
            Err(e) => shape_error(levels.len(), width) == Some(e),
        },
{
    if let Some(e) = check_shape(levels.len(), width) {
        return Err(e);
    }
    let n: usize = levels.len() / 2;
    let mut out: Vec<u8> = Vec::new();
    let mut k: usize = 0;
    while k < n
        invariant
            k <= n,
            n == levels.len() / 2,
            out@.len() == k,
            forall|j: int|
                0 <= j < k ==> out@[j] == (16 * clamp15(levels@[2 * j]) + clamp15(
                    levels@[2 * j + 1],
                )) as u8,
        decreases n - k,
    {
        let hi: u8 = if levels[2 * k] < 15 {
            levels[2 * k]
        } else {
            15
        };
        let lo: u8 = if levels[2 * k + 1] < 15 {
            levels[2 * k + 1]
        } else {
            15
        };
        out.push(16 * hi + lo);
        k += 1;
    }
    assert(out@ == spec_pack_nibbles(levels@));
    Ok(pad_to(out, pad, MIN_DATA_BYTES_4BPP))
}

/// A packed row of levels gives every level back from its nibble, clamped to 15.
pub proof fn lemma_nibbles(levels: Seq<u8>, x: int)
    requires
        levels.len() % 2 == 0,
        0 <= x < levels.len(),
    ensures
        x % 2 == 0 ==> spec_pack_nibbles(levels)[x / 2] / 16 == clamp15(levels[x]),
        x % 2 == 1 ==> spec_pack_nibbles(levels)[x / 2] % 16 == clamp15(levels[x]),
{
}

} // verus!
