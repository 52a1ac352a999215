//! Classic cat-printer family (GB01/GB02/GB03/GT01/MX05/MX06/MX08/MX09/MX10/MX11/YT01/X5/X6).
//!
//! Frames start with `51 78`; everything, commands and image rows alike, is written to
//! characteristic AE01, and notifications arrive on AE02. The checksum is the CRC-8 of the payload.

use vstd::prelude::*;
use vstd::slice::slice_subrange;

use crate::protocol::{frame, pack_bits, spec_frame, spec_pack_bits, spec_unframe, unframe};

pub mod cmd;

verus! {

/// First byte of every classic frame.
pub const PREAMBLE_0: u8 = 0x51;

/// Second byte of every classic frame.
pub const PREAMBLE_1: u8 = 0x78;

/// Every classic frame ends with this byte.
pub const FOOTER: u8 = 0xFF;

/// Dots across the print head.
pub const WIDTH: usize = 384;

/// Bytes per raw (uncompressed) row.
pub const ROW_BYTES: usize = 48;

/// Milliseconds to wait after each BLE chunk.
pub const WAIT_AFTER_CHUNK_MS: u64 = 20;

/// Seconds to wait for the ready notification after the stream.
pub const WAIT_FOR_READY_TIMEOUT_S: u64 = 30;

/// Default burn energy.
pub const DEFAULT_ENERGY: u16 = 0xFFFF;

/// Rows fed after the image.
pub const DEFAULT_FEED_AFTER: u8 = 25;

/// What the printer sends on AE02 when it has finished printing and is ready again (byte 3 is 1
/// here, unlike the 0 in frames built for it).
pub open spec fn spec_ready_notification() -> Seq<u8> {
    seq![0x51u8, 0x78, 0xAE, 0x01, 0x01, 0x00, 0x00, 0x00, 0xFF]
}

/// What the printer sends on AE02 when it has finished printing and is ready again.
pub fn ready_notification() -> (r: Vec<u8>)
    ensures
        r@ == spec_ready_notification(),
{
    let r: Vec<u8> = vec![0x51, 0x78, 0xAE, 0x01, 0x01, 0x00, 0x00, 0x00, 0xFF];
    assert(r@ == spec_ready_notification());
    r
}

// ------------------------------------------------------------------ framing

/// A classic frame: `51 78 cmd 00 len_le(2) payload crc8(payload) FF`.
pub open spec fn spec_make_frame(cmd: u8, payload: Seq<u8>) -> Seq<u8> {
    spec_frame(PREAMBLE_0, PREAMBLE_1, cmd, payload)
}

/// The command and payload of a classic frame.
pub open spec fn spec_parse_frame(data: Seq<u8>) -> Option<(u8, Seq<u8>)> {
    spec_unframe(PREAMBLE_0, PREAMBLE_1, data)
}

/// Builds a classic frame. Payloads are at most 48 bytes in practice; anything up to `u16::MAX` is
/// encodable.
pub fn make_frame(cmd: u8, payload: &[u8]) -> (r: Vec<u8>)
    requires
        payload@.len() <= 0xFFFF,
    ensures
        r@ == spec_make_frame(cmd, payload@),
{
    frame(PREAMBLE_0, PREAMBLE_1, cmd, payload)
}

/// Parses a classic frame; `None` if the preamble is wrong or the payload is truncated. Trailing
/// bytes (CRC, footer) are not validated.
pub fn parse_frame(data: &[u8]) -> (r: Option<(u8, Vec<u8>)>)
    ensures
        match r {
            Some((c, p)) => spec_parse_frame(data@) == Some((c, p@)),
            None => spec_parse_frame(data@) is None,
        },
{
    unframe(PREAMBLE_0, PREAMBLE_1, data)
}

/// Whatever is built by `make_frame` is parsed back by `parse_frame`.
pub proof fn lemma_frame_round_trip(cmd: u8, payload: Seq<u8>)
    requires
        payload.len() <= 0xFFFF,
    ensures
        spec_parse_frame(spec_make_frame(cmd, payload)) == Some((cmd, payload)),
{
    crate::protocol::lemma_unframe_frame(PREAMBLE_0, PREAMBLE_1, cmd, payload, Seq::empty());
    assert(spec_make_frame(cmd, payload) + Seq::<u8>::empty() == spec_make_frame(cmd, payload));
}

/// The two families never take each other's frames.
pub proof fn lemma_families_disjoint(data: Seq<u8>)
    ensures
        spec_parse_frame(data) is None || crate::protocol::mxw01::spec_notification(data) is None,
{
}

/// No frame that is built for the printer is taken for its ready notification.
pub proof fn lemma_no_frame_is_ready(cmd: u8, payload: Seq<u8>)
    requires
        payload.len() <= 0xFFFF,
    ensures
        spec_make_frame(cmd, payload) != spec_ready_notification(),
{
    assert(spec_make_frame(cmd, payload)[3] == 0);
    assert(spec_ready_notification()[3] == 1);
}

/// Whether this notification is the "done printing, ready again" ping.
pub fn is_ready_notification(data: &[u8]) -> (r: bool)
    ensures
        r == (data@ == spec_ready_notification()),
{
    let want = ready_notification();
    if data.len() != want.len() {
        return false;
    }
    let mut i: usize = 0;
    while i < data.len()
        invariant
            i <= data.len(),
            data.len() == want.len(),
            want@ == spec_ready_notification(),
            forall|j: int| 0 <= j < i ==> data@[j] == want@[j],
        decreases data.len() - i,
    {
        if data[i] != want[i] {
            assert(data@[i as int] != spec_ready_notification()[i as int]);
            return false;
        }
        i += 1;
    }
    assert(data@ == want@);
    true
}

// ------------------------------------------------------------------ commands

fn short_frame(c: u8, payload: Vec<u8>) -> (r: Vec<u8>)
    requires
        payload@.len() <= 16,
    ensures
        r@ == spec_make_frame(c, payload@),
{
    make_frame(c, payload.as_slice())
}

/// A3, payload `00`.
pub open spec fn spec_get_dev_state() -> Seq<u8> {
    spec_make_frame(cmd::GET_DEV_STATE, seq![0x00u8])
}

/// Asks for the device state: A3, payload `00`.
pub fn cmd_get_dev_state() -> (r: Vec<u8>)
    ensures
        r@ == spec_get_dev_state(),
{
    let p: Vec<u8> = vec![0x00];
    assert(p@ == seq![0x00u8]);
    short_frame(cmd::GET_DEV_STATE, p)
}

/// A4, payload `32`.
pub open spec fn spec_set_quality_200dpi() -> Seq<u8> {
    spec_make_frame(cmd::SET_QUALITY, seq![0x32u8])
}

/// Sets 200 dpi: A4, payload `32`.
pub fn cmd_set_quality_200dpi() -> (r: Vec<u8>)
    ensures
        r@ == spec_set_quality_200dpi(),
{
    let p: Vec<u8> = vec![0x32];
    assert(p@ == seq![0x32u8]);
    short_frame(cmd::SET_QUALITY, p)
}

/// Asks for the device info: A8, payload `00`.
pub fn cmd_get_dev_info() -> (r: Vec<u8>)
    ensures
        r@ == spec_make_frame(cmd::GET_DEV_INFO, seq![0x00u8]),
{
    let p: Vec<u8> = vec![0x00];
    assert(p@ == seq![0x00u8]);
    short_frame(cmd::GET_DEV_INFO, p)
}

/// A6, 11 bytes `AA 55 17 38 44 5F 5F 5F 44 38 2C`.
pub open spec fn spec_lattice_start() -> Seq<u8> {
    spec_make_frame(
        cmd::LATTICE,
        seq![0xAAu8, 0x55, 0x17, 0x38, 0x44, 0x5F, 0x5F, 0x5F, 0x44, 0x38, 0x2C],
    )
}

/// Starts the lattice: A6, 11 bytes `AA 55 17 38 44 5F 5F 5F 44 38 2C`.
pub fn cmd_lattice_start() -> (r: Vec<u8>)
    ensures
        r@ == spec_lattice_start(),
{
    let p: Vec<u8> = vec![0xAA, 0x55, 0x17, 0x38, 0x44, 0x5F, 0x5F, 0x5F, 0x44, 0x38, 0x2C];
    assert(p@ == seq![0xAAu8, 0x55, 0x17, 0x38, 0x44, 0x5F, 0x5F, 0x5F, 0x44, 0x38, 0x2C]);
    short_frame(cmd::LATTICE, p)
}

/// A6, 11 bytes `AA 55 17 00 00 00 00 00 00 00 17`.
pub open spec fn spec_lattice_end() -> Seq<u8> {
    spec_make_frame(
        cmd::LATTICE,
        seq![0xAAu8, 0x55, 0x17, 0x00, 0x00, 0x00, 0x00, 0x00, 0x00, 0x00, 0x17],
    )
}

/// Ends the lattice: A6, 11 bytes `AA 55 17 00 00 00 00 00 00 00 17`.
pub fn cmd_lattice_end() -> (r: Vec<u8>)
    ensures
        r@ == spec_lattice_end(),
{
    let p: Vec<u8> = vec![0xAA, 0x55, 0x17, 0x00, 0x00, 0x00, 0x00, 0x00, 0x00, 0x00, 0x17];
    assert(p@ == seq![0xAAu8, 0x55, 0x17, 0x00, 0x00, 0x00, 0x00, 0x00, 0x00, 0x00, 0x17]);
    short_frame(cmd::LATTICE, p)
}

/// A1, payload `30 00`.
pub open spec fn spec_set_paper() -> Seq<u8> {
    spec_make_frame(cmd::SET_PAPER, seq![0x30u8, 0x00])
}

/// Sets the paper: A1, payload `30 00`.
pub fn cmd_set_paper() -> (r: Vec<u8>)
    ensures
        r@ == spec_set_paper(),
{
    let p: Vec<u8> = vec![0x30, 0x00];
    assert(p@ == seq![0x30u8, 0x00]);
    short_frame(cmd::SET_PAPER, p)
}

/// Image draw mode: BE, payload `00`.
pub fn cmd_print_img_mode() -> (r: Vec<u8>)
    ensures
        r@ == spec_make_frame(cmd::DRAW_MODE, seq![0x00u8]),
{
    let p: Vec<u8> = vec![0x00];
    assert(p@ == seq![0x00u8]);
    short_frame(cmd::DRAW_MODE, p)
}

/// BE, payload `01`.
pub open spec fn spec_apply_energy() -> Seq<u8> {
    spec_make_frame(cmd::DRAW_MODE, seq![0x01u8])
}

/// Text draw mode: BE, payload `01`.
pub fn cmd_print_text_mode() -> (r: Vec<u8>)
    ensures
        r@ == spec_make_frame(cmd::DRAW_MODE, seq![0x01u8]),
{
    let p: Vec<u8> = vec![0x01];
    assert(p@ == seq![0x01u8]);
    short_frame(cmd::DRAW_MODE, p)
}

/// BD, one byte.
pub open spec fn spec_feed_paper(lines: u8) -> Seq<u8> {
    spec_make_frame(cmd::FEED_PAPER, seq![lines])
}

/// Feeds `lines` rows: BD.
pub fn cmd_feed_paper(lines: u8) -> (r: Vec<u8>)
    ensures
        r@ == spec_feed_paper(lines),
{
    let p: Vec<u8> = vec![lines];
    assert(p@ == seq![lines]);
    short_frame(cmd::FEED_PAPER, p)
}

/// AF, the energy big endian.
pub open spec fn spec_set_energy(energy: u16) -> Seq<u8> {
    spec_make_frame(cmd::SET_ENERGY, seq![(energy / 256) as u8, (energy % 256) as u8])
}

/// Sets the energy: AF, u16 big endian.
pub fn cmd_set_energy(energy: u16) -> (r: Vec<u8>)
    ensures
        r@ == spec_set_energy(energy),
{
    let p: Vec<u8> = vec![(energy / 256) as u8, (energy % 256) as u8];
    assert(p@ == seq![(energy / 256) as u8, (energy % 256) as u8]);
    short_frame(cmd::SET_ENERGY, p)
}

/// Applies the energy: BE, payload `01` (the bytes of the text draw mode).
pub fn cmd_apply_energy() -> (r: Vec<u8>)
    ensures
        r@ == spec_apply_energy(),
{
    cmd_print_text_mode()
}

// ------------------------------------------------------------------ row encoding

/// A byte of a run: the pixel value in the top bit, the count below it.
pub open spec fn run_byte(n: int, val: bool) -> u8 {
    (n + if val {
        128int
    } else {
        0int
    }) as u8
}

/// A run of `n` pixels of value `val` as 7-bit counts; runs longer than 127 are split.
pub open spec fn spec_run(n: nat, val: bool) -> Seq<u8>
    decreases n,
{
    if n > 127 {
        seq![run_byte(127, val)] + spec_run((n - 127) as nat, val)
    } else if n > 0 {
        seq![run_byte(n as int, val)]
    } else {
        Seq::empty()
    }
}

/// The pixels that run-length bytes stand for.
pub open spec fn spec_unrun(data: Seq<u8>) -> Seq<bool>
    decreases data.len(),
{
    if data.len() == 0 {
        Seq::empty()
    } else {
        Seq::new((data[0] % 128) as nat, |i: int| data[0] >= 128) + spec_unrun(data.skip(1))
    }
}

/// The length of the run of equal pixels at the head of `row`.
pub open spec fn head_run(row: Seq<bool>) -> nat
    decreases row.len(),
{
    if row.len() == 0 {
        0
    } else if row.len() > 1 && row[1] == row[0] {
        1 + head_run(row.skip(1))
    } else {
        1
    }
}

/// A run is within its row, is of one value, and ends where the row ends or the value changes.
pub proof fn lemma_head_run(row: Seq<bool>)
    ensures
        head_run(row) <= row.len(),
        row.len() > 0 ==> head_run(row) > 0,
        forall|i: int| 0 <= i < head_run(row) ==> #[trigger] row[i] == row[0],
        head_run(row) < row.len() ==> row[head_run(row) as int] != row[0],
    decreases row.len(),
{
    if row.len() > 1 && row[1] == row[0] {
        let t = row.skip(1);
        lemma_head_run(t);
        assert forall|i: int| 0 < i < row.len() implies row[i] == t[i - 1] by {}
    }
}

/// A row as its runs, one after the other.
pub open spec fn spec_rle(row: Seq<bool>) -> Seq<u8>
    decreases row.len(),
    via rle_decreases
{
    if row.len() == 0 {
        Seq::empty()
    } else {
        spec_run(head_run(row), row[0]) + spec_rle(row.skip(head_run(row) as int))
    }
}

#[via_fn]
proof fn rle_decreases(row: Seq<bool>) {
    lemma_head_run(row);
}

/// A run of `n` pixels as 7-bit counts with the pixel value in the top bit; runs longer than 127
/// are split.
pub fn encode_run_length_repetition(n: usize, val: bool) -> (r: Vec<u8>)
    ensures
        r@ == spec_run(n as nat, val),
{
    let mut left: usize = n;
    let v: u8 = if val {
        128
    } else {
        0
    };
    let mut res: Vec<u8> = Vec::new();
    while left > 127
        invariant
            v == if val {
                128u8
            } else {
                0u8
            },
            spec_run(n as nat, val) == res@ + spec_run(left as nat, val),
        decreases left,
    {
        let ghost before = res@;
        res.push(127 + v);
        assert(res@ + spec_run((left - 127) as nat, val) == before + (seq![run_byte(127, val)]
            + spec_run((left - 127) as nat, val)));
        left -= 127;
    }
    if left > 0 {
        res.push(left as u8 + v);
    }
    assert(res@ == spec_run(n as nat, val));
    res
}

/// Run-length-encodes a whole row (`true` = black).
pub fn run_length_encode(row: &[bool]) -> (r: Vec<u8>)
    ensures
        r@ == spec_rle(row@),
{
    let mut res: Vec<u8> = Vec::new();
    let mut i: usize = 0;
    assert(row@.skip(0) == row@);
    while i < row.len()
        invariant
            i <= row.len(),
            spec_rle(row@) == res@ + spec_rle(row@.skip(i as int)),
        decreases row.len() - i,
    {
        let ghost rest = row@.skip(i as int);
        let ghost before = res@;
        let px = row[i];
        let mut n: usize = 1;
        assert(rest.skip(0) == rest);
        while i + n < row.len() && row[i + n] == px
            invariant
                1 <= n,
                i + n <= row.len(),
                rest == row@.skip(i as int),
                px == rest[0],
                rest[n - 1] == px,
                head_run(rest) == n - 1 + head_run(rest.skip(n - 1)),
            decreases row.len() - i - n,
        {
            assert(rest.skip(n - 1).skip(1) == rest.skip(n as int));
            assert(rest.skip(n - 1)[1] == rest[n as int]);
            n += 1;
        }
        assert(head_run(rest) == n);
        let mut run = encode_run_length_repetition(n, px);
        res.append(&mut run);
        assert(rest.skip(n as int) == row@.skip(i + n));
        assert(before + (spec_run(n as nat, px) + spec_rle(row@.skip(i + n))) == res@ + spec_rle(
            row@.skip(i + n),
        ));
        i += n;
    }
    assert(row@.skip(i as int).len() == 0);
    assert(res@ + Seq::<u8>::empty() == res@);
    res
}

/// Decoding concatenates.
proof fn lemma_unrun_concat(a: Seq<u8>, b: Seq<u8>)
    ensures
        spec_unrun(a + b) == spec_unrun(a) + spec_unrun(b),
    decreases a.len(),
{
    if a.len() == 0 {
        assert(a + b == b);
        assert(spec_unrun(a) + spec_unrun(b) == spec_unrun(b));
    } else {
        lemma_unrun_concat(a.skip(1), b);
        assert((a + b).skip(1) == a.skip(1) + b);
        let h = Seq::new((a[0] % 128) as nat, |i: int| a[0] >= 128);
        assert((a + b)[0] == a[0]);
        assert(h + (spec_unrun(a.skip(1)) + spec_unrun(b)) == (h + spec_unrun(a.skip(1)))
            + spec_unrun(b));
    }
}

/// An encoded run decodes to its pixels.
proof fn lemma_unrun_run(n: nat, val: bool)
    ensures
        spec_unrun(spec_run(n, val)) == Seq::new(n, |i: int| val),
    decreases n,
{
    if n > 127 {
        lemma_unrun_run((n - 127) as nat, val);
        let s = spec_run(n, val);
        assert(s.skip(1) == spec_run((n - 127) as nat, val));
        assert(s[0] == run_byte(127, val));
        assert(spec_unrun(s) == Seq::new(n, |i: int| val));
    } else if n > 0 {
        let s = spec_run(n, val);
        assert(s.skip(1) == Seq::<u8>::empty());
        assert(spec_unrun(s.skip(1)) == Seq::<bool>::empty());
        assert(s[0] == run_byte(n as int, val));
        assert(spec_unrun(s) == Seq::new(n, |i: int| val));
    } else {
        assert(spec_unrun(Seq::<u8>::empty()) == Seq::new(n, |i: int| val));
    }
}

/// Run-length coding loses nothing: the encoded row decodes to the row.
pub proof fn lemma_rle_round_trip(row: Seq<bool>)
    ensures
        spec_unrun(spec_rle(row)) == row,
    decreases row.len(),
{
    if row.len() == 0 {
        assert(spec_unrun(Seq::<u8>::empty()) == row);
    } else {
        lemma_head_run(row);
        let n = head_run(row);
        let rest = row.skip(n as int);
        lemma_rle_round_trip(rest);
        lemma_unrun_run(n, row[0]);
        lemma_unrun_concat(spec_run(n, row[0]), spec_rle(rest));
        assert(Seq::new(n, |i: int| row[0]) + rest == row);
    }
}

/// An encoded run is no longer than the run.
proof fn lemma_run_len(n: nat, val: bool)
    ensures
        spec_run(n, val).len() <= n,
    decreases n,
{
    if n > 127 {
        lemma_run_len((n - 127) as nat, val);
    }
}

/// An encoded row has at most one byte per pixel.
pub proof fn lemma_rle_len(row: Seq<bool>)
    ensures
        spec_rle(row).len() <= row.len(),
    decreases row.len(),
{
    if row.len() > 0 {
        lemma_head_run(row);
        lemma_run_len(head_run(row), row[0]);
        lemma_rle_len(row.skip(head_run(row) as int));
    }
}

/// Packs a row eight pixels per byte, the lowest bit the leftmost pixel of each group. A trailing
/// partial group is packed into its own byte.
pub fn byte_encode(row: &[bool]) -> (r: Vec<u8>)
    ensures
        r@ == spec_pack_bits(row@),
{
    pack_bits(row)
}

/// The frame of one row: run-length data when that fits in 48 bytes, else the raw bitmap.
pub open spec fn spec_print_row(row: Seq<bool>) -> Seq<u8> {
    if spec_rle(row).len() > ROW_BYTES {
        spec_make_frame(cmd::DRAW_BITMAP, spec_pack_bits(row))
    } else {
        spec_make_frame(cmd::DRAW_BITMAP_RLE, spec_rle(row))
    }
}

/// One row: BF with run-length data when that fits in 48 bytes, else A2 with the raw bitmap.
pub fn cmd_print_row(row: &[bool]) -> (r: Vec<u8>)
    requires
        row@.len() <= 8 * 0xFFFF,
    ensures
        r@ == spec_print_row(row@),
{
    let encoded = run_length_encode(row);
    if encoded.len() > ROW_BYTES {
        let raw = byte_encode(row);
        make_frame(cmd::DRAW_BITMAP, raw.as_slice())
    } else {
        make_frame(cmd::DRAW_BITMAP_RLE, encoded.as_slice())
    }
}

/// The frames of all rows, one after the other.
pub open spec fn spec_rows(rows: Seq<Seq<bool>>) -> Seq<u8>
    decreases rows.len(),
{
    if rows.len() == 0 {
        Seq::empty()
    } else {
        spec_rows(rows.drop_last()) + spec_print_row(rows.last())
    }
}

/// The complete AE01 byte stream for one image: device state, quality, energy, apply energy,
/// lattice start, the rows, feed, paper three times, lattice end, device state.
pub open spec fn spec_stream(rows: Seq<Seq<bool>>, energy: u16, feed_after: u8) -> Seq<u8> {
    spec_get_dev_state() + spec_set_quality_200dpi() + spec_set_energy(energy)
        + spec_apply_energy() + spec_lattice_start() + spec_rows(rows) + spec_feed_paper(feed_after)
        + spec_set_paper() + spec_set_paper() + spec_set_paper() + spec_lattice_end()
        + spec_get_dev_state()
}

/// The views of a list of rows.
pub open spec fn row_views(rows: Seq<Vec<bool>>) -> Seq<Seq<bool>> {
    Seq::new(rows.len(), |i: int| rows[i]@)
}

fn add_frame(data: &mut Vec<u8>, part: Vec<u8>)
    ensures
        final(data)@ == old(data)@ + part@,
{
    let mut part = part;
    data.append(&mut part);
}

/// The complete AE01 byte stream for one image; each row holds its pixels, `true` for black.
pub fn print_stream(rows: &[Vec<bool>], energy: u16, feed_after: u8) -> (r: Vec<u8>)
    requires
        forall|i: int| 0 <= i < rows@.len() ==> (#[trigger] rows@[i])@.len() <= 8 * 0xFFFF,
    ensures
        r@ == spec_stream(row_views(rows@), energy, feed_after),
{
    let mut data: Vec<u8> = cmd_get_dev_state();
    add_frame(&mut data, cmd_set_quality_200dpi());
    add_frame(&mut data, cmd_set_energy(energy));
    add_frame(&mut data, cmd_apply_energy());
    add_frame(&mut data, cmd_lattice_start());
    let ghost head = data@;
    let ghost views = row_views(rows@);
    let mut i: usize = 0;
    assert(data@ == head + spec_rows(views.take(0)));
    while i < rows.len()
        invariant
            i <= rows.len(),
            views == row_views(rows@),
            forall|i: int| 0 <= i < rows@.len() ==> (#[trigger] rows@[i])@.len() <= 8 * 0xFFFF,
            data@ == head + spec_rows(views.take(i as int)),
        decreases rows.len() - i,
    {
        add_frame(&mut data, cmd_print_row(rows[i].as_slice()));
        assert(views.take(i as int + 1).drop_last() == views.take(i as int));
        assert(views.take(i as int + 1).last() == rows@[i as int]@);
        assert(data@ == head + spec_rows(views.take(i as int + 1)));
        i += 1;
    }
    assert(views.take(i as int) == views);
    add_frame(&mut data, cmd_feed_paper(feed_after));
    add_frame(&mut data, cmd_set_paper());
    add_frame(&mut data, cmd_set_paper());
    add_frame(&mut data, cmd_set_paper());
    add_frame(&mut data, cmd_lattice_end());
    add_frame(&mut data, cmd_get_dev_state());
    data
}

/// The whole rows of a flat bitmap; what does not fill a row is left out.
pub open spec fn rows_of(bits: Seq<bool>, width: int) -> Seq<Seq<bool>> {
    if width <= 0 {
        Seq::empty()
    } else {
        Seq::new(
            (bits.len() as int / width) as nat,
            |y: int| bits.subrange(y * width, y * width + width),
        )
    }
}

/// `print_stream` over a flat bitmap (row-major, `true` = black).
pub fn print_stream_from_bitmap(bits: &[bool], width: usize, energy: u16, feed_after: u8) -> (r: Vec<
    u8,
>)
    requires
        width <= 8 * 0xFFFF,
    ensures
        r@ == spec_stream(rows_of(bits@, width as int), energy, feed_after),
{
    let mut rows: Vec<Vec<bool>> = Vec::new();
    if width > 0 {
        let mut at: usize = 0;
        assert(0 * width == 0) by (nonlinear_arith);
        while bits.len() - at >= width
            invariant
                at <= bits.len(),
                0 < width <= 8 * 0xFFFF,
                at == rows@.len() * width,
                forall|y: int|
                    0 <= y < rows@.len() ==> (#[trigger] rows@[y])@ == bits@.subrange(
                        y * width,
                        y * width + width,
                    ),
                forall|y: int| 0 <= y < rows@.len() ==> (#[trigger] rows@[y])@.len() == width,
                forall|y: int|
                    0 <= y < rows@.len() ==> 0 <= #[trigger] (y * width) && y * width + width
                        <= at,
            decreases bits.len() - at,
        {
            let mut row: Vec<bool> = Vec::new();
            row.extend_from_slice(slice_subrange(bits, at, at + width));
            let ghost y = rows@.len() as int;
            assert(row@ == bits@.subrange(y * width, y * width + width));
            assert((y + 1) * width == y * width + width) by (nonlinear_arith);
            rows.push(row);
            at += width;
        }
        assert(rows@.len() == bits@.len() as int / width as int) by (nonlinear_arith)
            requires
                at == rows@.len() * width,
                at <= bits@.len(),
                bits@.len() - at < width,
                width > 0,
        ;
    }
    assert(row_views(rows@) == rows_of(bits@, width as int));
    print_stream(rows.as_slice(), energy, feed_after)
}

} // verus!
