//! What holds of the frames, whatever they carry, and of the stream that the classic family prints.

use vstd::prelude::*;

use crate::protocol::classic::{
    lemma_rle_round_trip, rows_of, spec_apply_energy, spec_feed_paper, spec_get_dev_state, spec_lattice_end,
    spec_lattice_start, spec_make_frame, spec_parse_frame, spec_print_row, spec_rle, spec_rows,
    spec_set_energy, spec_set_paper, spec_set_quality_200dpi, spec_stream, spec_unrun,
};
use crate::protocol::mxw01::{
    is_status_of, le16, padded, shape_error, spec_gray_to_level, spec_mode_byte, PrinterStatus, State, StatusError,
};
use crate::protocol::{
    crc8_shift, crc8_shifts, lemma_unframe_frame, spec_crc8, spec_frame, spec_pack_bits, PrintMode,
};
use crate::text::starts_with;

verus! {

// ------------------------------------------------------------------ the checksum

/// Shifting is linear, and loses nothing.
proof fn lemma_shift(a: u8, b: u8)
    ensures
        crc8_shift(a ^ b) == crc8_shift(a) ^ crc8_shift(b),
        crc8_shift(a) == crc8_shift(b) ==> a == b,
{
    assert((if (a ^ b) & 0x80 != 0 {
        ((a ^ b) << 1) ^ 0x07
    } else {
        (a ^ b) << 1
    }) == (if a & 0x80 != 0 {
        (a << 1) ^ 0x07
    } else {
        a << 1
    }) ^ (if b & 0x80 != 0 {
        (b << 1) ^ 0x07
    } else {
        b << 1
    })) by (bit_vector);
    assert((if a & 0x80 != 0 {
        (a << 1) ^ 0x07
    } else {
        a << 1
    }) == (if b & 0x80 != 0 {
        (b << 1) ^ 0x07
    } else {
        b << 1
    }) ==> a == b) by (bit_vector);
}

proof fn lemma_shifts(a: u8, b: u8, n: nat)
    ensures
        crc8_shifts(a ^ b, n) == crc8_shifts(a, n) ^ crc8_shifts(b, n),
        crc8_shifts(a, n) == crc8_shifts(b, n) ==> a == b,
    decreases n,
{
    if n > 0 {
        lemma_shift(a, b);
        lemma_shifts(crc8_shift(a), crc8_shift(b), (n - 1) as nat);
    }
}

/// Two payloads of one length that differ in one byte, wherever it is, have different checksums.
pub proof fn lemma_checksum_tells(a: Seq<u8>, i: int, v: u8)
    requires
        0 <= i < a.len(),
        v != a[i],
    ensures
        spec_crc8(a.update(i, v)) != spec_crc8(a),
    decreases a.len(),
{
    let b = a.update(i, v);
    let (x, y) = (spec_crc8(a.drop_last()), spec_crc8(b.drop_last()));
    let (l, m) = (a.last(), b.last());
    if i < a.len() - 1 {
        assert(b.drop_last() =~= a.drop_last().update(i, v));
        lemma_checksum_tells(a.drop_last(), i, v);
        assert(l == m);
    } else {
        assert(b.drop_last() =~= a.drop_last());
        assert(x == y && l != m);
    }
    assert((x == y) != (l == m) ==> x ^ l != y ^ m) by (bit_vector);
    lemma_shifts(x ^ l, y ^ m, 8);
}

/// A payload followed by its own checksum has the checksum zero; with the lowest bit of that turned, seven: the
/// bits of the polynomial x^8 + x^2 + x + 1 below its highest.
pub proof fn lemma_checksum_of_checksum(a: Seq<u8>)
    ensures
        spec_crc8(a.push(spec_crc8(a))) == 0,
        spec_crc8(a.push(spec_crc8(a) ^ 1)) == 7,
{
    let c = spec_crc8(a);
    assert(a.push(c).drop_last() =~= a);
    assert(a.push(c ^ 1).drop_last() =~= a);
    assert(c ^ c == 0) by (bit_vector);
    assert(c ^ (c ^ 1) == 1) by (bit_vector);
    reveal_with_fuel(crc8_shifts, 9);
    assert(crc8_shift(0) == 0) by {
        assert(0u8 & 0x80 == 0 && 0u8 << 1 == 0) by (bit_vector);
    }
    assert(crc8_shift(1) == 2 && crc8_shift(2) == 4 && crc8_shift(4) == 8 && crc8_shift(8) == 16 && crc8_shift(
        16,
    ) == 32 && crc8_shift(32) == 64 && crc8_shift(64) == 128 && crc8_shift(128) == 7) by {
        assert(1u8 & 0x80 == 0 && 2u8 & 0x80 == 0 && 4u8 & 0x80 == 0 && 8u8 & 0x80 == 0 && 16u8 & 0x80 == 0
            && 32u8 & 0x80 == 0 && 64u8 & 0x80 == 0 && 128u8 & 0x80 != 0 && 1u8 << 1 == 2 && 2u8 << 1 == 4
            && 4u8 << 1 == 8 && 8u8 << 1 == 16 && 16u8 << 1 == 32 && 32u8 << 1 == 64 && 64u8 << 1 == 128 && (
        128u8 << 1) ^ 0x07 == 7) by (bit_vector);
    }
}

/// Checksums add up: that of the bitwise sum of two payloads of one length is the sum of theirs.
pub proof fn lemma_checksum_is_linear(a: Seq<u8>, b: Seq<u8>)
    requires
        a.len() == b.len(),
    ensures
        spec_crc8(Seq::new(a.len(), |i: int| a[i] ^ b[i])) == spec_crc8(a) ^ spec_crc8(b),
    decreases a.len(),
{
    let s = Seq::new(a.len(), |i: int| a[i] ^ b[i]);
    if a.len() == 0 {
        assert(0u8 ^ 0u8 == 0u8) by (bit_vector);
    } else {
        let (c, d) = (a.drop_last(), b.drop_last());
        lemma_checksum_is_linear(c, d);
        assert(s.drop_last() =~= Seq::new(c.len(), |i: int| c[i] ^ d[i]));
        let (x, y, l, m) = (spec_crc8(c), spec_crc8(d), a.last(), b.last());
        assert((x ^ y) ^ (l ^ m) == (x ^ l) ^ (y ^ m)) by (bit_vector);
        lemma_shifts(x ^ l, y ^ m, 8);
    }
}

// ------------------------------------------------------------------ frames

/// A frame is eight bytes longer than its payload, which stands in it as it is, with its length low byte first
/// before it and its checksum behind it.
pub proof fn lemma_frame_layout(p0: u8, p1: u8, cmd: u8, payload: Seq<u8>, i: int)
    requires
        payload.len() <= 65535,
        0 <= i < payload.len(),
    ensures
        ({
            let f = spec_frame(p0, p1, cmd, payload);
            let n = payload.len() as int;
            &&& f.len() == n + 8
            &&& f[0] == p0 && f[1] == p1 && f[2] == cmd && f[3] == 0
            &&& f[4] + 256 * f[5] == n
            &&& f[6 + i] == payload[i]
            &&& f[6 + n] == spec_crc8(payload)
            &&& f[7 + n] == 255
        }),
{
}

/// A print request names its rows low byte first, and tells gray from black and white.
pub proof fn lemma_request_numbers(n: u16, a: PrintMode, b: PrintMode)
    ensures
        le16(n).len() == 2,
        le16(n)[0] + 256 * le16(n)[1] == n,
        spec_mode_byte(PrintMode::Mono) == 0,
        spec_mode_byte(a) == spec_mode_byte(b) ==> a == b,
        spec_mode_byte(PrintMode::Gray4) == 2,
{
}

// ------------------------------------------------------------------ status

/// A status reply of seven bytes or more is good exactly where its seventh is zero, and tells state, battery and
/// heat; else its eighth says what is wrong: paper, heat or battery, or something else. A shorter reply is not
/// good, and says neither.
pub proof fn lemma_status_replies(st: PrinterStatus, p: Seq<u8>)
    requires
        is_status_of(st, p),
    ensures
        p.len() < 7 ==> !st.ok && st.battery is None && st.temperature is None && st.key() == Some("other"),
        p.len() >= 7 ==> {
            &&& st.ok <==> p[6] == 0
            &&& st.battery == Some(p[3])
            &&& st.temperature == Some(p[4])
            &&& p[0] == 0 <==> st.state == State::Standby
            &&& p[0] == 1 <==> st.state == State::Printing
            &&& p[0] == 2 <==> st.state == State::Feeding
            &&& p[0] == 3 <==> st.state == State::Ejecting
        },
        st.ok ==> st.key() is None,
        p.len() > 7 && p[6] != 0 ==> {
            &&& p[7] == 1 || p[7] == 9 ==> st.key() == Some("no-paper")
            &&& p[7] == 4 ==> st.key() == Some("overheated")
            &&& p[7] == 8 ==> st.key() == Some("low-battery")
            &&& p[7] != 1 && p[7] != 9 && p[7] != 4 && p[7] != 8 ==> st.key() == Some("other")
        },
        p.len() == 7 && p[6] != 0 ==> st.key() == Some("other"),
{
}

/// A darker gray burns no less; white does not burn, black burns most, and each level stands for sixteen grays.
pub proof fn lemma_levels(a: u8, b: u8)
    requires
        a <= b,
    ensures
        spec_gray_to_level(a) >= spec_gray_to_level(b),
        spec_gray_to_level(0) == 15,
        spec_gray_to_level(255) == 0,
        b - a >= 16 ==> spec_gray_to_level(a) > spec_gray_to_level(b),
        a / 16 == b / 16 ==> spec_gray_to_level(a) == spec_gray_to_level(b),
{
}

// ------------------------------------------------------------------ the classic stream

/// Row frames stand in the stream in the order of the rows.
pub proof fn lemma_rows_in_order(a: Seq<Seq<bool>>, b: Seq<Seq<bool>>)
    ensures
        spec_rows(a + b) == spec_rows(a) + spec_rows(b),
    decreases b.len(),
{
    if b.len() == 0 {
        assert(a + b =~= a);
        assert(spec_rows(a) + spec_rows(b) =~= spec_rows(a));
    } else {
        lemma_rows_in_order(a, b.drop_last());
        assert((a + b).drop_last() =~= a + b.drop_last());
        assert((a + b).last() == b.last());
        assert(spec_rows(a + b) =~= spec_rows(a) + spec_rows(b));
    }
}

/// A row is sent as what it is: as runs where they take no more than 48 bytes, else bit by bit.
pub proof fn lemma_row_frames(row: Seq<bool>, rest: Seq<u8>)
    requires
        row.len() <= 384,
    ensures
        spec_parse_frame(spec_print_row(row) + rest) matches Some((cmd, payload)) && payload.len() <= 48 && (cmd
            == 0xBF && spec_unrun(payload) == row || cmd == 0xA2 && payload == spec_pack_bits(row)),
        spec_rle(row).len() <= 48 ==> (spec_parse_frame(spec_print_row(row) + rest)->0).0 == 0xBF,
        spec_rle(row).len() > 48 ==> (spec_parse_frame(spec_print_row(row) + rest)->0).0 == 0xA2,
{
    lemma_rle_round_trip(row);
    lemma_unframe_frame(0x51, 0x78, 0xA2, spec_pack_bits(row), rest);
    if spec_rle(row).len() <= 48 {
        lemma_unframe_frame(0x51, 0x78, 0xBF, spec_rle(row), rest);
    }
}

/// A run of white is a byte that counts its pixels, a run of black that and 128; decoding is counting.
pub proof fn lemma_runs_count(b: u8, rest: Seq<u8>, i: int)
    requires
        0 <= i < b % 128,
    ensures
        spec_unrun(seq![b] + rest)[i] == (b >= 128),
        spec_unrun(seq![b] + rest).skip((b % 128) as int) == spec_unrun(rest),
{
    let s = seq![b] + rest;
    assert(s.skip(1) =~= rest);
    assert(spec_unrun(s).skip((b % 128) as int) =~= spec_unrun(rest));
}

/// The stream of an image asks for the state, sets 200 dpi and the energy (high byte first), applies it and
/// begins; the rows follow, and nothing else, up to the feed, three times the paper, the end and the state.
pub proof fn lemma_stream_order(rows: Seq<Seq<bool>>, energy: u16, feed: u8)
    ensures
        ({
            let s = spec_stream(rows, energy, feed);
            let r = spec_rows(rows);
            let n = s.len() as int;
            &&& n == 56 + r.len() + 67
            &&& spec_parse_frame(s) == Some((0xA3u8, seq![0u8]))
            &&& spec_parse_frame(s.skip(9)) == Some((0xA4u8, seq![0x32u8]))
            &&& spec_parse_frame(s.skip(18)) == Some((0xAFu8, seq![(energy / 256) as u8, (energy % 256) as u8]))
            &&& spec_parse_frame(s.skip(28)) == Some((0xBEu8, seq![1u8]))
            &&& spec_parse_frame(s.skip(37)) == Some(
                (0xA6u8, seq![0xAAu8, 0x55, 0x17, 0x38, 0x44, 0x5F, 0x5F, 0x5F, 0x44, 0x38, 0x2C]),
            )
            &&& s.subrange(56, n - 67) == r
            &&& spec_parse_frame(s.skip(n - 67)) == Some((0xBDu8, seq![feed]))
            &&& spec_parse_frame(s.skip(n - 58)) == Some((0xA1u8, seq![0x30u8, 0u8]))
            &&& spec_parse_frame(s.skip(n - 48)) == Some((0xA1u8, seq![0x30u8, 0u8]))
            &&& spec_parse_frame(s.skip(n - 38)) == Some((0xA1u8, seq![0x30u8, 0u8]))
            &&& spec_parse_frame(s.skip(n - 28)) == Some(
                (0xA6u8, seq![0xAAu8, 0x55, 0x17, 0x00, 0x00, 0x00, 0x00, 0x00, 0x00, 0x00, 0x17]),
            )
            &&& spec_parse_frame(s.skip(n - 9)) == Some((0xA3u8, seq![0u8]))
        }),
{
    let r = spec_rows(rows);
    let (a, b, c, d, e) = (
        spec_get_dev_state(),
        spec_set_quality_200dpi(),
        spec_set_energy(energy),
        spec_apply_energy(),
        spec_lattice_start(),
    );
    let (f, g, h) = (spec_feed_paper(feed), spec_set_paper(), spec_lattice_end());
    lemma_sizes(energy, feed);
    let head = a + b + c + d + e;
    let tail = f + g + g + g + h + a;
    let s = head + r + tail;
    assert(spec_stream(rows, energy, feed) =~= s);
    lemma_head(a, b, c, d, e, r + tail);
    assert(s =~= head + (r + tail));
    lemma_tail(head + r, f, g, h, a);
    let n = s.len() as int;
    assert(s.subrange(56, n - 67) =~= r);
    lemma_part(s, 0, 0xA3, seq![0u8], s.skip(9));
    lemma_part(s, 9, 0xA4, seq![0x32u8], s.skip(18));
    lemma_part(s, 18, 0xAF, seq![(energy / 256) as u8, (energy % 256) as u8], s.skip(28));
    lemma_part(s, 28, 0xBE, seq![1u8], s.skip(37));
    lemma_part(
        s,
        37,
        0xA6,
        seq![0xAAu8, 0x55, 0x17, 0x38, 0x44, 0x5F, 0x5F, 0x5F, 0x44, 0x38, 0x2C],
        s.skip(56),
    );
    lemma_part(s, n - 67, 0xBD, seq![feed], s.skip(n - 58));
    lemma_part(s, n - 58, 0xA1, seq![0x30u8, 0u8], s.skip(n - 48));
    lemma_part(s, n - 48, 0xA1, seq![0x30u8, 0u8], s.skip(n - 38));
    lemma_part(s, n - 38, 0xA1, seq![0x30u8, 0u8], s.skip(n - 28));
    lemma_part(
        s,
        n - 28,
        0xA6,
        seq![0xAAu8, 0x55, 0x17, 0x00, 0x00, 0x00, 0x00, 0x00, 0x00, 0x00, 0x17],
        s.skip(n - 9),
    );
    lemma_part(s, n - 9, 0xA3, seq![0u8], s.skip(n));
}

proof fn lemma_sizes(energy: u16, feed: u8)
    ensures
        spec_get_dev_state().len() == 9,
        spec_set_quality_200dpi().len() == 9,
        spec_set_energy(energy).len() == 10,
        spec_apply_energy().len() == 9,
        spec_lattice_start().len() == 19,
        spec_feed_paper(feed).len() == 9,
        spec_set_paper().len() == 10,
        spec_lattice_end().len() == 19,
{
}

/// Each part of a row of parts begins where the one before it ends.
proof fn lemma_head(a: Seq<u8>, b: Seq<u8>, c: Seq<u8>, d: Seq<u8>, e: Seq<u8>, rest: Seq<u8>)
    requires
        a.len() == 9,
        b.len() == 9,
        c.len() == 10,
        d.len() == 9,
        e.len() == 19,
    ensures
        ({
            let s = a + b + c + d + e + rest;
            &&& s.skip(0) == a + s.skip(9)
            &&& s.skip(9) == b + s.skip(18)
            &&& s.skip(18) == c + s.skip(28)
            &&& s.skip(28) == d + s.skip(37)
            &&& s.skip(37) == e + s.skip(56)
        }),
{
    let s = a + b + c + d + e + rest;
    assert(s.skip(0) =~= a + s.skip(9));
    assert(s.skip(9) =~= b + s.skip(18));
    assert(s.skip(18) =~= c + s.skip(28));
    assert(s.skip(28) =~= d + s.skip(37));
    assert(s.skip(37) =~= e + s.skip(56));
}

proof fn lemma_tail(front: Seq<u8>, f: Seq<u8>, g: Seq<u8>, h: Seq<u8>, a: Seq<u8>)
    requires
        f.len() == 9,
        g.len() == 10,
        h.len() == 19,
        a.len() == 9,
    ensures
        ({
            let s = front + (f + g + g + g + h + a);
            let n = s.len() as int;
            &&& s.skip(n - 67) == f + s.skip(n - 58)
            &&& s.skip(n - 58) == g + s.skip(n - 48)
            &&& s.skip(n - 48) == g + s.skip(n - 38)
            &&& s.skip(n - 38) == g + s.skip(n - 28)
            &&& s.skip(n - 28) == h + s.skip(n - 9)
            &&& s.skip(n - 9) == a + s.skip(n)
        }),
{
    let s = front + (f + g + g + g + h + a);
    let n = s.len() as int;
    assert(n == front.len() + 67);
    assert(s.skip(n - 67) =~= f + s.skip(n - 58));
    assert(s.skip(n - 58) =~= g + s.skip(n - 48));
    assert(s.skip(n - 48) =~= g + s.skip(n - 38));
    assert(s.skip(n - 38) =~= g + s.skip(n - 28));
    assert(s.skip(n - 28) =~= h + s.skip(n - 9));
    assert(s.skip(n - 9) =~= a + s.skip(n));
}

proof fn lemma_part(s: Seq<u8>, at: int, cmd: u8, payload: Seq<u8>, rest: Seq<u8>)
    requires
        payload.len() <= 65535,
        0 <= at <= s.len(),
        s.skip(at) == spec_make_frame(cmd, payload) + rest,
    ensures
        spec_parse_frame(s.skip(at)) == Some((cmd, payload)),
        at == 0 ==> spec_parse_frame(s) == Some((cmd, payload)),
{
    lemma_unframe_frame(0x51, 0x78, cmd, payload, rest);
    if at == 0 {
        assert(s.skip(0) =~= s);
    }
}

// ------------------------------------------------------------------ images

/// What is filled up has at least so many bytes, begins with what it was, and ends in zeros; what is long enough
/// already, or not to be filled up, stays.
pub proof fn lemma_filled_up(data: Seq<u8>, pad: bool, min: int, i: int)
    requires
        0 <= i < padded(data, pad, min).len(),
    ensures
        pad ==> padded(data, pad, min).len() >= min,
        padded(data, pad, min).len() >= data.len(),
        !pad || data.len() >= min ==> padded(data, pad, min) == data,
        i < data.len() ==> padded(data, pad, min)[i] == data[i],
        i >= data.len() ==> padded(data, pad, min)[i] == 0,
{
}

/// An image is refused where it is not 384 wide, has no pixels, or not whole rows.
pub proof fn lemma_shapes(len: usize, width: usize)
    ensures
        shape_error(len, width) is None <==> width == 384 && len > 0 && len % 384 == 0,
{
}

/// Pixel (x, y) of a flat bitmap is pixel x of its row y; what does not fill a row is left out.
pub proof fn lemma_rows_of_bitmaps(bits: Seq<bool>, width: int, x: int, y: int)
    requires
        0 <= x < width,
        0 <= y,
        (y + 1) * width <= bits.len(),
    ensures
        y < rows_of(bits, width).len(),
        rows_of(bits, width)[y].len() == width,
        rows_of(bits, width)[y][x] == bits[y * width + x],
        rows_of(bits, width).len() * width <= bits.len(),
{
    let n = bits.len() as int / width;
    assert(y < n && n * width <= bits.len() && y * width + width <= bits.len() && 0 <= y * width) by (
    nonlinear_arith)
        requires
            n == bits.len() as int / width,
            (y + 1) * width <= bits.len(),
            width > 0,
            y >= 0,
    ;
}

/// What people are told fits what is wrong: paper, heat or battery; a printer that is well is ready.
pub proof fn lemma_what_people_are_told(st: PrinterStatus)
    ensures
        st.ok ==> starts_with(st.kid_text(), "Printer ready ("@),
        !st.ok && st.error == Some(StatusError::NoPaper) ==> st.kid_text() == "The cat printer is out of paper."@,
        !st.ok && st.error == Some(StatusError::Overheated) ==> st.kid_text()
            == "The cat printer is too hot. Give it a minute."@,
        !st.ok && st.error == Some(StatusError::LowBattery) ==> st.kid_text()
            == "The cat printer battery is low. Charge it."@,
        !st.ok && st.error is None ==> st.kid_text()
            == "The cat printer is not ready. Turn it on and check the paper."@,
{
    let h = "Printer ready ("@;
    if st.ok {
        assert(st.kid_text().subrange(0, h.len() as int) =~= h);
    }
}

} // verus!
