//! The wire protocols of the two printer families, and what they share: the checksum, the frame
//! layout, the GATT identifiers and the pixel depths.

use vstd::prelude::*;
use vstd::slice::slice_subrange;

pub mod classic;
pub mod laws;
pub mod mxw01;

verus! {

/// GATT service that the printers expose (AE30).
pub const SERVICE_AE30: &'static str = "0000ae30-0000-1000-8000-00805f9b34fb";

/// GATT service that some printers expose instead (AF30).
pub const SERVICE_AF30: &'static str = "0000af30-0000-1000-8000-00805f9b34fb";

/// Characteristic for control frames (AE01).
pub const CONTROL_UUID: &'static str = "0000ae01-0000-1000-8000-00805f9b34fb";

/// Characteristic for notifications (AE02).
pub const NOTIFY_UUID: &'static str = "0000ae02-0000-1000-8000-00805f9b34fb";

/// Characteristic for bulk image data (AE03).
pub const DATA_UUID: &'static str = "0000ae03-0000-1000-8000-00805f9b34fb";

/// Pixel depth of a print.
#[derive(Debug, Clone, Copy, PartialEq, Eq, Structural)]
pub enum PrintMode {
    /// One bit per pixel.
    Mono,
    /// Four bits per pixel.
    Gray4,
}

impl PrintMode {
    /// Bytes in a row of `width` pixels, the last one filled up.
    pub open spec fn spec_bytes_per_row(self, width: int) -> int {
        match self {
            PrintMode::Mono => (width + 7) / 8,
            PrintMode::Gray4 => (width + 1) / 2,
        }
    }

    /// Bytes in a row of `width` pixels, the last one filled up.
    pub fn bytes_per_row(self, width: usize) -> (r: usize)
        ensures
            r == self.spec_bytes_per_row(width as int),
    {
        match self {
            PrintMode::Mono => width / 8 + if width % 8 == 0 {
                0
            } else {
                1
            },
            PrintMode::Gray4 => width / 2 + width % 2,
        }
    }
}

// ------------------------------------------------------------------ checksum

/// One shift of the checksum register: polynomial x^8 + x^2 + x + 1.
pub open spec fn crc8_shift(c: u8) -> u8 {
    if c & 0x80 != 0 {
        (c << 1) ^ 0x07
    } else {
        c << 1
    }
}

/// The checksum register after `n` shifts.
pub open spec fn crc8_shifts(c: u8, n: nat) -> u8
    decreases n,
{
    if n == 0 {
        c
    } else {
        crc8_shifts(crc8_shift(c), (n - 1) as nat)
    }
}

/// CRC-8 with polynomial 0x07, initial value 0, no reflection: each byte is added to the register,
/// which is then shifted eight times.
pub open spec fn spec_crc8(data: Seq<u8>) -> u8
    decreases data.len(),
{
    if data.len() == 0 {
        0
    } else {
        crc8_shifts(spec_crc8(data.drop_last()) ^ data.last(), 8)
    }
}

/// The CRC-8 of `data`.
pub fn crc8(data: &[u8]) -> (r: u8)
    ensures
        r == spec_crc8(data@),
{
    let mut crc: u8 = 0;
    let mut i: usize = 0;
    while i < data.len()
        invariant
            i <= data.len(),
            crc == spec_crc8(data@.take(i as int)),
        decreases data.len() - i,
    {
        let ghost before = crc;
        let mut c: u8 = crc ^ data[i];
        let ghost start = c;
        let mut k: u8 = 0;
        while k < 8
            invariant
                k <= 8,
                crc8_shifts(start, 8) == crc8_shifts(c, (8 - k) as nat),
            decreases 8 - k,
        {
            c = if c & 0x80 != 0 {
                (c << 1) ^ 0x07
            } else {
                c << 1
            };
            k += 1;
        }
        crc = c;
        assert(data@.take(i as int + 1).drop_last() == data@.take(i as int));
        i += 1;
    }
    assert(data@.take(data@.len() as int) == data@);
    crc
}

// ------------------------------------------------------------------ frames

/// A frame: preamble, command, a zero, the payload's length (little endian), the payload, its
/// checksum, and the footer.
pub open spec fn spec_frame(p0: u8, p1: u8, cmd: u8, payload: Seq<u8>) -> Seq<u8> {
    seq![p0, p1, cmd, 0u8, (payload.len() % 256) as u8, (payload.len() / 256) as u8] + payload
        + seq![spec_crc8(payload), 0xFFu8]
}

/// The command and payload of a frame that starts with the preamble and holds the whole payload
/// that it declares; what follows the payload is not looked at.
pub open spec fn spec_unframe(p0: u8, p1: u8, data: Seq<u8>) -> Option<(u8, Seq<u8>)> {
    if data.len() < 6 || data[0] != p0 || data[1] != p1 {
        None
    } else {
        let n = data[4] + 256 * data[5];
        if data.len() < 6 + n {
            None
        } else {
            Some((data[2], data.subrange(6, 6 + n)))
        }
    }
}

/// Builds a frame.
pub(crate) fn frame(p0: u8, p1: u8, cmd: u8, payload: &[u8]) -> (r: Vec<u8>)
    requires
        payload@.len() <= 0xFFFF,
    ensures
        r@ == spec_frame(p0, p1, cmd, payload@),
{
    let n: usize = payload.len();
    let mut out: Vec<u8> = Vec::new();
    out.push(p0);
    out.push(p1);
    out.push(cmd);
    out.push(0x00);
    out.push((n % 256) as u8);
    out.push((n / 256) as u8);
    out.extend_from_slice(payload);
    out.push(crc8(payload));
    out.push(0xFF);
    assert(out@ == spec_frame(p0, p1, cmd, payload@));
    out
}

/// Takes a frame apart.
pub(crate) fn unframe(p0: u8, p1: u8, data: &[u8]) -> (r: Option<(u8, Vec<u8>)>)
    ensures
        match r {
            Some((cmd, payload)) => spec_unframe(p0, p1, data@) == Some((cmd, payload@)),
            None => spec_unframe(p0, p1, data@) is None,
        },
{
    if data.len() < 6 || data[0] != p0 || data[1] != p1 {
        return None;
    }
    let n: usize = data[4] as usize + 256 * (data[5] as usize);
    if data.len() - 6 < n {
        return None;
    }
    let mut payload: Vec<u8> = Vec::new();
    payload.extend_from_slice(slice_subrange(data, 6, 6 + n));
    assert(payload@ == data@.subrange(6, 6 + n));
    Some((data[2], payload))
}

/// A frame, whatever bytes follow it, gives back its command and payload.
pub proof fn lemma_unframe_frame(p0: u8, p1: u8, cmd: u8, payload: Seq<u8>, rest: Seq<u8>)
    requires
        payload.len() <= 0xFFFF,
    ensures
        spec_unframe(p0, p1, spec_frame(p0, p1, cmd, payload) + rest) == Some((cmd, payload)),
{
    let data = spec_frame(p0, p1, cmd, payload) + rest;
    assert(data[4] + 256 * data[5] == payload.len());
    assert(data.subrange(6, 6 + payload.len() as int) == payload);
}

// ------------------------------------------------------------------ pixels to bytes

/// Pixel `i` of a row of bits; beyond the end there is no ink.
pub open spec fn pixel(bits: Seq<bool>, i: int) -> bool {
    0 <= i < bits.len() && bits[i]
}

/// `w` where the pixel is set, else 0.
pub open spec fn weight(px: bool, w: int) -> int {
    if px {
        w
    } else {
        0
    }
}

/// The byte of pixels `8k` to `8k + 7`: the leftmost pixel is the lowest bit.
pub open spec fn byte_of(bits: Seq<bool>, k: int) -> int {
    weight(pixel(bits, 8 * k), 1) + weight(pixel(bits, 8 * k + 1), 2) + weight(
        pixel(bits, 8 * k + 2),
        4,
    ) + weight(pixel(bits, 8 * k + 3), 8) + weight(pixel(bits, 8 * k + 4), 16) + weight(
        pixel(bits, 8 * k + 5),
        32,
    ) + weight(pixel(bits, 8 * k + 6), 64) + weight(pixel(bits, 8 * k + 7), 128)
}

/// `bits`, eight to a byte.
pub open spec fn spec_pack_bits(bits: Seq<bool>) -> Seq<u8> {
    Seq::new(((bits.len() + 7) / 8) as nat, |k: int| byte_of(bits, k) as u8)
}

fn bit_at(bits: &[bool], i: usize, off: usize, w: u8) -> (r: u8)
    requires
        i <= bits@.len(),
    ensures
        r == weight(pixel(bits@, i + off), w as int),
{
    if off < bits.len() - i && bits[i + off] {
        w
    } else {
        0
    }
}

/// Packs `bits` eight to a byte, the leftmost pixel lowest.
pub(crate) fn pack_bits(bits: &[bool]) -> (r: Vec<u8>)
    ensures
        r@ == spec_pack_bits(bits@),
{
    let mut out: Vec<u8> = Vec::new();
    let mut i: usize = 0;
    while i < bits.len()
        invariant
            i % 8 == 0,
            out@.len() == i / 8,
            i / 8 <= (bits.len() + 7) / 8,
            forall|k: int| 0 <= k < out@.len() ==> out@[k] == byte_of(bits@, k) as u8,
        decreases bits.len() + 8 - i,
    {
        let ghost k = (i / 8) as int;
        let left: usize = bits.len() - i;
        let v: u8 = bit_at(bits, i, 0, 1) + bit_at(bits, i, 1, 2) + bit_at(bits, i, 2, 4) + bit_at(
            bits,
            i,
            3,
            8,
        ) + bit_at(bits, i, 4, 16) + bit_at(bits, i, 5, 32) + bit_at(bits, i, 6, 64) + bit_at(
            bits,
            i,
            7,
            128,
        );
        assert(v == byte_of(bits@, k) as u8);
        out.push(v);
        if left <= 8 {
            assert(out@ == spec_pack_bits(bits@));
            return out;
        }
        i += 8;
    }
    assert(out@ == spec_pack_bits(bits@));
    out
}

/// Two to the power of `j`, for the bits of a byte.
pub open spec fn pow2(j: int) -> int {
    if j == 0 {
        1
    } else if j == 1 {
        2
    } else if j == 2 {
        4
    } else if j == 3 {
        8
    } else if j == 4 {
        16
    } else if j == 5 {
        32
    } else if j == 6 {
        64
    } else {
        128
    }
}

/// Bit `j` of a packed byte is pixel `8k + j`.
pub proof fn lemma_pack_bits(bits: Seq<bool>, k: int, j: int)
    requires
        0 <= k < spec_pack_bits(bits).len(),
        0 <= j < 8,
    ensures
        ((spec_pack_bits(bits)[k] as int / pow2(j)) % 2 == 1) == pixel(bits, 8 * k + j),
{
    let v = byte_of(bits, k);
    assert(0 <= v < 256);
    assert(j == 0 || j == 1 || j == 2 || j == 3 || j == 4 || j == 5 || j == 6 || j == 7);
}

} // verus!
