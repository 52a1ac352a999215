//! Classic-family driver (GB0x/GT01/MX0x/YT01/X5/X6): one byte stream to AE01, then the ready
//! notification. There is no per-segment protocol, so all rows go out as one stream.

use vstd::prelude::*;

use crate::printer::{Condition, Phase, PrintError, Progress};
use crate::protocol::classic as proto;
use crate::protocol::{lemma_pack_bits, pow2, spec_pack_bits, PrintMode};
use crate::render::{Packed, Segment};
use crate::text::owned;

verus! {

/// The classic energy word of a burn intensity: in proportion, 0xFF to 0xFF00, never below 0x2000.
pub open spec fn spec_energy(intensity: u8) -> int {
    if 256 * intensity < 0x2000 {
        0x2000
    } else {
        256 * intensity
    }
}

/// Maps a burn intensity to a classic energy word: in proportion, 0xFF to 0xFF00, never below
/// 0x2000.
pub fn energy_for(intensity: u8) -> (r: u16)
    ensures
        r == spec_energy(intensity),
{
    let e: u32 = intensity as u32 * 0xFF00 / 0xFF;
    if e < 0x2000 {
        0x2000
    } else {
        e as u16
    }
}

/// Bit `j` of a byte.
pub open spec fn bit_of(b: u8, j: int) -> bool {
    (b as int / pow2(j)) % 2 == 1
}

/// The 384 pixels of 48 bytes, the lowest bit leftmost.
pub open spec fn unpack_row(bytes: Seq<u8>) -> Seq<bool> {
    Seq::new((8 * bytes.len()) as nat, |i: int| bit_of(bytes[i / 8], i % 8))
}

/// The rows of one segment's bytes, 48 bytes each.
pub open spec fn unpack_rows(bytes: Seq<u8>) -> Seq<Seq<bool>> {
    Seq::new((bytes.len() / 48) as nat, |y: int| unpack_row(bytes.subrange(48 * y, 48 * y + 48)))
}

/// The rows of all segments, in the order of sending.
pub open spec fn segment_rows(data: Seq<u8>, segs: Seq<Segment>) -> Seq<Seq<bool>>
    decreases segs.len(),
{
    if segs.len() == 0 {
        Seq::empty()
    } else {
        segment_rows(data, segs.drop_last()) + unpack_rows(
            data.subrange(segs.last().bytes.start as int, segs.last().bytes.end as int),
        )
    }
}

/// Every segment lies within the data.
pub open spec fn segments_within(p: Packed) -> bool {
    forall|i: int|
        0 <= i < p.segments@.len() ==> (#[trigger] p.segments@[i]).bytes.start
            <= p.segments@[i].bytes.end <= p.data@.len()
}

/// Unpacking a packed row gives the pixels back.
pub proof fn lemma_unpack_pack(bits: Seq<bool>)
    requires
        bits.len() % 8 == 0,
    ensures
        unpack_row(spec_pack_bits(bits)) == bits,
{
    let b = spec_pack_bits(bits);
    assert forall|i: int| 0 <= i < bits.len() implies bit_of(b[i / 8], i % 8) == bits[i] by {
        lemma_pack_bits(bits, i / 8, i % 8);
        assert(8 * (i / 8) + i % 8 == i);
    }
    assert(unpack_row(b) =~= bits);
}

fn weight_of(j: u8) -> (r: u8)
    requires
        j < 8,
    ensures
        r == pow2(j as int),
{
    if j == 0 {
        1
    } else if j == 1 {
        2
    } else if j == 2 {
        4
    } else if j == 3 {
        8
    } else if j == 4 {
        16
    } else if j == 5 {
        32
    } else if j == 6 {
        64
    } else {
        128
    }
}

/// Unpacks the packed rows of all segments (48 bytes per row, the lowest bit leftmost) into pixels
/// for the run-length coder.
pub fn rows_from_packed(packed: &Packed) -> (r: Vec<Vec<bool>>)
    requires
        segments_within(*packed),
    ensures
        proto::row_views(r@) == segment_rows(packed.data@, packed.segments@),
        forall|i: int| 0 <= i < r@.len() ==> (#[trigger] r@[i])@.len() == 384,
{
    let mut rows: Vec<Vec<bool>> = Vec::new();
    let mut s: usize = 0;
    assert(packed.segments@.take(0) =~= Seq::<Segment>::empty());
    assert(proto::row_views(rows@) =~= segment_rows(packed.data@, packed.segments@.take(0)));
    while s < packed.segments.len()
        invariant
            s <= packed.segments.len(),
            segments_within(*packed),
            proto::row_views(rows@) == segment_rows(
                packed.data@,
                packed.segments@.take(s as int),
            ),
            forall|i: int| 0 <= i < rows@.len() ==> (#[trigger] rows@[i])@.len() == 384,
        decreases packed.segments.len() - s,
    {
        let ghost before = rows@;
        let seg = &packed.segments[s];
        let start: usize = seg.bytes.start;
        let end: usize = seg.bytes.end;
        assert(packed.segments@[s as int].bytes.start <= packed.segments@[s as int].bytes.end
            <= packed.data@.len());
        let ghost bytes = packed.data@.subrange(start as int, end as int);
        let n: usize = (end - start) / 48;
        let mut y: usize = 0;
        assert(proto::row_views(rows@) =~= proto::row_views(before) + unpack_rows(bytes).take(0));
        while y < n
            invariant
                y <= n,
                n == (end - start) / 48,
                start <= end <= packed.data@.len(),
                bytes == packed.data@.subrange(start as int, end as int),
                proto::row_views(rows@) == proto::row_views(before) + unpack_rows(bytes).take(
                    y as int,
                ),
                forall|i: int| 0 <= i < rows@.len() ==> (#[trigger] rows@[i])@.len() == 384,
            decreases n - y,
        {
            let ghost row = bytes.subrange(48 * y, 48 * y + 48);
            let ghost rows_before = rows@;
            let mut bits: Vec<bool> = Vec::new();
            let mut i: usize = 0;
            while i < 384
                invariant
                    i <= 384,
                    y < n,
                    n == (end - start) / 48,
                    start <= end <= packed.data@.len(),
                    bytes == packed.data@.subrange(start as int, end as int),
                    row == bytes.subrange(48 * y, 48 * y + 48),
                    bits@.len() == i,
                    forall|k: int|
                        0 <= k < i ==> #[trigger] bits@[k] == bit_of(row[k / 8], k % 8),
                decreases 384 - i,
            {
                assert(packed.data@.len() == packed.data.len());
                let at: usize = start + 48 * y + i / 8;
                let b: u8 = packed.data[at];
                assert(b == row[i as int / 8]);
                let w: u8 = weight_of((i % 8) as u8);
                bits.push((b / w) % 2 == 1);
                i += 1;
            }
            assert(bits@ =~= unpack_row(row));
            rows.push(bits);
            assert(proto::row_views(rows@) =~= proto::row_views(rows_before).push(unpack_row(row)));
            assert(unpack_rows(bytes).take(y as int + 1) =~= unpack_rows(bytes).take(y as int).push(
                unpack_row(row),
            ));
            assert(proto::row_views(rows@) =~= proto::row_views(before) + unpack_rows(bytes).take(
                y as int + 1,
            ));
            y += 1;
        }
        assert(unpack_rows(bytes).take(n as int) =~= unpack_rows(bytes));
        assert(packed.segments@.take(s as int + 1).drop_last() =~= packed.segments@.take(s as int));
        s += 1;
    }
    assert(packed.segments@.take(packed.segments@.len() as int) =~= packed.segments@);
    rows
}

/// `r` is the complete AE01 stream of a packed image at a burn intensity. Only black and white can be
/// sent to this family.
pub open spec fn is_print_of(r: Result<Vec<u8>, PrintError>, packed: Packed, intensity: u8) -> bool {
    match r {
        Ok(b) => packed.mode == PrintMode::Mono && b@ == proto::spec_stream(
            segment_rows(packed.data@, packed.segments@),
            spec_energy(intensity) as u16,
            proto::DEFAULT_FEED_AFTER,
        ),
        Err(e) => {
            &&& packed.mode != PrintMode::Mono
            &&& e matches PrintError::NotCatPrinter(m)
            &&& m@ == "this printer only does black and white"@
        },
    }
}

/// The complete AE01 stream of a packed image at a burn intensity. Only black and white can be
/// sent to this family.
pub fn print_bytes(packed: &Packed, intensity: u8) -> (r: Result<Vec<u8>, PrintError>)
    requires
        segments_within(*packed),
    ensures
        is_print_of(r, *packed, intensity),
{
    if packed.mode != PrintMode::Mono {
        return Err(PrintError::NotCatPrinter(owned("this printer only does black and white")));
    }
    let rows = rows_from_packed(packed);
    Ok(proto::print_stream(rows.as_slice(), energy_for(intensity), proto::DEFAULT_FEED_AFTER))
}

/// The bytes per write for an ATT MTU: all that fits, at least 20.
pub open spec fn spec_chunk(mtu: u16) -> int {
    if mtu < 23 {
        20
    } else {
        mtu - 3
    }
}

/// The bytes per write for an ATT MTU: all that fits, at least 20.
pub fn chunk_for(mtu: u16) -> (r: usize)
    ensures
        r == spec_chunk(mtu),
{
    if mtu < 23 {
        20
    } else {
        mtu as usize - 3
    }
}

/// The progress after `sent` of `total` bytes of the stream.
pub fn stream_progress(sent: usize, total: usize) -> (r: Progress)
    requires
        sent <= total,
    ensures
        r.phase == Phase::Printing,
        r.message@ == "Printing"@,
        r.percent == 5 + (if total == 0 {
            0
        } else {
            90 * sent / total as int
        }),
{
    let t: u128 = if total == 0 {
        1
    } else {
        total as u128
    };
    let p: u128 = 90 * (sent as u128) / t;
    assert(p <= 90) by (nonlinear_arith)
        requires
            p == 90 * sent / t as int,
            sent <= t,
            t >= 1,
    ;
    Progress { phase: Phase::Printing, percent: 5 + p as u8, message: owned("Printing") }
}

/// The progress before the stream goes out.
pub fn first_progress() -> (r: Progress)
    ensures
        r.phase == Phase::Printing,
        r.percent == 5,
        r.message@ == "Sending image"@,
{
    Progress { phase: Phase::Printing, percent: 5, message: owned("Sending image") }
}

/// The progress at the end.
pub fn last_progress() -> (r: Progress)
    ensures
        r.phase == Phase::Finishing,
        r.percent == 100,
        r.message@ == "Printed"@,
{
    Progress { phase: Phase::Finishing, percent: 100, message: owned("Printed") }
}

/// A stream on its way out.
#[derive(Debug)]
pub struct Stream {
    pub chunk: usize,
    pub sent: usize,
    pub total: usize,
}

/// What comes next in a stream.
#[derive(Debug, Clone, Copy, PartialEq, Eq, Structural)]
pub enum StreamStep {
    /// Write the bytes from `start` to `end`.
    Write { start: usize, end: usize },
    Cancelled,
    /// All was written: wait for the ready notification.
    Sent,
}

impl Stream {
    /// Not more was sent than there is.
    pub open spec fn wf(self) -> bool {
        self.chunk > 0 && self.sent <= self.total
    }

    /// Where the next piece ends.
    pub open spec fn piece_end(self) -> int {
        if self.sent + self.chunk < self.total {
            self.sent + self.chunk
        } else {
            self.total as int
        }
    }

    /// A stream of `total` bytes on a link of an MTU.
    pub fn new(total: usize, mtu: u16) -> (r: Stream)
        ensures
            r.wf(),
            r.sent == 0,
            r.total == total,
            r.chunk == spec_chunk(mtu),
    {
        Stream { chunk: chunk_for(mtu), sent: 0, total }
    }

    fn end(&self) -> (r: usize)
        requires
            self.wf(),
        ensures
            r == self.piece_end(),
    {
        if self.total - self.sent > self.chunk {
            self.sent + self.chunk
        } else {
            self.total
        }
    }

    /// What comes next.
    pub fn next(&self, cancelled: bool) -> (r: StreamStep)
        requires
            self.wf(),
        ensures
            r == if self.sent == self.total {
                StreamStep::Sent
            } else if cancelled {
                StreamStep::Cancelled
            } else {
                StreamStep::Write { start: self.sent, end: self.piece_end() as usize }
            },
            r matches StreamStep::Write { start, end } ==> start < end <= self.total,
    {
        if self.sent == self.total {
            StreamStep::Sent
        } else if cancelled {
            StreamStep::Cancelled
        } else {
            StreamStep::Write { start: self.sent, end: self.end() }
        }
    }

    /// The piece was written: gives the progress after it.
    pub fn wrote(&mut self) -> (r: Progress)
        requires
            old(self).wf(),
        ensures
            final(self).wf(),
            *final(self) == (Stream { sent: old(self).piece_end() as usize, ..*old(self) }),
            r.phase == Phase::Printing,
            r.message@ == "Printing"@,
            r.percent == 5 + (if old(self).total == 0 {
                0
            } else {
                90 * final(self).sent / old(self).total as int
            }),
    {
        self.sent = self.end();
        stream_progress(self.sent, self.total)
    }
}

/// The condition that is reported for this family: its status replies differ between models, so
/// none is read.
pub fn condition() -> (r: Condition)
    ensures
        r.ok,
        r.state@ == "ready"@,
        r.battery is None,
        r.temperature is None,
        r.error is None,
        r.message@ == "Cat printer ready (classic family)"@,
{
    Condition {
        ok: true,
        state: owned("ready"),
        battery: None,
        temperature: None,
        error: None,
        message: owned("Cat printer ready (classic family)"),
    }
}

/// The frame that makes the printer show itself: feed 40 lines.
pub fn identify_frame() -> (r: Vec<u8>)
    ensures
        r@ == proto::spec_feed_paper(40),
{
    proto::cmd_feed_paper(40)
}

} // verus!
