//! What the drivers send, in which order, and what they make of the answers.

use vstd::prelude::*;

use crate::models::classic::{bit_of, is_print_of, segment_rows, spec_chunk, spec_energy, unpack_row, unpack_rows};
use crate::models::mxw01::{hex_text, percent_of, Action, Drive, Event, Stage};
use crate::printer::PrintError;
use crate::protocol::mxw01::{is_status_of, le16, spec_complete_ns, spec_notification, PrinterStatus};
use crate::protocol::classic::{spec_parse_frame, spec_rows};
use crate::protocol::{lemma_unframe_frame, PrintMode};
use crate::render::packing::Segment;
use crate::render::Packed;

verus! {

// ------------------------------------------------------------------ the MXW01

/// Nothing is printed before the printer said that it is ready: only a status reply whose seventh byte is zero
/// leads from the question to the first segment, and its fourth byte is the battery's charge.
pub proof fn lemma_asks_first(d: Drive, p: Packed, ev: Event)
    requires
        d.valid(p),
        d.stage == Stage::SetIntensity || d.stage == Stage::AskStatus,
        d.next(p, ev).stage != Stage::SetIntensity,
        d.next(p, ev).stage != Stage::AskStatus,
    ensures
        d.stage == Stage::AskStatus,
        ev matches Event::Reply(b) && b@.len() >= 7 && b@[6] == 0 && d.next(p, ev).battery == Some(b@[3]),
        d.next(p, ev).segment == 0,
{
}

/// What is wrong with the printer ends the print: no paper, heat and a weak battery each as what it is.
pub proof fn lemma_bad_status_ends(d: Drive, p: Packed, b: Vec<u8>, e: Option<PrintError>)
    requires
        d.stage == Stage::AskStatus,
        b@.len() >= 8,
        b@[6] != 0,
        d.is_end(Event::Reply(b), e),
    ensures
        e is Some && e->0 is Condition,
        d.next(p, Event::Reply(b)) == d,
        b@[7] == 1 || b@[7] == 9 ==> (e->0)->Condition_0.error_is("no-paper"@),
        b@[7] == 4 ==> (e->0)->Condition_0.error_is("overheated"@),
        b@[7] == 8 ==> (e->0)->Condition_0.error_is("low-battery"@),
        b@[7] != 1 && b@[7] != 9 && b@[7] != 4 && b@[7] != 8 ==> (e->0)->Condition_0.error_is("other"@),
        !(e->0)->Condition_0.ok,
{
    let st = choose|st: PrinterStatus|
        #![trigger is_status_of(st, b@)]
        is_status_of(st, b@) && crate::models::mxw01::is_condition_of((e->0)->Condition_0, st);
    crate::protocol::laws::lemma_status_replies(st, b@);
}

/// A segment goes out as announced: the request names its lines and the mode, and the rows that follow are the
/// segment's bytes.
pub proof fn lemma_announced_lines(d: Drive, p: Packed, a: Action)
    requires
        d.valid(p),
        d.is_action(p, a),
    ensures
        d.stage == Stage::AskPrint ==> {
            &&& a is Request
            &&& spec_notification(a->Request_frame@) matches Some((cmd, payload)) && {
                &&& cmd == 0xA9
                &&& payload.len() == 4
                &&& payload[0] + 256 * payload[1] == p.segments@[d.segment as int].lines
                &&& payload[2] == 0x30
                &&& payload[3] == 0 <==> p.mode == PrintMode::Mono
                &&& payload[3] == 2 <==> p.mode == PrintMode::Gray4
            }
            &&& a->expect == 0xA9
            &&& a->check_cancel
        },
        d.stage == Stage::SendRows ==> {
            &&& a is Stream
            &&& a->start == p.segments@[d.segment as int].bytes.start
            &&& a->end == p.segments@[d.segment as int].bytes.end
            &&& p.mode == PrintMode::Mono ==> a->row_bytes == 48
            &&& p.mode == PrintMode::Gray4 ==> a->row_bytes == 192
            &&& a->timeout_ns >= 15_000_000_000
            &&& a->timeout_ns <= 15_000_000_001 + 66_666_667 * p.segments@[d.segment as int].lines
        },
        d.stage == Stage::SetIntensity ==> a is Write && spec_notification(a->Write_frame@) == Some(
            (0xA2u8, seq![d.intensity]),
        ),
        d.stage == Stage::AskStatus ==> a is Request && spec_notification(a->Request_frame@) == Some(
            (0xA1u8, seq![0u8]),
        ),
        d.stage == Stage::Over <==> a is Done,
{
    if d.stage == Stage::AskPrint {
        let n = p.segments@[d.segment as int].lines as u16;
        let payload = le16(n) + seq![0x30u8, crate::protocol::mxw01::spec_mode_byte(p.mode)];
        lemma_unframe_frame(0x22, 0x21, 0xA9, payload, Seq::empty());
        assert(a->Request_frame@ + Seq::<u8>::empty() =~= a->Request_frame@);
    } else if d.stage == Stage::SetIntensity {
        lemma_unframe_frame(0x22, 0x21, 0xA2, seq![d.intensity], Seq::empty());
        assert(a->Write_frame@ + Seq::<u8>::empty() =~= a->Write_frame@);
    } else if d.stage == Stage::AskStatus {
        lemma_unframe_frame(0x22, 0x21, 0xA1, seq![0u8], Seq::empty());
        assert(a->Request_frame@ + Seq::<u8>::empty() =~= a->Request_frame@);
    }
}

/// Segments follow each other: none is skipped, none is sent twice, and a request that is refused ends the print.
pub proof fn lemma_segments_in_turn(d: Drive, p: Packed, ev: Event, e: Option<PrintError>)
    requires
        d.valid(p),
        d.is_end(ev, e),
    ensures
        d.next(p, ev).segment != d.segment ==> d.stage == Stage::Report && ev is Done && d.next(p, ev).segment
            == d.segment + 1,
        d.next(p, ev).stage == Stage::Report && d.stage != Stage::Report ==> d.stage == Stage::SendRows && (ev
            is Done || ev is NoComplete),
        d.next(p, ev).stage == Stage::SendRows && d.stage != Stage::SendRows ==> d.stage == Stage::AskPrint && (
        ev matches Event::Reply(b) && (b@.len() == 0 || b@[0] == 0)),
        d.stage == Stage::AskPrint && (ev matches Event::Reply(b) && b@.len() > 0 && b@[0] != 0) ==> e is Some
            && e->0 is Rejected,
        ev is Cancelled ==> e == Some(PrintError::Cancelled),
        ev is LinkClosed ==> e == Some(PrintError::LinkLost),
        d.stage == Stage::Report && ev is Done && d.segment + 1 < p.segments@.len() ==> d.next(p, ev).stage
            == Stage::AskPrint,
        d.stage == Stage::Report && ev is Done && d.segment + 1 == p.segments@.len() ==> d.next(p, ev).stage
            == Stage::Finish,
{
    assert(p.segments@.len() == p.segments.len());
}

/// A print is unconfirmed from the first segment on whose end was not announced, and only so.
pub proof fn lemma_confirmed(d: Drive, p: Packed, ev: Event)
    requires
        d.valid(p),
        d.confirmed,
    ensures
        d.next(p, ev).confirmed <==> !(d.stage == Stage::SendRows && ev is NoComplete),
{
}

/// Progress grows with the lines, from nothing to 95 of a hundred.
pub proof fn lemma_progress(a: int, b: int, total: int)
    requires
        0 <= a <= b <= total,
        1 <= total,
    ensures
        0 <= percent_of(a, total) <= percent_of(b, total) <= 95,
        percent_of(0, total) == 0,
        percent_of(total, total) == 95,
{
    assert(a * 95 / total <= b * 95 / total && a * 95 / total >= 0 && total * 95 / total == 95) by (
    nonlinear_arith)
        requires
            0 <= a <= b <= total,
            1 <= total,
    ;
}

// ------------------------------------------------------------------ the classic family

/// The rows of segments stand in the order of the segments, each as the bytes of its segment say, 48 to a row.
pub proof fn lemma_segment_rows(data: Seq<u8>, a: Seq<Segment>, s: Segment)
    requires
        0 <= s.bytes.start <= s.bytes.end <= data.len(),
    ensures
        segment_rows(data, a.push(s)) == segment_rows(data, a) + segment_rows(data, seq![s]),
        segment_rows(data, seq![s]).len() == (s.bytes.end - s.bytes.start) / 48,
{
    let part = data.subrange(s.bytes.start as int, s.bytes.end as int);
    assert(a.push(s).drop_last() =~= a);
    assert(seq![s].drop_last() =~= Seq::<Segment>::empty());
    reveal_with_fuel(segment_rows, 2);
    assert(seq![s].last() == s);
    assert(segment_rows(data, seq![s]) =~= unpack_rows(part));
}

/// Pixel `x` of row `y` is bit `x % 8`, counted from the lowest, of byte `x / 8` of that row's 48.
pub proof fn lemma_unpacked_pixel(bytes: Seq<u8>, y: int, x: int)
    requires
        0 <= x < 384,
        0 <= y,
        48 * y + 48 <= bytes.len(),
    ensures
        y < unpack_rows(bytes).len(),
        unpack_rows(bytes)[y].len() == 384,
        unpack_rows(bytes)[y][x] == ((bytes[48 * y + x / 8] as int / crate::protocol::pow2(x % 8)) % 2 == 1),
{
    let row = bytes.subrange(48 * y, 48 * y + 48);
    assert(row[x / 8] == bytes[48 * y + x / 8]);
    assert(unpack_rows(bytes)[y] == unpack_row(row));
    assert(unpack_row(row)[x] == bit_of(row[x / 8], x % 8));
}

/// A hotter burn takes no less energy, in proportion from 0x2000 up to 0xFF00.
pub proof fn lemma_energies(a: u8, b: u8)
    requires
        a <= b,
    ensures
        0x2000 <= spec_energy(a) <= spec_energy(b) <= 0xFF00,
        spec_energy(255) == 0xFF00,
        spec_energy(0) == 0x2000,
        a >= 0x20 ==> 255 * spec_energy(a) == 0xFF00 * a,
        spec_energy(0x5D) == 0x5D00,
{
}

/// A write carries three bytes less than the MTU; the least that any link has carries twenty.
pub proof fn lemma_chunks(mtu: u16)
    ensures
        mtu >= 23 ==> spec_chunk(mtu) + 3 == mtu,
        mtu < 23 ==> spec_chunk(mtu) == 20,
        spec_chunk(mtu) >= 20,
{
}

/// A longer print is waited for longer: fifteen seconds, and one more for every fifteen lines.
pub proof fn lemma_completion_waits(lines: u32)
    requires
        lines <= 0xffff_fff0,
    ensures
        spec_complete_ns(0) == 15_000_000_000,
        spec_complete_ns((lines + 15) as u32) == spec_complete_ns(lines) + 1_000_000_000,
{
}

/// A print of this family carries the rows of the image at the energy of its burn, and feeds 25 lines behind them;
/// gray is refused.
#[verifier::rlimit(40)]
pub proof fn lemma_classic_prints(r: Result<Vec<u8>, PrintError>, p: Packed, intensity: u8)
    requires
        is_print_of(r, p, intensity),
    ensures
        r is Ok <==> p.mode == PrintMode::Mono,
        r is Err ==> r->Err_0 is NotCatPrinter,
        r matches Ok(b) ==> {
            let n = b@.len() as int;
            &&& n >= 123
            &&& b@.subrange(56, n - 67) == spec_rows(segment_rows(p.data@, p.segments@))
            &&& spec_parse_frame(b@.skip(n - 67)) == Some((0xBDu8, seq![25u8]))
            &&& intensity >= 0x20 ==> spec_parse_frame(b@.skip(18)) == Some((0xAFu8, seq![intensity, 0u8]))
            &&& intensity < 0x20 ==> spec_parse_frame(b@.skip(18)) == Some((0xAFu8, seq![0x20u8, 0u8]))
        },
{
    if r is Ok {
        let e = spec_energy(intensity) as u16;
        lemma_energy_bytes(intensity);
        crate::protocol::laws::lemma_stream_order(segment_rows(p.data@, p.segments@), e, 25);
    }
}

proof fn lemma_energy_bytes(intensity: u8)
    ensures
        ({
            let e = spec_energy(intensity) as u16;
            &&& intensity >= 0x20 ==> seq![(e / 256) as u8, (e % 256) as u8] == seq![intensity, 0u8]
            &&& intensity < 0x20 ==> seq![(e / 256) as u8, (e % 256) as u8] == seq![0x20u8, 0u8]
        }),
{
}

/// A refusal is told byte by byte, each in two small hexadecimal digits.
pub proof fn lemma_refusals_are_told(b: Seq<u8>, x: u8)
    ensures
        hex_text(b).len() == 2 * b.len(),
        hex_text(b.push(x)) == hex_text(b) + hex_text(seq![x]),
        hex_text(seq![0xA5u8]) == seq!['a', '5'],
    decreases b.len(),
{
    if b.len() > 0 {
        lemma_refusals_are_told(b.drop_last(), x);
    }
    assert(b.push(x).drop_last() =~= b);
    assert(seq![x].drop_last() =~= Seq::<u8>::empty());
    assert(seq![0xA5u8].drop_last() =~= Seq::<u8>::empty());
    reveal_with_fuel(hex_text, 2);
    assert(hex_text(b.push(x)) =~= hex_text(b) + hex_text(seq![x]));
    assert(hex_text(seq![0xA5u8]) =~= seq!['a', '5']);
}

} // verus!
