//! MXW01 driver: the A2 / A1 / A9 / AE03 / AD / AA print sequence, as a state machine. The caller
//! performs each action over the link and hands back what came of it.

use vstd::prelude::*;

use crate::printer::{Condition, Phase, PrintError, Progress};
use crate::protocol::mxw01 as proto;
use crate::render::Packed;
use crate::text::{dec, owned, push_dec};

verus! {

/// Where a print stands.
#[derive(Debug, Clone, Copy, PartialEq, Eq, Structural)]
pub enum Stage {
    /// The intensity is to be set.
    SetIntensity,
    /// The printer is to be asked whether it is ready.
    AskStatus,
    /// The next segment is to be announced.
    AskPrint,
    /// The segment's rows are to be sent, flushed, and their completion awaited.
    SendRows,
    /// The progress is to be reported.
    Report,
    /// The end is to be reported.
    Finish,
    /// Nothing is left to do.
    Over,
}

/// The state of a print of one copy.
#[derive(Debug, Clone, Copy, PartialEq, Eq, Structural)]
pub struct Drive {
    pub stage: Stage,
    pub intensity: u8,
    /// The segment in work.
    pub segment: usize,
    /// Lines sent so far.
    pub done: u32,
    /// Lines of all segments, at least 1.
    pub total: u32,
    /// Every segment so far was confirmed.
    pub confirmed: bool,
    /// Battery percent seen in the status check.
    pub battery: Option<u8>,
}

/// What is to be done next.
#[derive(Debug)]
pub enum Action {
    /// Write a control frame, then pause.
    Write { frame: Vec<u8>, pause_ms: u64 },
    /// Write a control frame, and wait for the reply to command `expect`. Where `check_cancel`, a
    /// cancelled job stops here.
    Request { frame: Vec<u8>, expect: u8, timeout_s: u64, check_cancel: bool },
    /// Stream bytes `start..end` in whole rows, write the flush frame, and wait for the
    /// print-complete notification.
    Stream { start: usize, end: usize, row_bytes: usize, flush: Vec<u8>, timeout_ns: u64 },
    /// Report progress.
    Report(Progress),
    /// The print is over.
    Done { confirmed: bool, battery: Option<u8> },
}

/// What came of an action.
#[derive(Debug)]
pub enum Event {
    /// It was done.
    Done,
    /// The reply's payload.
    Reply(Vec<u8>),
    /// No print-complete notification came in time.
    NoComplete,
    /// The link was lost while waiting.
    LinkClosed,
    /// The job was cancelled.
    Cancelled,
    /// It failed.
    Failed(PrintError),
}

/// The packed image fits the protocol: segments within the data, of at most 65535 lines each, and
/// a line count that holds.
pub open spec fn printable(p: Packed) -> bool {
    &&& forall|i: int|
        0 <= i < p.segments@.len() ==> (#[trigger] p.segments@[i]).bytes.start
            <= p.segments@[i].bytes.end <= p.data@.len() && p.segments@[i].lines <= 65535
    &&& sum_segments(p, p.segments@.len()) <= u32::MAX
}

/// The lines of the first `n` segments.
pub open spec fn sum_segments(p: Packed, n: nat) -> int
    decreases n,
{
    if n == 0 {
        0
    } else {
        sum_segments(p, (n - 1) as nat) + p.segments@[n - 1].lines
    }
}

proof fn lemma_sum_segments(p: Packed, m: nat, n: nat)
    requires
        m <= n,
    ensures
        0 <= sum_segments(p, m) <= sum_segments(p, n),
    decreases n,
{
    if m < n {
        lemma_sum_segments(p, m, (n - 1) as nat);
    } else if n > 0 {
        lemma_sum_segments(p, (m - 1) as nat, (n - 1) as nat);
    }
}

/// The state as seen by a status reply.
pub open spec fn is_condition_of(c: Condition, st: proto::PrinterStatus) -> bool {
    &&& c.ok == st.ok
    &&& c.state@ == st.state.text()
    &&& c.battery == st.battery
    &&& c.temperature == st.temperature
    &&& match st.key() {
        Some(k) => c.error_is(k@),
        None => c.error is None,
    }
    &&& c.message@ == st.kid_text()
}

/// The condition that a status stands for.
pub fn condition(st: &proto::PrinterStatus) -> (r: Condition)
    ensures
        is_condition_of(r, *st),
{
    Condition {
        ok: st.ok,
        state: st.state.name(),
        battery: st.battery,
        temperature: st.temperature,
        error: match st.error_key() {
            Some(k) => Some(owned(k)),
            None => None,
        },
        message: st.kid_message(),
    }
}

/// The condition of a status reply.
pub fn condition_of(payload: &[u8]) -> (r: Condition)
    ensures
        exists|st: proto::PrinterStatus|
            #![trigger proto::is_status_of(st, payload@)]
            proto::is_status_of(st, payload@) && is_condition_of(r, st),
{
    let st = proto::parse_status(payload);
    assert(proto::is_status_of(st, payload@));
    condition(&st)
}

/// A small hexadecimal digit.
pub open spec fn small_hex(d: int) -> char {
    if d < 10 {
        ((48 + d) as u8) as char
    } else {
        ((87 + d) as u8) as char
    }
}

/// Bytes as small hexadecimal digits.
pub open spec fn hex_text(b: Seq<u8>) -> Seq<char>
    decreases b.len(),
{
    if b.len() == 0 {
        Seq::empty()
    } else {
        hex_text(b.drop_last()).push(small_hex((b.last() / 16) as int)).push(
            small_hex((b.last() % 16) as int),
        )
    }
}

fn to_hex(b: &[u8]) -> (r: String)
    ensures
        r@ == hex_text(b@),
{
    let mut r = String::new();
    let mut i: usize = 0;
    while i < b.len()
        invariant
            i <= b.len(),
            r@ == hex_text(b@.take(i as int)),
        decreases b.len() - i,
    {
        let hi: u8 = b[i] / 16;
        let lo: u8 = b[i] % 16;
        assert(b@.take(i as int + 1).drop_last() =~= b@.take(i as int));
        r.push(if hi < 10 { (48 + hi) as char } else { (87 + hi) as char });
        r.push(if lo < 10 { (48 + lo) as char } else { (87 + lo) as char });
        i += 1;
    }
    assert(b@.take(b@.len() as int) =~= b@);
    r
}

/// The percentage after `done` of `total` lines.
pub open spec fn percent_of(done: int, total: int) -> int {
    if done * 95 / total < 95 {
        done * 95 / total
    } else {
        95
    }
}

impl Drive {
    /// The state is one that a print of `p` can be in.
    pub open spec fn valid(self, p: Packed) -> bool {
        let n = p.segments@.len();
        &&& printable(p)
        &&& self.segment <= n
        &&& self.total == if sum_segments(p, n) < 1 {
            1
        } else {
            sum_segments(p, n)
        }
        &&& match self.stage {
            Stage::AskPrint => self.segment < n && self.done == sum_segments(
                p,
                self.segment as nat,
            ),
            Stage::SendRows => self.segment < n && self.done == sum_segments(
                p,
                self.segment as nat,
            ),
            Stage::Report => self.segment < n && self.done == sum_segments(
                p,
                (self.segment + 1) as nat,
            ),
            Stage::Finish => self.segment == n && self.done == sum_segments(p, n),
            Stage::Over => self.segment == n && self.done == sum_segments(p, n),
            _ => self.segment == 0 && self.done == 0,
        }
    }

    /// The start of a print.
    pub fn new(packed: &Packed, intensity: u8) -> (r: Drive)
        requires
            printable(*packed),
        ensures
            r.valid(*packed),
            r.stage == Stage::SetIntensity,
            r.intensity == intensity,
            r.confirmed,
            r.battery is None,
    {
        let mut total: u32 = 0;
        let mut i: usize = 0;
        while i < packed.segments.len()
            invariant
                i <= packed.segments.len(),
                printable(*packed),
                total == sum_segments(*packed, i as nat),
            decreases packed.segments.len() - i,
        {
            proof {
                lemma_sum_segments(*packed, (i + 1) as nat, packed.segments@.len());
            }
            total = total + packed.segments[i].lines;
            i += 1;
        }
        if total < 1 {
            total = 1;
        }
        Drive {
            stage: Stage::SetIntensity,
            intensity,
            segment: 0,
            done: 0,
            total,
            confirmed: true,
            battery: None,
        }
    }

    /// `a` is what is to be done in this state.
    pub open spec fn is_action(self, p: Packed, a: Action) -> bool {
        match self.stage {
            Stage::SetIntensity => a matches Action::Write { frame, pause_ms } && frame@
                == proto::spec_command(0xA2, seq![self.intensity]) && pause_ms == 50,
            Stage::AskStatus => a matches Action::Request { frame, expect, timeout_s, check_cancel }
                && frame@ == proto::spec_command(0xA1, seq![0u8]) && expect == 0xA1 && timeout_s
                == proto::NOTIFICATION_TIMEOUT_S && !check_cancel,
            Stage::AskPrint => a matches Action::Request { frame, expect, timeout_s, check_cancel }
                && frame@ == proto::spec_command(
                0xA9,
                proto::le16(p.segments@[self.segment as int].lines as u16) + seq![
                    0x30u8,
                    proto::spec_mode_byte(p.mode),
                ],
            ) && expect == 0xA9 && timeout_s == proto::NOTIFICATION_TIMEOUT_S && check_cancel,
            Stage::SendRows => a matches Action::Stream { start, end, row_bytes, flush, timeout_ns }
                && start == p.segments@[self.segment as int].bytes.start && end
                == p.segments@[self.segment as int].bytes.end && row_bytes
                == proto::spec_bytes_per_row(p.mode) && flush@ == proto::spec_command(
                0xAD,
                seq![0u8],
            ) && timeout_ns == 15_000_000_000 + (2_000_000_000
                * p.segments@[self.segment as int].lines + 15) / 30,
            Stage::Report => a matches Action::Report(g) && g.phase == Phase::Printing && g.percent
                == percent_of(self.done as int, self.total as int) && g.message@ == "Printing ("@
                + dec(self.done as nat) + "/"@ + dec(self.total as nat) + " lines)"@,
            Stage::Finish => a matches Action::Report(g) && g.phase == Phase::Finishing && g.percent
                == 100 && g.message@ == "Printed"@,
            Stage::Over => a matches Action::Done { confirmed, battery } && confirmed
                == self.confirmed && battery == self.battery,
        }
    }

    /// What is to be done in this state.
    pub fn action(&self, packed: &Packed) -> (r: Action)
        requires
            self.valid(*packed),
        ensures
            self.is_action(*packed, r),
    {
        match self.stage {
            Stage::SetIntensity => Action::Write {
                frame: proto::cmd_set_intensity(self.intensity),
                pause_ms: 50,
            },
            Stage::AskStatus => Action::Request {
                frame: proto::cmd_get_status(),
                expect: 0xA1,
                timeout_s: proto::NOTIFICATION_TIMEOUT_S,
                check_cancel: false,
            },
            Stage::AskPrint => Action::Request {
                frame: proto::cmd_print_request(
                    packed.segments[self.segment].lines as u16,
                    packed.mode,
                ),
                expect: 0xA9,
                timeout_s: proto::NOTIFICATION_TIMEOUT_S,
                check_cancel: true,
            },
            Stage::SendRows => {
                let seg = &packed.segments[self.segment];
                Action::Stream {
                    start: seg.bytes.start,
                    end: seg.bytes.end,
                    row_bytes: proto::bytes_per_row(packed.mode),
                    flush: proto::cmd_flush(),
                    timeout_ns: proto::print_complete_timeout(seg.lines),
                }
            },
            Stage::Report => {
                let p: u64 = self.done as u64 * 95 / self.total as u64;
                let percent: u8 = if p < 95 {
                    p as u8
                } else {
                    95
                };
                let mut message = owned("Printing (");
                push_dec(&mut message, self.done as u64);
                message.push_str("/");
                push_dec(&mut message, self.total as u64);
                message.push_str(" lines)");
                Action::Report(Progress { phase: Phase::Printing, percent, message })
            },
            Stage::Finish => Action::Report(
                Progress { phase: Phase::Finishing, percent: 100, message: owned("Printed") },
            ),
            Stage::Over => Action::Done { confirmed: self.confirmed, battery: self.battery },
        }
    }

    /// The state where segment `i` is next.
    pub open spec fn at_segment(self, p: Packed, i: int) -> Drive {
        Drive {
            segment: i as usize,
            stage: if i < p.segments@.len() {
                Stage::AskPrint
            } else {
                Stage::Finish
            },
            ..self
        }
    }

    /// The state after an event; where the event ends the print with an error, the state stays.
    pub open spec fn next(self, p: Packed, ev: Event) -> Drive {
        match (self.stage, ev) {
            (Stage::SetIntensity, Event::Done) => Drive { stage: Stage::AskStatus, ..self },
            (Stage::AskStatus, Event::Reply(b)) => if b@.len() >= 7 && b@[6] == 0 {
                Drive { battery: Some(b@[3]), ..self.at_segment(p, 0) }
            } else {
                self
            },
            (Stage::AskPrint, Event::Reply(b)) => if b@.len() > 0 && b@[0] != 0 {
                self
            } else {
                Drive { stage: Stage::SendRows, ..self }
            },
            (Stage::SendRows, Event::Done) => Drive {
                stage: Stage::Report,
                done: (self.done + p.segments@[self.segment as int].lines) as u32,
                ..self
            },
            (Stage::SendRows, Event::NoComplete) => Drive {
                stage: Stage::Report,
                done: (self.done + p.segments@[self.segment as int].lines) as u32,
                confirmed: false,
                ..self
            },
            (Stage::Report, Event::Done) => self.at_segment(p, self.segment + 1),
            (Stage::Finish, Event::Done) => Drive { stage: Stage::Over, ..self },
            _ => self,
        }
    }

    /// `e` is the error with which an event ends the print, if it does.
    pub open spec fn is_end(self, ev: Event, e: Option<PrintError>) -> bool {
        match (self.stage, ev) {
            (_, Event::Failed(f)) => e == Some(f),
            (_, Event::Cancelled) => e == Some(PrintError::Cancelled),
            (_, Event::LinkClosed) => e == Some(PrintError::LinkLost),
            (Stage::AskStatus, Event::Reply(b)) => if b@.len() >= 7 && b@[6] == 0 {
                e is None
            } else {
                e matches Some(PrintError::Condition(c)) && exists|st: proto::PrinterStatus|
                    #![trigger proto::is_status_of(st, b@)]
                    proto::is_status_of(st, b@) && is_condition_of(c, st)
            },
            (Stage::AskPrint, Event::Reply(b)) => if b@.len() > 0 && b@[0] != 0 {
                e matches Some(PrintError::Rejected(h)) && h@ == hex_text(b@)
            } else {
                e is None
            },
            _ => e is None,
        }
    }

    fn go_to_segment(&mut self, packed: &Packed, i: usize)
        requires
            i <= packed.segments@.len(),
        ensures
            *final(self) == old(self).at_segment(*packed, i as int),
    {
        self.segment = i;
        self.stage = if i < packed.segments.len() {
            Stage::AskPrint
        } else {
            Stage::Finish
        };
    }

    /// Takes what came of the action; an error ends the print.
    pub fn on(&mut self, packed: &Packed, ev: Event) -> (r: Option<PrintError>)
        requires
            old(self).valid(*packed),
        ensures
            *final(self) == old(self).next(*packed, ev),
            old(self).is_end(ev, r),
            final(self).valid(*packed),
    {
        proof {
            lemma_sum_segments(*packed, 0, packed.segments@.len());
        }
        match ev {
            Event::Failed(e) => Some(e),
            Event::Cancelled => Some(PrintError::Cancelled),
            Event::LinkClosed => Some(PrintError::LinkLost),
            Event::Reply(b) => match self.stage {
                Stage::AskStatus => {
                    let st = proto::parse_status(b.as_slice());
                    assert(proto::is_status_of(st, b@));
                    if !st.ok {
                        return Some(PrintError::Condition(condition(&st)));
                    }
                    self.battery = st.battery;
                    self.go_to_segment(packed, 0);
                    None
                },
                Stage::AskPrint => {
                    if b.len() > 0 && b[0] != 0 {
                        return Some(PrintError::Rejected(to_hex(b.as_slice())));
                    }
                    self.stage = Stage::SendRows;
                    None
                },
                _ => None,
            },
            Event::NoComplete => {
                if self.stage == Stage::SendRows {
                    self.sent_segment(packed);
                    self.confirmed = false;
                }
                None
            },
            Event::Done => {
                match self.stage {
                    Stage::SetIntensity => {
                        self.stage = Stage::AskStatus;
                    },
                    Stage::SendRows => {
                        self.sent_segment(packed);
                    },
                    Stage::Report => {
                        assert(packed.segments@.len() == packed.segments.len());
                        let i: usize = self.segment + 1;
                        self.go_to_segment(packed, i);
                    },
                    Stage::Finish => {
                        self.stage = Stage::Over;
                    },
                    _ => {},
                }
                None
            },
        }
    }

    fn sent_segment(&mut self, packed: &Packed)
        requires
            old(self).valid(*packed),
            old(self).stage == Stage::SendRows,
        ensures
            *final(self) == (Drive {
                stage: Stage::Report,
                done: (old(self).done + packed.segments@[old(self).segment as int].lines) as u32,
                ..*old(self)
            }),
            final(self).valid(*packed),
    {
        proof {
            lemma_sum_segments(
                *packed,
                (self.segment + 1) as nat,
                packed.segments@.len(),
            );
        }
        self.done = self.done + packed.segments[self.segment].lines;
        self.stage = Stage::Report;
    }
}

/// A print that comes to its end has sent every line of every segment, in order; it is confirmed
/// only if every segment was.
pub proof fn lemma_over_sent_everything(d: Drive, p: Packed)
    requires
        d.valid(p),
        d.stage == Stage::Over,
    ensures
        d.segment == p.segments@.len(),
        d.done == sum_segments(p, p.segments@.len()),
{
}

/// Once a segment went unconfirmed, the print stays unconfirmed.
pub proof fn lemma_unconfirmed_stays(d: Drive, p: Packed, ev: Event)
    requires
        !d.confirmed,
    ensures
        !d.next(p, ev).confirmed,
{
}

/// The frame that makes the printer show itself: feed 40 lines.
pub fn identify_frame() -> (r: Vec<u8>)
    ensures
        r@ == proto::spec_command(0xA3, proto::le16(40)),
{
    proto::cmd_eject(40)
}

} // verus!
