//! `--fake-printer DIR`: a printer that "prints" to files, for tests without hardware. Its behaviour
//! is scripted by the file `state` in its directory:
//!   ok (default), off, no-paper, overheated, low-battery, adapter-off, slow,
//!   flaky:N (fail the next N prints).
//! Each print is a state machine; the caller performs the actions and hands back what came of them.

use vstd::prelude::*;
use vstd::slice::slice_subrange;

use crate::models::{family_caps, spec_family_caps, Family};
use crate::printer::{prefixed, Condition, Phase, PreparedJob, PrintError, PrintReport, Progress};
use crate::protocol::PrintMode;
use crate::render::packing::spec_mode_for;
use crate::render::{mode_for, Layout};
use crate::text::{
    char_is_alnum, chars_of, copy_chars, dec, is_alnum, is_text, lower_char, owned, parse_dec,
    parse_dec_chars, push_dec, split, split_on, starts_with, string_of, strip_prefix, texts, to_lower,
    trim, trim_chars,
};

verus! {

/// The fake printer.
#[derive(Debug)]
pub struct FakePrinter {
    pub dir: String,
    /// The family that it pretends to be (MXW01 unless told otherwise).
    pub family: Family,
    pub identify_count: u32,
}

impl FakePrinter {
    /// A fake MXW01 in a directory.
    pub fn new(dir: String) -> (r: FakePrinter)
        ensures
            r.dir == dir,
            r.family == Family::Mxw01,
            r.identify_count == 0,
    {
        FakePrinter { dir, family: Family::Mxw01, identify_count: 0 }
    }

    /// Counts an identification, and gives the name of the marker file to write.
    pub fn next_identify(&mut self) -> (r: String)
        requires
            old(self).identify_count < u32::MAX,
        ensures
            final(self).identify_count == old(self).identify_count + 1,
            final(self).dir == old(self).dir,
            final(self).family == old(self).family,
            r@ == "identify-"@ + dec(final(self).identify_count as nat) + ".txt"@,
    {
        self.identify_count = self.identify_count + 1;
        let mut r = owned("identify-");
        push_dec(&mut r, self.identify_count as u64);
        r.push_str(".txt");
        r
    }
}

/// The scripted state: the trimmed text of the state file, or "ok" where there is none.
pub open spec fn state_of(file: Option<Seq<char>>) -> Seq<char> {
    match file {
        Some(s) => trim(s),
        None => "ok"@,
    }
}

/// The scripted state.
pub fn state_text(file: Option<&str>) -> (r: String)
    ensures
        r@ == state_of(crate::models::opt_text(file)),
{
    match file {
        Some(s) => {
            let cs = chars_of(s);
            string_of(trim_chars(cs.as_slice()))
        },
        None => owned("ok"),
    }
}

/// What the script does to an attempt.
#[derive(Debug)]
pub enum Scripted {
    /// Nothing: the attempt goes on.
    Proceed,
    /// The attempt fails.
    Fail(PrintError),
    /// The attempt panics (a panic must not end the worker).
    Panic,
}

/// `c` is the fake printer's condition.
pub open spec fn is_cond(c: Condition, ok: bool, key: Option<Seq<char>>, message: Seq<char>) -> bool {
    &&& c.ok == ok
    &&& c.state@ == if ok {
        "standby"@
    } else {
        "error"@
    }
    &&& c.battery == Some(88u8)
    &&& c.temperature == Some(30u8)
    &&& match key {
        Some(k) => c.error_is(k),
        None => c.error is None,
    }
    &&& c.message@ == message
}

fn failing(key: &str, message: &str) -> (r: Scripted)
    ensures
        r matches Scripted::Fail(PrintError::Condition(c)) && is_cond(
            c,
            false,
            Some(key@),
            message@,
        ),
{
    Scripted::Fail(
        PrintError::Condition(
            Condition {
                ok: false,
                state: owned("error"),
                battery: Some(88),
                temperature: Some(30),
                error: Some(owned(key)),
                message: owned(message),
            },
        ),
    )
}

/// The number of failures left in a state `flaky:N`; 0 where no number can be read.
pub open spec fn flaky_left(state: Seq<char>) -> nat {
    match parse_dec(trim(state.skip("flaky:"@.len() as int)), u32::MAX as nat) {
        Some(n) => n,
        None => 0,
    }
}

/// What the script does to an attempt, by the state.
pub open spec fn is_scripted(r: Scripted, state: Seq<char>) -> bool {
    if state == "off"@ {
        r == Scripted::Fail(PrintError::NotFound)
    } else if state == "no-paper"@ {
        r matches Scripted::Fail(PrintError::Condition(c)) && is_cond(
            c,
            false,
            Some("no-paper"@),
            "The cat printer is out of paper."@,
        )
    } else if state == "overheated"@ {
        r matches Scripted::Fail(PrintError::Condition(c)) && is_cond(
            c,
            false,
            Some("overheated"@),
            "The cat printer is too hot. Give it a minute."@,
        )
    } else if state == "low-battery"@ {
        r matches Scripted::Fail(PrintError::Condition(c)) && is_cond(
            c,
            false,
            Some("low-battery"@),
            "The cat printer battery is low. Charge it."@,
        )
    } else if state == "adapter-off"@ {
        r == Scripted::Fail(PrintError::AdapterOff)
    } else if state == "panic"@ {
        r == Scripted::Panic
    } else if starts_with(state, "flaky:"@) && flaky_left(state) > 0 {
        r matches Scripted::Fail(PrintError::ConnectFailed { attempts, last, hint }) && attempts == 3
            && last@ == "le-connection-abort-by-local"@ && hint@ == Seq::<char>::empty()
    } else {
        r == Scripted::Proceed
    }
}

/// What the state becomes after an attempt, where it changes: one flaky failure is used up.
pub open spec fn state_after(state: Seq<char>) -> Option<Seq<char>> {
    if starts_with(state, "flaky:"@) && state != "off"@ {
        if flaky_left(state) == 0 {
            Some("ok"@)
        } else {
            Some("flaky:"@ + dec((flaky_left(state) - 1) as nat))
        }
    } else {
        None
    }
}

/// What the script does to an attempt, and what the state becomes, where it changes.
pub fn scripted_failure(state: &str) -> (r: (Scripted, Option<String>))
    ensures
        ({
            let (s, after) = r;
            &&& is_scripted(s, state@)
            &&& after is Some == (state_after(state@) is Some)
            &&& after is Some ==> (after->0)@ == state_after(state@)->0
        }),
{
    proof {
        reveal_strlit("flaky:");
        reveal_strlit("off");
        reveal_strlit("no-paper");
        reveal_strlit("overheated");
        reveal_strlit("low-battery");
        reveal_strlit("adapter-off");
        reveal_strlit("panic");
        lemma_not_flaky(state@);
    }
    let cs = chars_of(state);
    let t = cs.as_slice();
    if is_text(t, "off") {
        return (Scripted::Fail(PrintError::NotFound), None);
    }
    if is_text(t, "no-paper") {
        return (failing("no-paper", "The cat printer is out of paper."), None);
    }
    if is_text(t, "overheated") {
        return (failing("overheated", "The cat printer is too hot. Give it a minute."), None);
    }
    if is_text(t, "low-battery") {
        return (failing("low-battery", "The cat printer battery is low. Charge it."), None);
    }
    if is_text(t, "adapter-off") {
        return (Scripted::Fail(PrintError::AdapterOff), None);
    }
    if is_text(t, "panic") {
        return (Scripted::Panic, None);
    }
    match strip_prefix(t, "flaky:") {
        Some(rest) => {
            let n: u64 = match parse_dec_chars(trim_chars(rest), u32::MAX as u64) {
                Some(n) => n,
                None => 0,
            };
            assert(n == flaky_left(state@));
            if n == 0 {
                (Scripted::Proceed, Some(owned("ok")))
            } else {
                let mut after = owned("flaky:");
                push_dec(&mut after, n - 1);
                (
                    Scripted::Fail(
                        PrintError::ConnectFailed {
                            attempts: 3,
                            last: owned("le-connection-abort-by-local"),
                            hint: String::new(),
                        },
                    ),
                    Some(after),
                )
            }
        },
        None => (Scripted::Proceed, None),
    }
}

/// None of the fixed states reads as a flaky one.
proof fn lemma_not_flaky(s: Seq<char>)
    ensures
        s == "off"@ || s == "no-paper"@ || s == "overheated"@ || s == "low-battery"@ || s
            == "adapter-off"@ || s == "panic"@ ==> !starts_with(s, "flaky:"@),
{
    reveal_strlit("flaky:");
    reveal_strlit("off");
    reveal_strlit("no-paper");
    reveal_strlit("overheated");
    reveal_strlit("low-battery");
    reveal_strlit("adapter-off");
    reveal_strlit("panic");
    if starts_with(s, "flaky:"@) {
        assert(s.subrange(0, 6)[0] == 'f');
        assert(s[0] == 'f');
        assert(s.subrange(0, 6)[1] == 'l');
    }
}

/// The answer to a status query under a script: conditions are reported, other failures are errors.
pub fn status_of(s: Scripted) -> (r: Result<Condition, PrintError>)
    requires
        !(s is Panic),
    ensures
        match s {
            Scripted::Fail(PrintError::Condition(c)) => r == Ok::<Condition, PrintError>(c),
            Scripted::Fail(e) => r == Err::<Condition, PrintError>(e),
            _ => r matches Ok(c) && is_cond(
                c,
                true,
                None,
                "Printer ready (standby, battery 88%)"@,
            ),
        },
{
    match s {
        Scripted::Fail(PrintError::Condition(c)) => Ok(c),
        Scripted::Fail(e) => Err(e),
        _ => Ok(
            Condition {
                ok: true,
                state: owned("standby"),
                battery: Some(88),
                temperature: Some(30),
                error: None,
                message: owned("Printer ready (standby, battery 88%)"),
            },
        ),
    }
}

// ------------------------------------------------------------------ file names

/// A name's characters for a file name: small letters and digits, anything else a dash.
pub open spec fn slug_chars(name: Seq<char>) -> Seq<char> {
    Seq::new(
        name.len(),
        |i: int|
            if is_alnum(name[i]) {
                lower_char(name[i])
            } else {
                '-'
            },
    )
}

/// The non-empty parts, with one dash between two of them.
pub open spec fn join_dashed(parts: Seq<Seq<char>>) -> Seq<char>
    decreases parts.len(),
{
    if parts.len() == 0 {
        Seq::empty()
    } else {
        let before = join_dashed(parts.drop_last());
        if parts.last().len() == 0 {
            before
        } else if before.len() == 0 {
            parts.last()
        } else {
            before.push('-') + parts.last()
        }
    }
}

/// A name for use in a file name: runs of other characters become one dash, none at the ends; at most
/// 40 characters; "job" where nothing is left.
pub open spec fn spec_slugify(name: Seq<char>) -> Seq<char> {
    let s = join_dashed(split(slug_chars(name), '-'));
    if s.len() == 0 {
        "job"@
    } else if s.len() > 40 {
        s.take(40)
    } else {
        s
    }
}

/// A name for use in a file name.
pub fn slugify(name: &str) -> (r: String)
    ensures
        r@ == spec_slugify(name@),
{
    let cs = chars_of(name);
    let mut mapped: Vec<char> = Vec::new();
    let mut i: usize = 0;
    while i < cs.len()
        invariant
            i <= cs.len(),
            cs@ == name@,
            mapped@ == slug_chars(name@.take(i as int)),
        decreases cs.len() - i,
    {
        mapped.push(
            if char_is_alnum(cs[i]) {
                to_lower(cs[i])
            } else {
                '-'
            },
        );
        i += 1;
        assert(mapped@ =~= slug_chars(name@.take(i as int)));
    }
    assert(name@.take(name@.len() as int) =~= name@);
    let parts = split_on(mapped.as_slice(), '-');
    let ghost views = texts(parts@);
    let mut s: Vec<char> = Vec::new();
    let mut k: usize = 0;
    assert(views.take(0) =~= Seq::<Seq<char>>::empty());
    while k < parts.len()
        invariant
            k <= parts.len(),
            views == texts(parts@),
            s@ == join_dashed(views.take(k as int)),
        decreases parts.len() - k,
    {
        assert(views.take(k as int + 1).drop_last() =~= views.take(k as int));
        assert(views.take(k as int + 1).last() == parts@[k as int]@);
        if parts[k].len() > 0 {
            if s.len() > 0 {
                s.push('-');
            }
            let mut part = copy_chars(parts[k].as_slice());
            let ghost before = s@;
            s.append(&mut part);
            assert(before.len() == 0 ==> s@ =~= parts@[k as int]@);
        }
        k += 1;
    }
    assert(views.take(views.len() as int) =~= views);
    if s.len() == 0 {
        owned("job")
    } else if s.len() > 40 {
        let cut = slice_subrange(s.as_slice(), 0, 40);
        assert(cut@ =~= s@.take(40));
        string_of(cut)
    } else {
        string_of(s.as_slice())
    }
}

/// `job-<id>` followed by `tail`.
pub open spec fn job_file(id: u32, tail: Seq<char>) -> Seq<char> {
    "job-"@ + dec(id as nat) + tail
}

/// The name of a job's file.
pub fn job_file_name(id: u32, tail: &str) -> (r: String)
    ensures
        r@ == job_file(id, tail@),
{
    let mut r = owned("job-");
    push_dec(&mut r, id as u64);
    r.push_str(tail);
    r
}

// ------------------------------------------------------------------ a print

/// Where a fake print stands.
#[derive(Debug, Clone, Copy, PartialEq, Eq, Structural)]
pub enum Stage {
    /// The search is to be reported; then 50 ms pass.
    Search,
    /// The script is to be read.
    Script,
    /// The preparation is to be reported.
    Prepare,
    /// The strip is to be packed.
    Pack,
    /// The script is to be read once more, for its speed.
    Speed,
    /// A step of a copy is to be reported; then a fifth of a copy's time passes.
    Step,
    /// The output is to be written.
    Save,
    /// The end is to be reported.
    Finish,
    /// Nothing is left to do.
    Over,
}

/// Steps in which a copy is reported.
pub const STEPS: u32 = 5;

/// The state of a fake print.
#[derive(Debug, Clone, Copy, PartialEq, Eq, Structural)]
pub struct FakeRun {
    pub stage: Stage,
    pub family: Family,
    pub copies: u32,
    pub copy: u32,
    pub step: u32,
    /// Lines and segments of the packed image.
    pub lines: u32,
    pub segments: u32,
    /// Nanoseconds that a step takes.
    pub step_ns: u64,
}

/// What is to be done next.
#[derive(Debug)]
pub enum FakeAction {
    /// Report progress, then let this time pass; a cancelled job stops here.
    Report { progress: Progress, sleep_ns: u64 },
    /// Read the state file.
    ReadState,
    /// Pack the job's strip.
    Pack { mode: PrintMode, width_px: u32 },
    /// Write the picture (twice) and the job's description.
    Save { png: String, copy_of: String, meta: String },
    /// The print is over.
    Done(PrintReport),
}

/// What came of an action.
#[derive(Debug)]
pub enum FakeEvent {
    /// It was done.
    Done,
    /// The scripted state.
    State(String),
    /// The strip was packed.
    Packed { lines: u32, segments: u32 },
    /// The job was cancelled.
    Cancelled,
    /// It failed.
    Failed(PrintError),
}

/// Milliseconds that a copy takes: 15 s where the script says "slow", else by its lines, at most
/// 3 s.
pub open spec fn copy_ms(slow: bool, lines: int) -> int {
    if slow {
        15000
    } else if 200 + lines * 1000 / 1500 < 3000 {
        200 + lines * 1000 / 1500
    } else {
        3000
    }
}

/// The percentage at step `s` of copy `c`.
pub open spec fn step_percent(c: int, s: int, copies: int) -> int {
    (c * STEPS + s) * 90 / (copies * STEPS) + 5
}

/// The family's name on a fake report.
pub open spec fn fake_model(f: Family) -> &'static str {
    match f {
        Family::Mxw01 => "MXW01 (fake)",
        Family::Classic => "GB01 (fake)",
    }
}

/// The family's name in a job's description.
pub fn model_name(f: Family) -> (r: &'static str)
    ensures
        r == fake_model(f),
{
    match f {
        Family::Mxw01 => "MXW01 (fake)",
        Family::Classic => "GB01 (fake)",
    }
}

/// The depth's name in a job's description.
pub fn depth_name(mode: PrintMode) -> (r: &'static str)
    ensures
        r == match mode {
            PrintMode::Mono => "1bpp",
            PrintMode::Gray4 => "4bpp",
        },
{
    match mode {
        PrintMode::Mono => "1bpp",
        PrintMode::Gray4 => "4bpp",
    }
}

/// The layout's name in a job's description.
pub fn layout_name(l: Layout) -> (r: &'static str)
    ensures
        r == match l {
            Layout::Auto => "Auto",
            Layout::Tape => "Tape",
            Layout::Sheet => "Sheet",
        },
{
    match l {
        Layout::Auto => "Auto",
        Layout::Tape => "Tape",
        Layout::Sheet => "Sheet",
    }
}

impl FakeRun {
    /// The state is one that a print can be in.
    pub open spec fn valid(self) -> bool {
        &&& self.copies >= 1
        &&& self.copy <= self.copies
        &&& self.step < STEPS
        &&& self.stage == Stage::Step ==> self.copy < self.copies
    }

    /// The start of a print.
    pub fn new(family: Family, copies: u32) -> (r: FakeRun)
        ensures
            r.valid(),
            r == (FakeRun {
                stage: Stage::Search,
                family,
                copies: if copies < 1 {
                    1
                } else {
                    copies
                },
                copy: 0,
                step: 0,
                lines: 0,
                segments: 0,
                step_ns: 0,
            }),
    {
        FakeRun {
            stage: Stage::Search,
            family,
            copies: if copies < 1 {
                1
            } else {
                copies
            },
            copy: 0,
            step: 0,
            lines: 0,
            segments: 0,
            step_ns: 0,
        }
    }

    /// `a` reports this progress and sleeps this long.
    pub open spec fn reports(
        a: FakeAction,
        phase: Phase,
        percent: int,
        message: Seq<char>,
        sleep_ns: int,
    ) -> bool {
        &&& a matches FakeAction::Report { progress, sleep_ns: ns }
        &&& progress.phase == phase
        &&& progress.percent == percent
        &&& progress.message@ == message
        &&& ns == sleep_ns
    }

    /// `a` is what is to be done in this state for this job.
    pub open spec fn is_action(self, job: PreparedJob, a: FakeAction) -> bool {
        match self.stage {
            Stage::Search => Self::reports(
                a,
                Phase::Searching,
                0,
                "Looking for the cat printer (fake)"@,
                50_000_000,
            ),
            Stage::Script => a is ReadState,
            Stage::Prepare => Self::reports(
                a,
                Phase::Preparing,
                5,
                "Preparing image (fake)"@,
                0,
            ),
            Stage::Pack => a == (FakeAction::Pack {
                mode: spec_mode_for(
                    job.opts.tone,
                    spec_family_caps(self.family).grayscale_4bpp,
                ),
                width_px: spec_family_caps(self.family).width_px,
            }),
            Stage::Speed => a is ReadState,
            Stage::Step => Self::reports(
                a,
                Phase::Printing,
                step_percent(self.copy as int, self.step as int, self.copies as int),
                "Printing (fake) copy "@ + dec((self.copy + 1) as nat) + "/"@ + dec(
                    self.copies as nat,
                ),
                self.step_ns as int,
            ),
            Stage::Save => a matches FakeAction::Save { png, copy_of, meta } && png@ == job_file(
                job.id,
                "-"@ + spec_slugify(job.name@) + ".png"@,
            ) && copy_of@ == "last.png"@ && meta@ == job_file(job.id, ".json"@),
            Stage::Finish => Self::reports(a, Phase::Finishing, 100, "Printed (fake)"@, 0),
            Stage::Over => a matches FakeAction::Done(rep) && rep.model@ == "MXW01 (fake)"@
                && rep.family == Some(self.family) && rep.lines == self.lines && rep.segments
                == self.segments && rep.copies == self.copies && rep.complete_confirmed && rep.mtu
                == Some(247u16) && rep.battery == Some(88u8),
        }
    }

    /// What is to be done in this state; `elapsed_ms` is the time since the print began.
    pub fn action(&self, job: &PreparedJob, elapsed_ms: u64) -> (r: FakeAction)
        requires
            self.valid(),
        ensures
            self.is_action(*job, r),
            r matches FakeAction::Done(rep) ==> rep.elapsed_ms == elapsed_ms,
    {
        match self.stage {
            Stage::Search => FakeAction::Report {
                progress: Progress {
                    phase: Phase::Searching,
                    percent: 0,
                    message: owned("Looking for the cat printer (fake)"),
                },
                sleep_ns: 50_000_000,
            },
            Stage::Script => FakeAction::ReadState,
            Stage::Prepare => FakeAction::Report {
                progress: Progress {
                    phase: Phase::Preparing,
                    percent: 5,
                    message: owned("Preparing image (fake)"),
                },
                sleep_ns: 0,
            },
            Stage::Pack => {
                let caps = family_caps(self.family);
                FakeAction::Pack {
                    mode: mode_for(job.opts.tone, caps.grayscale_4bpp),
                    width_px: caps.width_px,
                }
            },
            Stage::Speed => FakeAction::ReadState,
            Stage::Step => {
                let at: u64 = self.copy as u64 * 5 + self.step as u64;
                let all: u64 = self.copies as u64 * 5;
                let p: u64 = at * 90 / all;
                assert(p < 90) by (nonlinear_arith)
                    requires
                        p == at * 90 / all as int,
                        at < all,
                ;
                let mut message = owned("Printing (fake) copy ");
                push_dec(&mut message, self.copy as u64 + 1);
                message.push_str("/");
                push_dec(&mut message, self.copies as u64);
                FakeAction::Report {
                    progress: Progress { phase: Phase::Printing, percent: p as u8 + 5, message },
                    sleep_ns: self.step_ns,
                }
            },
            Stage::Save => {
                let mut tail = prefixed("-", slugify(job.name.as_str()).as_str());
                tail.push_str(".png");
                FakeAction::Save {
                    png: job_file_name(job.id, tail.as_str()),
                    copy_of: owned("last.png"),
                    meta: job_file_name(job.id, ".json"),
                }
            },
            Stage::Finish => FakeAction::Report {
                progress: Progress {
                    phase: Phase::Finishing,
                    percent: 100,
                    message: owned("Printed (fake)"),
                },
                sleep_ns: 0,
            },
            Stage::Over => FakeAction::Done(
                PrintReport {
                    model: owned("MXW01 (fake)"),
                    family: Some(self.family),
                    lines: self.lines,
                    segments: self.segments,
                    copies: self.copies,
                    complete_confirmed: true,
                    mtu: Some(247),
                    battery: Some(88),
                    elapsed_ms,
                },
            ),
        }
    }

    /// The state after an event; where the event ends the print, the state stays.
    pub open spec fn next(self, ev: FakeEvent) -> FakeRun {
        match (self.stage, ev) {
            (Stage::Search, FakeEvent::Done) => FakeRun { stage: Stage::Script, ..self },
            (Stage::Script, FakeEvent::State(s)) => if is_scripted(Scripted::Proceed, s@) {
                FakeRun { stage: Stage::Prepare, ..self }
            } else {
                self
            },
            (Stage::Prepare, FakeEvent::Done) => FakeRun { stage: Stage::Pack, ..self },
            (Stage::Pack, FakeEvent::Packed { lines, segments }) => FakeRun {
                stage: Stage::Speed,
                lines,
                segments,
                ..self
            },
            (Stage::Speed, FakeEvent::State(s)) => FakeRun {
                stage: Stage::Step,
                step_ns: (copy_ms(s@ == "slow"@, self.lines as int) * 200_000) as u64,
                copy: 0,
                step: 0,
                ..self
            },
            (Stage::Step, FakeEvent::Done) => if self.step + 1 < STEPS {
                FakeRun { step: (self.step + 1) as u32, ..self }
            } else if self.copy + 1 < self.copies {
                FakeRun { step: 0, copy: (self.copy + 1) as u32, ..self }
            } else {
                FakeRun { step: 0, copy: (self.copy + 1) as u32, stage: Stage::Save, ..self }
            },
            (Stage::Save, FakeEvent::Done) => FakeRun { stage: Stage::Finish, ..self },
            (Stage::Finish, FakeEvent::Done) => FakeRun { stage: Stage::Over, ..self },
            _ => self,
        }
    }

    /// `e` is how an event ends the print, if it does: with an error, or in a panic.
    pub open spec fn is_end(self, ev: FakeEvent, e: Scripted) -> bool {
        match (self.stage, ev) {
            (_, FakeEvent::Failed(f)) => e == Scripted::Fail(f),
            (_, FakeEvent::Cancelled) => e == Scripted::Fail(PrintError::Cancelled),
            (Stage::Script, FakeEvent::State(s)) => is_scripted(e, s@),
            _ => e == Scripted::Proceed,
        }
    }

    /// Takes what came of the action. The result says whether the print goes on, and what the state
    /// file becomes, where it changes.
    pub fn on(&mut self, ev: FakeEvent) -> (r: (Scripted, Option<String>))
        requires
            old(self).valid(),
        ensures
            *final(self) == old(self).next(ev),
            final(self).valid(),
            ({
                let (s, after) = r;
                &&& old(self).is_end(ev, s)
                &&& match (old(self).stage, ev) {
                    (Stage::Script, FakeEvent::State(t)) => after is Some == (state_after(t@) is Some)
                        && (after is Some ==> (after->0)@ == state_after(t@)->0),
                    _ => after is None,
                }
            }),
    {
        match ev {
            FakeEvent::Failed(e) => (Scripted::Fail(e), None),
            FakeEvent::Cancelled => (Scripted::Fail(PrintError::Cancelled), None),
            FakeEvent::State(t) => match self.stage {
                Stage::Script => {
                    let (s, after) = scripted_failure(t.as_str());
                    if let Scripted::Proceed = s {
                        self.stage = Stage::Prepare;
                    }
                    (s, after)
                },
                Stage::Speed => {
                    let cs = chars_of(t.as_str());
                    let ms: u64 = if is_text(cs.as_slice(), "slow") {
                        15000
                    } else if 200 + self.lines as u64 * 1000 / 1500 < 3000 {
                        200 + self.lines as u64 * 1000 / 1500
                    } else {
                        3000
                    };
                    self.step_ns = ms * 200_000;
                    self.copy = 0;
                    self.step = 0;
                    self.stage = Stage::Step;
                    (Scripted::Proceed, None)
                },
                _ => (Scripted::Proceed, None),
            },
            FakeEvent::Packed { lines, segments } => {
                if self.stage == Stage::Pack {
                    self.lines = lines;
                    self.segments = segments;
                    self.stage = Stage::Speed;
                }
                (Scripted::Proceed, None)
            },
            FakeEvent::Done => {
                match self.stage {
                    Stage::Search => {
                        self.stage = Stage::Script;
                    },
                    Stage::Prepare => {
                        self.stage = Stage::Pack;
                    },
                    Stage::Step => {
                        if self.step + 1 < STEPS {
                            self.step = self.step + 1;
                        } else {
                            self.step = 0;
                            self.copy = self.copy + 1;
                            if self.copy >= self.copies {
                                self.stage = Stage::Save;
                            }
                        }
                    },
                    Stage::Save => {
                        self.stage = Stage::Finish;
                    },
                    Stage::Finish => {
                        self.stage = Stage::Over;
                    },
                    _ => {},
                }
                (Scripted::Proceed, None)
            },
        }
    }
}

} // verus!
