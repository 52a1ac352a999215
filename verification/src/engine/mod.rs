//! The job store and the single worker's decisions. Every accepted job is rendered, then printed with
//! a retry loop bounded by the printer wait; the `PrinterView` is what Get-Printer-Attributes
//! reports.
//!
//! The CUPS backend must never take a failure for a completed job: failures do not use the reasons
//! `aborted-by-system` or `job-canceled-by-user`, and the printer's state is never `stopped`.
//!
//! Time is an argument: milliseconds since the engine was started, and seconds since 1970.

use vstd::prelude::*;

use crate::ipp::options::JobOptions;
use crate::raster::{is_raster, spec_sync, GrayPage, Limits};
use crate::render::imagein::{is_image, spec_is_image};
use crate::render::{Layout, Preset, RenderOptions, Tone};
use crate::text::{dec, owned, push_dec, same_str};

pub mod front;
pub mod ids;
pub mod job_laws;
pub mod laws;
pub mod ops;
pub mod prep;
pub mod run;
pub mod run_laws;
pub mod store;

pub use self::front::Engine;
pub use self::store::Store;

verus! {

/// The state of a job.
#[derive(Debug, Clone, Copy, PartialEq, Eq, Structural)]
pub enum JobState {
    Pending,
    Processing,
    Canceled,
    Aborted,
    Completed,
}

impl JobState {
    /// The job is over.
    pub open spec fn terminal(self) -> bool {
        self == JobState::Canceled || self == JobState::Aborted || self == JobState::Completed
    }

    /// Whether the job is over.
    pub fn is_terminal(self) -> (r: bool)
        ensures
            r == self.terminal(),
    {
        self == JobState::Canceled || self == JobState::Aborted || self == JobState::Completed
    }

    /// The IPP enum value.
    pub open spec fn code(self) -> i32 {
        match self {
            JobState::Pending => 3,
            JobState::Processing => 5,
            JobState::Canceled => 7,
            JobState::Aborted => 8,
            JobState::Completed => 9,
        }
    }

    /// The IPP enum value.
    pub fn as_i32(self) -> (r: i32)
        ensures
            r == self.code(),
    {
        match self {
            JobState::Pending => 3,
            JobState::Processing => 5,
            JobState::Canceled => 7,
            JobState::Aborted => 8,
            JobState::Completed => 9,
        }
    }
}

/// The name of a job's state.
pub open spec fn spec_state_name(s: JobState) -> &'static str {
    match s {
        JobState::Pending => "pending",
        JobState::Processing => "processing",
        JobState::Canceled => "canceled",
        JobState::Aborted => "aborted",
        JobState::Completed => "completed",
    }
}

/// The name of a job's state.
pub fn state_name(s: JobState) -> (r: &'static str)
    ensures
        r == spec_state_name(s),
{
    match s {
        JobState::Pending => "pending",
        JobState::Processing => "processing",
        JobState::Canceled => "canceled",
        JobState::Aborted => "aborted",
        JobState::Completed => "completed",
    }
}

/// What kind of document a job carries.
#[derive(Debug, Clone, Copy, PartialEq, Eq, Structural)]
pub enum DocFormat {
    PwgRaster,
    Image,
    Unknown,
}

impl DocFormat {
    /// The kind of a document, by its first bytes.
    pub open spec fn of(bytes: Seq<u8>) -> DocFormat {
        if spec_sync(bytes) is Some {
            DocFormat::PwgRaster
        } else if spec_is_image(bytes) {
            DocFormat::Image
        } else {
            DocFormat::Unknown
        }
    }

    /// The kind of a document, by its first bytes.
    pub fn sniff(bytes: &[u8]) -> (r: DocFormat)
        ensures
            r == DocFormat::of(bytes@),
    {
        if is_raster(bytes) {
            DocFormat::PwgRaster
        } else if is_image(bytes) {
            DocFormat::Image
        } else {
            DocFormat::Unknown
        }
    }

    /// The media type of a kind of document.
    pub open spec fn media_type(self) -> &'static str {
        match self {
            DocFormat::PwgRaster => "image/pwg-raster",
            DocFormat::Image => "image/jpeg",
            DocFormat::Unknown => "application/octet-stream",
        }
    }

    /// The media type of a kind of document.
    pub fn mime(self) -> (r: &'static str)
        ensures
            r == self.media_type(),
    {
        match self {
            DocFormat::PwgRaster => "image/pwg-raster",
            DocFormat::Image => "image/jpeg",
            DocFormat::Unknown => "application/octet-stream",
        }
    }
}

/// A moment: milliseconds since the engine was started, and seconds since 1970.
#[derive(Debug, Clone, Copy)]
pub struct Now {
    pub ms: u64,
    pub unix: i64,
}

/// Seconds since the engine was started, at least 1.
pub open spec fn spec_uptime(now: Now) -> u32 {
    if now.ms / 1000 < 1 {
        1
    } else if now.ms / 1000 > u32::MAX {
        u32::MAX
    } else {
        (now.ms / 1000) as u32
    }
}

/// Seconds since the engine was started, at least 1.
pub fn uptime(now: Now) -> (r: u32)
    ensures
        r == spec_uptime(now),
        r >= 1,
{
    let s: u64 = now.ms / 1000;
    if s < 1 {
        1
    } else if s > u32::MAX as u64 {
        u32::MAX
    } else {
        s as u32
    }
}

/// A job.
#[derive(Debug)]
pub struct Job {
    pub id: u32,
    pub opts: JobOptions,
    pub doc: Option<Vec<u8>>,
    pub format: DocFormat,
    pub k_octets: u32,
    pub state: JobState,
    pub reasons: Vec<&'static str>,
    pub message: String,
    /// Seconds since 1970.
    pub created: i64,
    pub created_uptime: u32,
    pub processing_uptime: Option<u32>,
    pub completed_uptime: Option<u32>,
    pub impressions: u32,
    pub impressions_completed: u32,
    /// Someone asked for the job to stop.
    pub cancel: bool,
    pub preview: Option<GrayPage>,
    /// Create-Job without a document yet.
    pub awaiting_document: bool,
    /// When a client last did something for this job. The timer for silent clients counts from
    /// here, because a client may stream its document for minutes.
    pub last_activity_ms: u64,
    pub model: Option<String>,
}

/// The state of the printer. It is never stopped.
#[derive(Debug, Clone, Copy, PartialEq, Eq, Structural)]
pub enum PrinterState {
    Idle,
    Processing,
    Stopped,
}

impl PrinterState {
    /// The IPP enum value.
    pub open spec fn code(self) -> i32 {
        match self {
            PrinterState::Idle => 3,
            PrinterState::Processing => 4,
            PrinterState::Stopped => 5,
        }
    }

    /// The IPP enum value.
    pub fn as_i32(self) -> (r: i32)
        ensures
            r == self.code(),
    {
        match self {
            PrinterState::Idle => 3,
            PrinterState::Processing => 4,
            PrinterState::Stopped => 5,
        }
    }
}

/// What the printer reports about itself.
#[derive(Debug)]
pub struct PrinterView {
    pub state: PrinterState,
    pub reasons: Vec<&'static str>,
    pub message: String,
    pub state_changed_uptime: u32,
    /// Seconds since 1970.
    pub state_changed_at: i64,
    pub accepting: bool,
    pub current: Option<u32>,
    pub battery: Option<u8>,
    pub last_model: Option<String>,
    /// Why the last job gave up. Shown on the health and status pages only, not as IPP reasons:
    /// those would linger on the queue after the printer came back.
    pub sticky_reasons: Vec<&'static str>,
    /// When the sticky reasons were set.
    pub sticky_since: Option<u64>,
}

/// The views of a list of words.
pub open spec fn str_views(v: Seq<&'static str>) -> Seq<Seq<char>> {
    Seq::new(v.len(), |i: int| v[i]@)
}

/// Whether two lists hold the same words.
pub fn same_words(a: &Vec<&'static str>, b: &Vec<&'static str>) -> (r: bool)
    ensures
        r == (str_views(a@) == str_views(b@)),
{
    if a.len() != b.len() {
        assert(str_views(a@).len() != str_views(b@).len());
        return false;
    }
    let mut i: usize = 0;
    while i < a.len()
        invariant
            i <= a.len(),
            a.len() == b.len(),
            forall|k: int| 0 <= k < i ==> (#[trigger] a@[k])@ == b@[k]@,
        decreases a.len() - i,
    {
        if !same_str(a[i], b[i]) {
            assert(str_views(a@)[i as int] != str_views(b@)[i as int]);
            return false;
        }
        i += 1;
    }
    assert(str_views(a@) =~= str_views(b@));
    true
}

/// A list of one word.
pub fn word(w: &'static str) -> (r: Vec<&'static str>)
    ensures
        str_views(r@) == seq![w@],
{
    let mut r: Vec<&'static str> = Vec::new();
    r.push(w);
    assert(str_views(r@) =~= seq![w@]);
    r
}

/// A list of two words.
pub fn two_words(a: &'static str, b: &'static str) -> (r: Vec<&'static str>)
    ensures
        str_views(r@) == seq![a@, b@],
{
    let mut r: Vec<&'static str> = Vec::new();
    r.push(a);
    r.push(b);
    assert(str_views(r@) =~= seq![a@, b@]);
    r
}

/// An empty list of words.
pub fn no_words() -> (r: Vec<&'static str>)
    ensures
        str_views(r@) == Seq::<Seq<char>>::empty(),
{
    let r: Vec<&'static str> = Vec::new();
    assert(str_views(r@) =~= Seq::<Seq<char>>::empty());
    r
}

impl PrinterView {
    /// The state, reasons and message are these.
    pub open spec fn shows(self, state: PrinterState, reasons: Seq<Seq<char>>, message: Seq<char>) -> bool {
        self.state == state && str_views(self.reasons@) == reasons && self.message@ == message
    }

    /// `new` is this view set to a state, reasons and message: the time of the last change moves only
    /// where something changes, and nothing else does.
    pub open spec fn is_set(
        self,
        new: PrinterView,
        now: Now,
        state: PrinterState,
        reasons: Seq<Seq<char>>,
        message: Seq<char>,
    ) -> bool {
        &&& new.shows(state, reasons, message)
        &&& if self.shows(state, reasons, message) {
            new == self
        } else {
            &&& new == (PrinterView {
                state: new.state,
                reasons: new.reasons,
                message: new.message,
                state_changed_uptime: spec_uptime(now),
                state_changed_at: now.unix,
                ..self
            })
        }
    }

    /// Sets state, reasons and message.
    pub fn set(
        &mut self,
        now: Now,
        state: PrinterState,
        reasons: Vec<&'static str>,
        message: String,
    )
        ensures
            old(self).is_set(*final(self), now, state, str_views(reasons@), message@),
    {
        if self.state != state || !same_words(&self.reasons, &reasons) || !same_str(
            self.message.as_str(),
            message.as_str(),
        ) {
            self.state = state;
            self.reasons = reasons;
            self.message = message;
            self.state_changed_uptime = uptime(now);
            self.state_changed_at = now.unix;
        }
    }
}

/// Terminal jobs that are kept.
pub const KEEP_TERMINAL: usize = 100;

/// Previews that are kept.
pub const KEEP_PREVIEWS: usize = 5;

/// Job ids count from here (the start of 2025) when no counter was kept, so that ids stay monotonic
/// across restarts: a client still polling an old job must never see a new job under its id.
pub const JOB_ID_EPOCH: u64 = 1_735_689_600;

/// How the engine works. Times are in milliseconds.
#[derive(Debug)]
pub struct EngineConfig {
    pub printer_wait_ms: u64,
    pub queue_max: usize,
    pub max_document_bytes: usize,
    pub max_copies: u32,
    pub render: RenderOptions,
    pub limits: Limits,
    /// Grace given to the current job on shutdown (once it is printing) before it is cancelled.
    pub shutdown_grace_ms: u64,
    /// A created job without document activity for this long is aborted.
    pub stale_document_ms: u64,
    /// How long the reasons of the last failure stay on the health page.
    pub error_ttl_ms: u64,
    /// After cancelling an attempt, how long the driver gets to stop by itself.
    pub coop_grace_ms: u64,
    /// Hard cap on one print attempt.
    pub attempt_cap_ms: u64,
    /// Where the next id is kept; `None` for ids by time only.
    pub state_dir: Option<String>,
}

/// How the engine works where nothing else is asked for.
pub open spec fn is_usual(c: EngineConfig) -> bool {
    &&& c.printer_wait_ms == 120_000
    &&& c.queue_max == 16
    &&& c.max_document_bytes == 64 * 1024 * 1024
    &&& c.max_copies == 10
    &&& c.shutdown_grace_ms == 15_000
    &&& c.stale_document_ms == 120_000
    &&& c.error_ttl_ms == 600_000
    &&& c.coop_grace_ms == 5_000
    &&& c.attempt_cap_ms == 900_000
    &&& c.state_dir is None
    &&& c.render == (RenderOptions {
        preset: Preset::Default,
        tone: Tone::BlackWhite,
        layout: Layout::Auto,
        dither_override: None,
        trim_override: None,
        intensity_override: None,
        rotate_180: true,
        width_px: 384,
        max_lines_total: 8000,
        max_lines_per_request: 4000,
        page_gap_lines: 24,
    })
    &&& c.limits == (Limits {
        max_pages: 32,
        max_width: 8192,
        max_height: 65535,
        max_pixels_total: 400_000_000,
    })
}

impl Default for EngineConfig {
    fn default() -> (r: Self)
        ensures
            is_usual(r),
    {
        EngineConfig {
            printer_wait_ms: 120_000,
            queue_max: 16,
            max_document_bytes: 64 * 1024 * 1024,
            max_copies: 10,
            render: RenderOptions::default(),
            limits: Limits::default(),
            shutdown_grace_ms: 15_000,
            stale_document_ms: 120_000,
            error_ttl_ms: 600_000,
            coop_grace_ms: 5_000,
            attempt_cap_ms: 900_000,
            state_dir: None,
        }
    }
}

/// The first job id of a run: by the time, or the kept counter, whichever is greater.
pub open spec fn spec_initial_job_id(unix: int, kept: Option<nat>) -> int {
    let t = unix - JOB_ID_EPOCH;
    let by_time = if t < 1 {
        1
    } else if t > i32::MAX / 2 {
        i32::MAX / 2
    } else {
        t
    };
    match kept {
        Some(k) => if k > by_time {
            k as int
        } else {
            by_time
        },
        None => by_time,
    }
}

/// The first job id of a run. `kept` is the text of the kept counter, where there is one.
pub fn initial_job_id(unix: i64, kept: Option<&str>) -> (r: u32)
    ensures
        r == spec_initial_job_id(
            unix as int,
            match kept {
                Some(t) => crate::text::parse_dec(crate::text::trim(t@), u32::MAX as nat),
                None => None,
            },
        ),
        r >= 1,
{
    let t: i128 = unix as i128 - 1_735_689_600;
    let by_time: u32 = if t < 1 {
        1
    } else if t > 1_073_741_823 {
        1_073_741_823
    } else {
        t as u32
    };
    match kept {
        Some(text) => {
            let cs = crate::text::chars_of(text);
            match crate::text::parse_dec_chars(
                crate::text::trim_chars(cs.as_slice()),
                u32::MAX as u64,
            ) {
                Some(k) => if k > by_time as u64 {
                    k as u32
                } else {
                    by_time
                },
                None => by_time,
            }
        },
        None => by_time,
    }
}

/// What is kept of the counter: the next id, in a line.
pub open spec fn spec_next_id_text(next_id: u32) -> Seq<char> {
    crate::text::dec(next_id as nat).push('\n')
}

/// What is kept of the counter.
pub fn next_id_text(next_id: u32) -> (r: String)
    ensures
        r@ == spec_next_id_text(next_id),
{
    let mut r = String::new();
    crate::text::push_dec(&mut r, next_id as u64);
    r.push('\n');
    assert(r@ =~= spec_next_id_text(next_id));
    r
}

/// Work for the single worker.
#[derive(Debug, Clone, Copy, PartialEq, Eq, Structural)]
pub enum Work {
    Print(u32),
    Identify,
}

/// Why a job or document is not accepted.
#[derive(Debug, Clone, Copy, PartialEq, Eq, Structural)]
pub enum SubmitError {
    Busy(usize),
    TooLarge(usize),
    BadFormat,
    NotAccepting,
    NotFound(u32),
    HasDocument(u32),
    Empty,
}

impl SubmitError {
    /// The error's text.
    pub open spec fn text(self) -> Seq<char> {
        match self {
            SubmitError::Busy(n) => "printer is busy: "@ + dec(n as nat) + " jobs already queued"@,
            SubmitError::TooLarge(n) => "document too large ("@ + dec(n as nat) + " bytes)"@,
            SubmitError::BadFormat => "document format not supported"@,
            SubmitError::NotAccepting => "printer is shutting down"@,
            SubmitError::NotFound(id) => "job "@ + dec(id as nat) + " not found"@,
            SubmitError::HasDocument(id) => "job "@ + dec(id as nat) + " already has a document"@,
            SubmitError::Empty => "empty document"@,
        }
    }

    /// The error's text.
    pub fn message(&self) -> (r: String)
        ensures
            r@ == self.text(),
    {
        match self {
            SubmitError::Busy(n) => {
                let mut r = owned("printer is busy: ");
                push_dec(&mut r, *n as u64);
                r.push_str(" jobs already queued");
                r
            },
            SubmitError::TooLarge(n) => {
                let mut r = owned("document too large (");
                push_dec(&mut r, *n as u64);
                r.push_str(" bytes)");
                r
            },
            SubmitError::BadFormat => owned("document format not supported"),
            SubmitError::NotAccepting => owned("printer is shutting down"),
            SubmitError::NotFound(id) => {
                let mut r = owned("job ");
                push_dec(&mut r, *id as u64);
                r.push_str(" not found");
                r
            },
            SubmitError::HasDocument(id) => {
                let mut r = owned("job ");
                push_dec(&mut r, *id as u64);
                r.push_str(" already has a document");
                r
            },
            SubmitError::Empty => owned("empty document"),
        }
    }
}

/// What came of a cancel request.
#[derive(Debug, Clone, Copy, PartialEq, Eq, Structural)]
pub enum CancelOutcome {
    NotFound,
    AlreadyTerminal,
    Canceled,
}

/// Snapshot for the health page.
#[derive(Debug)]
pub struct Health {
    pub version: &'static str,
    pub uptime_s: u64,
    pub printer_state: &'static str,
    pub reasons: Vec<&'static str>,
    pub message: String,
    pub accepting: bool,
    pub queue_depth: u32,
    pub current_job: Option<u32>,
    pub jobs_total: u64,
    pub battery: Option<u8>,
    pub last_model: Option<String>,
    pub last_job: Option<LastJob>,
}

/// The last job that is over.
#[derive(Debug)]
pub struct LastJob {
    pub id: u32,
    pub state: &'static str,
    pub message: String,
    pub name: String,
}

} // verus!
