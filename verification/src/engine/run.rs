//! The worker's decisions: taking a job, preparing it, printing it with retries until the printer
//! wait is over, and ending it. The caller renders, prints, sleeps and watches for cancellation.

use vstd::prelude::*;

use crate::engine::ops::{is_open_at, is_update, lemma_note_wf, lemma_reasons, lemma_update_wf};
use crate::engine::store::{is_finished, reasons_ok, Store};
use crate::engine::{
    no_words, spec_uptime, str_views, uptime, word, DocFormat, Job, JobState, Now, PrinterState,
    PrinterView,
};
use crate::printer::{prefixed, Phase, PrintError, PrintReport, Progress};
use crate::raster::GrayPage;
use crate::render::RenderOptions;
use crate::text::{dec, owned, push_dec};

verus! {

broadcast use vstd::std_specs::btree::group_btree_axioms;

// ------------------------------------------------------------------ taking a job

/// What the worker needs to work on a job.
#[derive(Debug)]
pub struct JobStart {
    pub doc: Vec<u8>,
    pub format: DocFormat,
    pub render: RenderOptions,
    pub name: String,
    pub copies: u32,
}

/// What is said of a job that the service could not finish before it stopped.
pub const RESTARTED: &'static str = "printer service restarted — print again";

/// At least one.
pub open spec fn at_least_1(n: u32) -> u32 {
    if n < 1 {
        1
    } else {
        n
    }
}

/// The job can be worked on.
pub open spec fn can_start(s: Store, id: u32, shutdown: bool) -> bool {
    is_open_at(s, id) && !s.jobs@[id].cancel && !shutdown
}

/// `st` is what the worker needs of a job.
pub open spec fn is_start(st: JobStart, s: Store, id: u32) -> bool {
    let j = s.jobs@[id];
    &&& st.doc@ == match j.doc {
        Some(d) => d@,
        None => Seq::empty(),
    }
    &&& st.format == j.format
    &&& st.render == j.opts.spec_render_options(s.cfg.render, j.format == DocFormat::Image)
    &&& st.name@ == j.opts.job_name@
    &&& st.copies == at_least_1(j.opts.copies)
}

/// `new` is the store with the job in work.
pub open spec fn is_started(old: Store, new: Store, id: u32, now: Now) -> bool {
    &&& new == (Store { jobs: new.jobs, view: new.view, ..old })
    &&& exists|q: Job| #[trigger]
        old.jobs@.insert(id, q) == new.jobs@ && str_views(q.reasons@) == seq!["job-printing"@] && q
            == (Job {
            state: JobState::Processing,
            reasons: q.reasons,
            processing_uptime: Some(spec_uptime(now)),
            doc: None,
            ..old.jobs@[id]
        })
    &&& (PrinterView { current: Some(id), sticky_since: None, ..old.view }).is_set(
        new.view,
        now,
        PrinterState::Processing,
        Seq::empty(),
        "Preparing job "@ + dec(id as nat),
    )
}

impl Store {
    /// Takes a job up. A job that is over or unknown is passed over; a cancelled one ends; while the
    /// service stops, none is begun.
    pub fn take(&mut self, id: u32, shutdown: bool, now: Now) -> (r: Option<JobStart>)
        requires
            old(self).wf(),
        ensures
            final(self).wf(),
            r is Some == can_start(*old(self), id, shutdown),
            match r {
                Some(st) => is_start(st, *old(self), id) && is_started(
                    *old(self),
                    *final(self),
                    id,
                    now,
                ),
                None => if !is_open_at(*old(self), id) {
                    *final(self) == *old(self)
                } else if old(self).jobs@[id].cancel {
                    is_finished(
                        *old(self),
                        *final(self),
                        id,
                        JobState::Canceled,
                        seq!["job-canceled-by-user"@],
                        "Canceled"@,
                        spec_uptime(now),
                    )
                } else {
                    is_finished(
                        *old(self),
                        *final(self),
                        id,
                        JobState::Aborted,
                        seq!["job-completed-with-errors"@],
                        RESTARTED@,
                        spec_uptime(now),
                    )
                },
            },
    {
        proof {
            lemma_reasons();
        }
        let cancelled = match self.jobs.get(&id) {
            Some(j) => {
                if j.state.is_terminal() {
                    return None;
                }
                j.cancel
            },
            None => return None,
        };
        if cancelled {
            self.finish(
                id,
                JobState::Canceled,
                word("job-canceled-by-user"),
                owned("Canceled"),
                now,
            );
            return None;
        }
        if shutdown {
            self.finish(
                id,
                JobState::Aborted,
                word("job-completed-with-errors"),
                owned(RESTARTED),
                now,
            );
            return None;
        }
        let ghost m = self.jobs@;
        match self.jobs.remove(&id) {
            Some(j) => {
                let mut j = j;
                j.state = JobState::Processing;
                j.reasons = word("job-printing");
                j.processing_uptime = Some(uptime(now));
                let taken = j.doc;
                j.doc = None;
                let doc: Vec<u8> = match taken {
                    Some(d) => d,
                    None => Vec::new(),
                };
                let st = JobStart {
                    doc,
                    format: j.format,
                    render: j.opts.render_options(&self.cfg.render, j.format == DocFormat::Image),
                    name: owned(j.opts.job_name.as_str()),
                    copies: if j.opts.copies < 1 {
                        1
                    } else {
                        j.opts.copies
                    },
                };
                assert(taken is None ==> st.doc@ =~= Seq::<u8>::empty());
                let ghost q = j;
                proof {
                    lemma_update_wf(m, self.terminal_order@, self.next_id, id, q);
                }
                self.jobs.insert(id, j);
                assert(self.jobs@ =~= m.insert(id, q));
                self.view.current = Some(id);
                self.view.sticky_since = None;
                let mut msg = owned("Preparing job ");
                push_dec(&mut msg, id as u64);
                self.view.set(now, PrinterState::Processing, no_words(), msg);
                Some(st)
            },
            None => None,
        }
    }

    /// The job in work, if there is one, is put down and the printer shown idle.
    pub open spec fn is_idle_after(self, old: PrinterView, now: Now, message: Seq<char>) -> bool {
        (PrinterView { current: None, ..old }).is_set(
            self.view,
            now,
            PrinterState::Idle,
            Seq::empty(),
            message,
        )
    }

    /// Ends the job in work with a reason, and shows the printer idle.
    fn abort_current(&mut self, id: u32, reason: &'static str, message: &str, now: Now)
        requires
            old(self).wf(),
            reasons_ok(JobState::Aborted, seq![reason@]),
        ensures
            final(self).wf(),
            is_aborted(*old(self), *final(self), id, reason@, message@, now),
    {
        self.finish(id, JobState::Aborted, word(reason), owned(message), now);
        let ghost mid = *self;
        self.view.current = None;
        let empty = String::new();
        assert(empty@ =~= Seq::<char>::empty());
        self.view.set(now, PrinterState::Idle, no_words(), empty);
        assert(is_finished(
            *old(self),
            mid,
            id,
            JobState::Aborted,
            seq![reason@],
            message@,
            spec_uptime(now),
        ));
        assert(*self == (Store { view: self.view, ..mid }));
    }

    /// The document could not be rendered: refused by the decoder or the renderer.
    pub fn prep_refused(&mut self, id: u32, message: &str, now: Now)
        requires
            old(self).wf(),
        ensures
            final(self).wf(),
            is_aborted(*old(self), *final(self), id, "document-format-error"@, message@, now),
    {
        proof {
            lemma_reasons();
        }
        self.abort_current(id, "document-format-error", message, now);
    }

    /// The renderer crashed.
    pub fn prep_crashed(&mut self, id: u32, why: &str, now: Now)
        requires
            old(self).wf(),
        ensures
            final(self).wf(),
            is_aborted(
                *old(self),
                *final(self),
                id,
                "document-format-error"@,
                "render crashed: "@ + why@,
                now,
            ),
    {
        proof {
            lemma_reasons();
        }
        let m = prefixed("render crashed: ", why);
        self.abort_current(id, "document-format-error", m.as_str(), now);
    }

    /// Rendering took longer than it may.
    pub fn prep_too_slow(&mut self, id: u32, now: Now)
        requires
            old(self).wf(),
        ensures
            final(self).wf(),
            is_aborted(
                *old(self),
                *final(self),
                id,
                "document-format-error"@,
                "rendering took too long"@,
                now,
            ),
    {
        proof {
            lemma_reasons();
        }
        self.abort_current(id, "document-format-error", "rendering took too long", now);
    }

    /// The worker panicked on this job; it goes on with the next.
    pub fn worker_panicked(&mut self, id: u32, now: Now)
        requires
            old(self).wf(),
        ensures
            final(self).wf(),
            is_aborted(
                *old(self),
                *final(self),
                id,
                "job-completed-with-errors"@,
                "printer service hiccup — print again"@,
                now,
            ),
    {
        proof {
            lemma_reasons();
        }
        self.abort_current(
            id,
            "job-completed-with-errors",
            "printer service hiccup — print again",
            now,
        );
    }

    /// The document is rendered: notes the impressions and the preview.
    pub fn prepared(&mut self, id: u32, pages: u32, preview: GrayPage)
        requires
            old(self).wf(),
            old(self).jobs@.contains_key(id) ==> at_least_1(pages) * at_least_1(
                old(self).jobs@[id].opts.copies,
            ) <= u32::MAX,
        ensures
            final(self).wf(),
            is_prepared(*old(self), *final(self), id, pages, preview),
    {
        match self.jobs.get(&id) {
            Some(_) => {},
            None => return,
        }
        let ghost m = self.jobs@;
        if let Some(j) = self.jobs.remove(&id) {
            let mut j = j;
            let p: u32 = if pages < 1 {
                1
            } else {
                pages
            };
            let c: u32 = if j.opts.copies < 1 {
                1
            } else {
                j.opts.copies
            };
            j.impressions = p * c;
            j.preview = Some(preview);
            proof {
                lemma_note_wf(m, self.terminal_order@, self.next_id, id, j);
            }
            self.jobs.insert(id, j);
            assert(self.jobs@ =~= m.insert(id, j));
        }
    }
}

/// `new` is the store with a job's impressions and preview noted.
pub open spec fn is_prepared(old: Store, new: Store, id: u32, pages: u32, preview: GrayPage) -> bool {
    if old.jobs@.contains_key(id) {
        is_update(
            old,
            new,
            id,
            Job {
                impressions: (at_least_1(pages) * at_least_1(old.jobs@[id].opts.copies)) as u32,
                preview: Some(preview),
                ..old.jobs@[id]
            },
        )
    } else {
        new == old
    }
}

/// `new` is the store after a job was aborted and the printer shown idle.
pub open spec fn is_aborted(
    old: Store,
    new: Store,
    id: u32,
    reason: Seq<char>,
    message: Seq<char>,
    now: Now,
) -> bool {
    exists|mid: Store|
        {
            &&& #[trigger] is_finished(
                old,
                mid,
                id,
                JobState::Aborted,
                seq![reason],
                message,
                spec_uptime(now),
            )
            &&& new == (Store { view: new.view, ..mid })
            &&& new.is_idle_after(old.view, now, Seq::empty())
        }
}

// ------------------------------------------------------------------ attempts

/// What is shown while a job is in work.
pub open spec fn progress_text(id: u32, p: Progress) -> Seq<char> {
    if p.phase == Phase::Printing {
        "Printing job "@ + dec(id as nat) + " — "@ + dec(p.percent as nat) + "%"@
    } else {
        p.message@
    }
}

/// The impressions done at a percentage, in 32 bits.
pub open spec fn impressions_at(impressions: u32, percent: u8) -> u32 {
    (impressions * percent / 100 % 0x1_0000_0000) as u32
}

impl Store {
    /// The driver reports progress.
    pub fn progress(&mut self, id: u32, p: &Progress, now: Now)
        requires
            old(self).wf(),
        ensures
            final(self).wf(),
            *final(self) == (Store { jobs: final(self).jobs, view: final(self).view, ..*old(self) }),
            old(self).view.is_set(
                final(self).view,
                now,
                PrinterState::Processing,
                Seq::empty(),
                progress_text(id, *p),
            ),
            if old(self).jobs@.contains_key(id) {
                exists|q: Job| #[trigger]
                    old(self).jobs@.insert(id, q) == final(self).jobs@ && q.message@ == p.message@ && q
                        == (Job {
                        impressions_completed: impressions_at(
                            old(self).jobs@[id].impressions,
                            p.percent,
                        ),
                        message: q.message,
                        ..old(self).jobs@[id]
                    })
            } else {
                final(self).jobs@ == old(self).jobs@
            },
    {
        let msg = match p.phase {
            Phase::Printing => {
                let mut t = owned("Printing job ");
                push_dec(&mut t, id as u64);
                t.push_str(" — ");
                push_dec(&mut t, p.percent as u64);
                t.push_str("%");
                t
            },
            _ => owned(p.message.as_str()),
        };
        self.view.set(now, PrinterState::Processing, no_words(), msg);
        let known = match self.jobs.get(&id) {
            Some(_) => true,
            None => false,
        };
        if known {
            let ghost m = self.jobs@;
            if let Some(j) = self.jobs.remove(&id) {
                let mut j = j;
                assert(0 <= j.impressions * p.percent <= 255 * u32::MAX) by (nonlinear_arith)
                    requires
                        0 <= p.percent <= 255,
                        0 <= j.impressions <= u32::MAX,
                ;
                let n: u64 = j.impressions as u64 * p.percent as u64 / 100 % 0x1_0000_0000;
                j.impressions_completed = n as u32;
                j.message = owned(p.message.as_str());
                let ghost q = j;
                proof {
                    lemma_note_wf(m, self.terminal_order@, self.next_id, id, q);
                }
                self.jobs.insert(id, j);
                assert(self.jobs@ =~= m.insert(id, q));
            }
        }
    }

    /// A failed attempt is tried again: where it is worth it, the printer wait is not over, and the
    /// service is not stopping.
    pub open spec fn retries(self, e: PrintError, started_ms: u64, shutdown: bool, now: Now) -> bool {
        e.spec_retryable() && now.ms - started_ms < self.cfg.printer_wait_ms && !shutdown
    }

    /// What is shown of a failed attempt.
    pub open spec fn failure_text(
        self,
        e: PrintError,
        started_ms: u64,
        shutdown: bool,
        now: Now,
    ) -> Seq<char> {
        if self.retries(e, started_ms, shutdown, now) {
            e.text() + " (waited "@ + dec(((now.ms - started_ms) / 1000) as nat) + " s of "@ + dec(
                (self.cfg.printer_wait_ms / 1000) as nat,
            ) + " s)"@
        } else {
            e.text()
        }
    }

    /// `new` is the store after a failed attempt: the printer and the job say why.
    pub open spec fn is_attempt_failed(
        self,
        new: Store,
        id: u32,
        e: PrintError,
        started_ms: u64,
        shutdown: bool,
        now: Now,
    ) -> bool {
        let text = self.failure_text(e, started_ms, shutdown, now);
        &&& new == (Store { jobs: new.jobs, view: new.view, ..self })
        &&& self.view.is_set(
            new.view,
            now,
            PrinterState::Processing,
            str_views(e.reasons()),
            text,
        )
        &&& if self.jobs@.contains_key(id) {
            exists|q: Job| #[trigger]
                self.jobs@.insert(id, q) == new.jobs@ && q.message@ == text && q == (Job {
                    message: q.message,
                    ..self.jobs@[id]
                })
        } else {
            new.jobs@ == self.jobs@
        }
    }

    /// An attempt failed, other than by cancellation. Shows why, and says whether to try again.
    pub fn attempt_failed(
        &mut self,
        id: u32,
        e: &PrintError,
        started_ms: u64,
        shutdown: bool,
        now: Now,
    ) -> (r: bool)
        requires
            old(self).wf(),
            started_ms <= now.ms,
        ensures
            final(self).wf(),
            r == old(self).retries(*e, started_ms, shutdown, now),
            old(self).is_attempt_failed(*final(self), id, *e, started_ms, shutdown, now),
    {
        let waited_ms: u64 = now.ms - started_ms;
        let retry = e.retryable() && waited_ms < self.cfg.printer_wait_ms && !shutdown;
        let mut msg = e.kid_message();
        if retry {
            msg.push_str(" (waited ");
            push_dec(&mut msg, waited_ms / 1000);
            msg.push_str(" s of ");
            push_dec(&mut msg, self.cfg.printer_wait_ms / 1000);
            msg.push_str(" s)");
        }
        assert(msg@ == self.failure_text(*e, started_ms, shutdown, now));
        let known = match self.jobs.get(&id) {
            Some(_) => true,
            None => false,
        };
        if known {
            let ghost m = self.jobs@;
            if let Some(j) = self.jobs.remove(&id) {
                let mut j = j;
                j.message = owned(msg.as_str());
                let ghost q = j;
                proof {
                    lemma_note_wf(m, self.terminal_order@, self.next_id, id, q);
                }
                self.jobs.insert(id, j);
                assert(self.jobs@ =~= m.insert(id, q));
            }
        }
        self.view.set(now, PrinterState::Processing, e.printer_reasons(), msg);
        retry
    }
}

/// Seconds to wait after a failed attempt: 3, 5, 10, and then 15.
pub open spec fn backoff_of(attempt: int) -> int {
    if attempt <= 1 {
        3
    } else if attempt == 2 {
        5
    } else if attempt == 3 {
        10
    } else {
        15
    }
}

/// How an attempt was cut short.
#[derive(Debug, Clone, Copy, PartialEq, Eq, Structural)]
pub enum CutShort {
    /// The job was cancelled.
    Cancelled,
    /// The service stops.
    Shutdown,
    /// The attempt took too long.
    Capped,
}

/// What came of an attempt.
#[derive(Debug)]
pub enum AttemptEnd {
    /// The driver came to an end by itself.
    Finished(Result<PrintReport, PrintError>),
    /// The attempt was cut short; in the grace that it was given to stop, the driver ended like this,
    /// or did not end.
    Cut { why: CutShort, stopped: Option<Result<PrintReport, PrintError>> },
}

/// What is reported of an attempt that took too long.
pub const TOO_LONG: &'static str = "printing (attempt took too long)";

/// The result of an attempt: of one that was cut short, what the driver still reported (a print that
/// succeeded after all counts); a cap shows as a timeout, everything else as cancelled.
pub open spec fn attempt_result(end: AttemptEnd) -> Result<PrintReport, PrintError> {
    match end {
        AttemptEnd::Finished(r) => r,
        AttemptEnd::Cut { why, stopped } => match stopped {
            Some(Ok(rep)) => Ok(rep),
            Some(Err(e)) => if why == CutShort::Capped && e == PrintError::Cancelled {
                Err(PrintError::Timeout(TOO_LONG))
            } else {
                Err(e)
            },
            None => if why == CutShort::Capped {
                Err(PrintError::Timeout(TOO_LONG))
            } else {
                Err(PrintError::Cancelled)
            },
        },
    }
}

/// The result of an attempt.
pub fn resolve_attempt(end: AttemptEnd) -> (r: Result<PrintReport, PrintError>)
    ensures
        r == attempt_result(end),
{
    match end {
        AttemptEnd::Finished(r) => r,
        AttemptEnd::Cut { why, stopped } => match stopped {
            Some(Ok(rep)) => Ok(rep),
            Some(Err(PrintError::Cancelled)) => if why == CutShort::Capped {
                Err(PrintError::Timeout(TOO_LONG))
            } else {
                Err(PrintError::Cancelled)
            },
            Some(Err(e)) => Err(e),
            None => if why == CutShort::Capped {
                Err(PrintError::Timeout(TOO_LONG))
            } else {
                Err(PrintError::Cancelled)
            },
        },
    }
}

/// How long to wait, once the service stops, before the attempt in work is cut short: not at all
/// while nothing has reached the paper, the grace once it prints.
pub open spec fn spec_shutdown_delay(phase: Phase, grace_ms: u64) -> u64 {
    if phase == Phase::Printing || phase == Phase::Finishing {
        grace_ms
    } else {
        0
    }
}

/// How long to wait, once the service stops, before the attempt in work is cut short: not at all
/// while nothing has reached the paper, the grace once it prints.
pub fn shutdown_delay_ms(phase: Phase, grace_ms: u64) -> (r: u64)
    ensures
        r == spec_shutdown_delay(phase, grace_ms),
{
    if phase == Phase::Printing || phase == Phase::Finishing {
        grace_ms
    } else {
        0
    }
}

/// The run of a job through its attempts.
#[derive(Debug)]
pub struct JobRun {
    pub id: u32,
    pub started_ms: u64,
    /// Attempts begun.
    pub attempt: u32,
    /// An attempt or a pause was cut short because the service stops.
    pub by_shutdown: bool,
}

/// What the run does next.
#[derive(Debug)]
pub enum RunStep {
    /// Pause for so many seconds, then try again.
    Pause { secs: u64 },
    /// The run is over.
    Over(Result<PrintReport, PrintError>),
}

/// What ended a pause.
#[derive(Debug, Clone, Copy, PartialEq, Eq, Structural)]
pub enum PauseEnd {
    Slept,
    Cancelled,
    Shutdown,
}

impl JobRun {
    /// The start of the attempts.
    pub fn new(id: u32, now: Now) -> (r: JobRun)
        ensures
            r.id == id,
            r.started_ms == now.ms,
            r.attempt == 0,
            !r.by_shutdown,
    {
        JobRun { id, started_ms: now.ms, attempt: 0, by_shutdown: false }
    }

    /// Counts an attempt that begins.
    pub fn begin_attempt(&mut self)
        ensures
            *final(self) == (JobRun {
                attempt: if old(self).attempt < u32::MAX {
                    (old(self).attempt + 1) as u32
                } else {
                    u32::MAX
                },
                ..*old(self)
            }),
    {
        if self.attempt < u32::MAX {
            self.attempt = self.attempt + 1;
        }
    }

    /// `r` is what the run does after an attempt came to its end, and `new` the store then.
    pub open spec fn steps(
        self,
        old: Store,
        new: Store,
        end: AttemptEnd,
        shutdown: bool,
        now: Now,
        r: RunStep,
    ) -> bool {
        match attempt_result(end) {
            Ok(rep) => r == RunStep::Over(Ok(rep)) && new == old,
            Err(PrintError::Cancelled) => r == RunStep::Over(Err(PrintError::Cancelled)) && new == old,
            Err(e) => {
                &&& old.is_attempt_failed(new, self.id, e, self.started_ms, shutdown, now)
                &&& if old.retries(e, self.started_ms, shutdown, now) {
                    r == RunStep::Pause { secs: backoff_of(self.attempt as int) as u64 }
                } else {
                    r == RunStep::Over(Err(e))
                }
            },
        }
    }

    /// Takes the end of an attempt: a success or a cancellation ends the run; a failure is shown, and
    /// is tried again after a pause as long as that is worth it.
    pub fn attempt_ended(&mut self, store: &mut Store, end: AttemptEnd, shutdown: bool, now: Now) -> (r:
        RunStep)
        requires
            old(store).wf(),
            old(self).started_ms <= now.ms,
        ensures
            final(store).wf(),
            *final(self) == (JobRun {
                by_shutdown: old(self).by_shutdown || (end matches AttemptEnd::Cut { why, .. } && why
                    == CutShort::Shutdown),
                ..*old(self)
            }),
            old(self).steps(*old(store), *final(store), end, shutdown, now, r),
    {
        if let AttemptEnd::Cut { why, .. } = &end {
            if *why == CutShort::Shutdown {
                self.by_shutdown = true;
            }
        }
        match resolve_attempt(end) {
            Ok(rep) => RunStep::Over(Ok(rep)),
            Err(PrintError::Cancelled) => RunStep::Over(Err(PrintError::Cancelled)),
            Err(e) => {
                if store.attempt_failed(self.id, &e, self.started_ms, shutdown, now) {
                    let secs: u64 = if self.attempt <= 1 {
                        3
                    } else if self.attempt == 2 {
                        5
                    } else if self.attempt == 3 {
                        10
                    } else {
                        15
                    };
                    RunStep::Pause { secs }
                } else {
                    RunStep::Over(Err(e))
                }
            },
        }
    }

    /// Takes the end of a pause: `true` to try again, `false` where the run is cancelled.
    pub fn pause_ended(&mut self, end: PauseEnd) -> (r: bool)
        ensures
            r == (end == PauseEnd::Slept),
            *final(self) == (JobRun {
                by_shutdown: old(self).by_shutdown || end == PauseEnd::Shutdown,
                ..*old(self)
            }),
    {
        if end == PauseEnd::Shutdown {
            self.by_shutdown = true;
        }
        end == PauseEnd::Slept
    }
}

// ------------------------------------------------------------------ the end

/// The view of the battery after a report: what the report says, or what was known.
pub open spec fn battery_after(rep: PrintReport, known: Option<u8>) -> Option<u8> {
    match rep.battery {
        Some(b) => Some(b),
        None => known,
    }
}

/// `new` is the store after a job was printed.
pub open spec fn is_printed(old: Store, new: Store, id: u32, rep: PrintReport, now: Now) -> bool {
    exists|mid: Store, fin: Store|
        {
            &&& #[trigger] is_marked_printed(old, mid, id, rep)
            &&& #[trigger] is_finished(
                mid,
                fin,
                id,
                JobState::Completed,
                seq!["job-completed-successfully"@],
                Seq::empty(),
                spec_uptime(now),
            )
            &&& new == (Store { view: new.view, ..fin })
            &&& (PrinterView {
                current: None,
                battery: battery_after(rep, old.view.battery),
                last_model: new.view.last_model,
                sticky_since: None,
                sticky_reasons: new.view.sticky_reasons,
                ..old.view
            }).is_set(new.view, now, PrinterState::Idle, Seq::empty(), Seq::empty())
            &&& new.view.last_model is Some && (new.view.last_model->0)@ == rep.model@
            &&& str_views(new.view.sticky_reasons@) == Seq::<Seq<char>>::empty()
        }
}

/// `mid` is the store with all impressions of the job done, and its model noted.
pub open spec fn is_marked_printed(old: Store, mid: Store, id: u32, rep: PrintReport) -> bool {
    if old.jobs@.contains_key(id) {
        exists|q: Job| #[trigger]
            is_update(old, mid, id, q) && q.model is Some && (q.model->0)@ == rep.model@ && q == (Job {
                impressions_completed: old.jobs@[id].impressions,
                model: q.model,
                ..old.jobs@[id]
            })
    } else {
        mid == old
    }
}

/// The reason that an aborted job gets for a failure.
pub open spec fn job_reason(e: PrintError) -> Seq<char> {
    match e {
        PrintError::NotFound => "service-off-line"@,
        PrintError::ConnectFailed { .. } => "service-off-line"@,
        PrintError::NoBluetoothd => "service-off-line"@,
        PrintError::AdapterOff => "service-off-line"@,
        PrintError::Render(_) => "document-format-error"@,
        _ => "job-completed-with-errors"@,
    }
}

/// What stays visible of a failure on the health page.
pub open spec fn sticky_reason(e: PrintError) -> Seq<Seq<char>> {
    match e {
        PrintError::NotFound => seq!["offline-report"@],
        PrintError::ConnectFailed { .. } => seq!["offline-report"@],
        PrintError::NoBluetoothd => seq!["offline-report"@],
        PrintError::AdapterOff => seq!["offline-report"@],
        PrintError::Render(_) => Seq::empty(),
        PrintError::Condition(c) => if c.error_is("no-paper"@) {
            seq!["media-empty-error"@]
        } else {
            seq!["other-error"@]
        },
        _ => seq!["other-error"@],
    }
}

/// What is said of a failed job.
pub open spec fn end_text(e: PrintError, id: u32, wait_ms: u64) -> Seq<char> {
    match e {
        PrintError::NotFound => gave_up_text(id, wait_ms),
        PrintError::ConnectFailed { .. } => gave_up_text(id, wait_ms),
        _ => e.text(),
    }
}

/// Whole minutes of a time, rounded up.
pub open spec fn minutes_of(ms: u64) -> int {
    (ms / 1000 + 59) / 60
}

/// What is said of a job for which the printer was not found.
pub open spec fn gave_up_text(id: u32, wait_ms: u64) -> Seq<char> {
    "Cat printer not found for "@ + dec(minutes_of(wait_ms) as nat) + " min — job "@ + dec(id as nat)
        + " stopped. Turn it on and print again."@
}

/// `new` is the store after a job failed.
pub open spec fn is_failed(old: Store, new: Store, id: u32, e: PrintError, now: Now) -> bool {
    let text = end_text(e, id, old.cfg.printer_wait_ms);
    exists|fin: Store|
        {
            &&& #[trigger] is_finished(
                old,
                fin,
                id,
                JobState::Aborted,
                seq![job_reason(e)],
                text,
                spec_uptime(now),
            )
            &&& new == (Store { view: new.view, ..fin })
            &&& (PrinterView {
                current: None,
                sticky_since: if sticky_reason(e).len() == 0 {
                    None
                } else {
                    Some(now.ms)
                },
                sticky_reasons: new.view.sticky_reasons,
                ..old.view
            }).is_set(
                new.view,
                now,
                PrinterState::Idle,
                Seq::empty(),
                if sticky_reason(e).len() == 0 {
                    Seq::empty()
                } else {
                    text
                },
            )
            &&& str_views(new.view.sticky_reasons@) == sticky_reason(e)
        }
}

/// A run that was cancelled was so because the service stops, and not by a client.
pub open spec fn stopped_by_service(s: Store, id: u32, by_shutdown: bool, shutdown: bool) -> bool {
    by_shutdown || (shutdown && !(s.jobs@.contains_key(id) && s.jobs@[id].cancel))
}

/// `new` is the store after a run was cancelled.
pub open spec fn is_stopped(
    old: Store,
    new: Store,
    id: u32,
    by_shutdown: bool,
    shutdown: bool,
    now: Now,
) -> bool {
    exists|fin: Store|
        {
            &&& if stopped_by_service(old, id, by_shutdown, shutdown) {
                is_finished(
                    old,
                    fin,
                    id,
                    JobState::Aborted,
                    seq!["job-completed-with-errors"@],
                    RESTARTED@,
                    spec_uptime(now),
                )
            } else {
                is_finished(
                    old,
                    fin,
                    id,
                    JobState::Canceled,
                    seq!["job-canceled-by-user"@],
                    "Canceled"@,
                    spec_uptime(now),
                )
            }
            &&& new == (#[trigger] with_view(fin, new.view))
            &&& new.is_idle_after(old.view, now, Seq::empty())
        }
}

/// A store with another view.
pub open spec fn with_view(s: Store, view: PrinterView) -> Store {
    Store { view, ..s }
}

impl Store {
    fn mark_printed(&mut self, id: u32, rep: &PrintReport)
        requires
            old(self).wf(),
        ensures
            final(self).wf(),
            is_marked_printed(*old(self), *final(self), id, *rep),
    {
        match self.jobs.get(&id) {
            Some(_) => {},
            None => return,
        }
        let ghost m = self.jobs@;
        if let Some(j) = self.jobs.remove(&id) {
            let mut j = j;
            j.impressions_completed = j.impressions;
            j.model = Some(owned(rep.model.as_str()));
            let ghost q = j;
            proof {
                lemma_note_wf(m, self.terminal_order@, self.next_id, id, q);
            }
            self.jobs.insert(id, j);
            assert(self.jobs@ =~= m.insert(id, q));
            assert(is_update(*old(self), *self, id, q));
        }
    }

    /// The job was printed.
    pub fn job_printed(&mut self, id: u32, rep: &PrintReport, now: Now)
        requires
            old(self).wf(),
        ensures
            final(self).wf(),
            is_printed(*old(self), *final(self), id, *rep, now),
    {
        proof {
            lemma_reasons();
        }
        let empty = String::new();
        assert(empty@ =~= Seq::<char>::empty());
        let blank = String::new();
        assert(blank@ =~= Seq::<char>::empty());
        self.mark_printed(id, rep);
        let ghost mid = *self;
        self.finish(
            id,
            JobState::Completed,
            word("job-completed-successfully"),
            empty,
            now,
        );
        let ghost fin = *self;
        self.view.current = None;
        if let Some(b) = rep.battery {
            self.view.battery = Some(b);
        }
        self.view.last_model = Some(owned(rep.model.as_str()));
        self.view.set(now, PrinterState::Idle, no_words(), blank);
        self.view.sticky_reasons = no_words();
        self.view.sticky_since = None;
        assert(is_marked_printed(*old(self), mid, id, *rep));
        assert(is_finished(
            mid,
            fin,
            id,
            JobState::Completed,
            seq!["job-completed-successfully"@],
            Seq::empty(),
            spec_uptime(now),
        ));
    }

    /// The run was cancelled: by a client, or because the service stops.
    pub fn job_stopped(&mut self, id: u32, by_shutdown: bool, shutdown: bool, now: Now)
        requires
            old(self).wf(),
        ensures
            final(self).wf(),
            is_stopped(*old(self), *final(self), id, by_shutdown, shutdown, now),
    {
        proof {
            lemma_reasons();
        }
        let cancelled = match self.jobs.get(&id) {
            Some(j) => j.cancel,
            None => false,
        };
        if by_shutdown || (shutdown && !cancelled) {
            self.finish(
                id,
                JobState::Aborted,
                word("job-completed-with-errors"),
                owned(RESTARTED),
                now,
            );
        } else {
            self.finish(
                id,
                JobState::Canceled,
                word("job-canceled-by-user"),
                owned("Canceled"),
                now,
            );
        }
        let ghost fin = *self;
        self.view.current = None;
        let empty = String::new();
        assert(empty@ =~= Seq::<char>::empty());
        self.view.set(now, PrinterState::Idle, no_words(), empty);
        assert(*self == with_view(fin, self.view));
    }

    /// The job failed.
    pub fn job_failed(&mut self, id: u32, e: &PrintError, now: Now)
        requires
            old(self).wf(),
        ensures
            final(self).wf(),
            is_failed(*old(self), *final(self), id, *e, now),
    {
        proof {
            lemma_reasons();
        }
        let reason: &'static str = match e {
            PrintError::NotFound => "service-off-line",
            PrintError::ConnectFailed { .. } => "service-off-line",
            PrintError::NoBluetoothd => "service-off-line",
            PrintError::AdapterOff => "service-off-line",
            PrintError::Render(_) => "document-format-error",
            _ => "job-completed-with-errors",
        };
        let sticky: Vec<&'static str> = match e {
            PrintError::NotFound => word("offline-report"),
            PrintError::ConnectFailed { .. } => word("offline-report"),
            PrintError::NoBluetoothd => word("offline-report"),
            PrintError::AdapterOff => word("offline-report"),
            PrintError::Render(_) => no_words(),
            PrintError::Condition(c) => if c.has_error("no-paper") {
                word("media-empty-error")
            } else {
                word("other-error")
            },
            _ => word("other-error"),
        };
        assert(str_views(sticky@) == sticky_reason(*e));
        let secs: u64 = self.cfg.printer_wait_ms / 1000;
        let mins: u64 = secs / 60 + if secs % 60 == 0 {
            0
        } else {
            1
        };
        let gave_up = match e {
            PrintError::NotFound => true,
            PrintError::ConnectFailed { .. } => true,
            _ => false,
        };
        let msg = if gave_up {
            let mut t = owned("Cat printer not found for ");
            push_dec(&mut t, mins);
            t.push_str(" min — job ");
            push_dec(&mut t, id as u64);
            t.push_str(" stopped. Turn it on and print again.");
            t
        } else {
            e.kid_message()
        };
        assert(msg@ == end_text(*e, id, self.cfg.printer_wait_ms));
        self.finish(id, JobState::Aborted, word(reason), owned(msg.as_str()), now);
        let ghost fin = *self;
        self.view.current = None;
        let lasting = sticky.len() > 0;
        let shown = if lasting {
            msg
        } else {
            String::new()
        };
        assert(str_views(sticky@).len() == sticky@.len());
        assert(!lasting ==> shown@ =~= Seq::<char>::empty());
        self.view.set(now, PrinterState::Idle, no_words(), shown);
        self.view.sticky_reasons = sticky;
        self.view.sticky_since = if lasting {
            Some(now.ms)
        } else {
            None
        };
        assert(is_finished(
            *old(self),
            fin,
            id,
            JobState::Aborted,
            seq![job_reason(*e)],
            end_text(*e, id, old(self).cfg.printer_wait_ms),
            spec_uptime(now),
        ));
    }

    /// `new` is the store after a run came to its end.
    pub open spec fn is_concluded(
        self,
        new: Store,
        id: u32,
        outcome: Result<PrintReport, PrintError>,
        by_shutdown: bool,
        shutdown: bool,
        now: Now,
    ) -> bool {
        match outcome {
            Ok(rep) => is_printed(self, new, id, rep, now),
            Err(PrintError::Cancelled) => is_stopped(self, new, id, by_shutdown, shutdown, now),
            Err(e) => is_failed(self, new, id, e, now),
        }
    }

    /// Ends a job by what came of its run.
    pub fn conclude(
        &mut self,
        run: &JobRun,
        outcome: &Result<PrintReport, PrintError>,
        shutdown: bool,
        now: Now,
    )
        requires
            old(self).wf(),
        ensures
            final(self).wf(),
            old(self).is_concluded(
                *final(self),
                run.id,
                *outcome,
                run.by_shutdown,
                shutdown,
                now,
            ),
    {
        match outcome {
            Ok(rep) => self.job_printed(run.id, rep, now),
            Err(PrintError::Cancelled) => self.job_stopped(
                run.id,
                run.by_shutdown,
                shutdown,
                now,
            ),
            Err(e) => self.job_failed(run.id, e, now),
        }
    }
}

// ------------------------------------------------------------------ laws

/// However a run ends, its job is over (or was already forgotten), no job is in work, and the
/// printer shows idle.
pub proof fn lemma_concluded_is_over(
    old: Store,
    new: Store,
    id: u32,
    outcome: Result<PrintReport, PrintError>,
    by_shutdown: bool,
    shutdown: bool,
    now: Now,
)
    requires
        old.wf(),
        old.is_concluded(new, id, outcome, by_shutdown, shutdown, now),
    ensures
        new.jobs@.contains_key(id) ==> new.jobs@[id].state.terminal(),
        new.view.current is None,
        new.view.state == PrinterState::Idle,
{
    match outcome {
        Ok(rep) => {
            let (mid, fin) = choose|mid: Store, fin: Store|
                {
                    &&& #[trigger] is_marked_printed(old, mid, id, rep)
                    &&& #[trigger] is_finished(
                        mid,
                        fin,
                        id,
                        JobState::Completed,
                        seq!["job-completed-successfully"@],
                        Seq::empty(),
                        spec_uptime(now),
                    )
                    &&& new == (Store { view: new.view, ..fin })
                };
            lemma_finished_is_over(
                mid,
                fin,
                id,
                JobState::Completed,
                seq!["job-completed-successfully"@],
                Seq::empty(),
                spec_uptime(now),
            );
        },
        Err(PrintError::Cancelled) => {
            let fin = choose|fin: Store|
                {
                    &&& if stopped_by_service(old, id, by_shutdown, shutdown) {
                        is_finished(
                            old,
                            fin,
                            id,
                            JobState::Aborted,
                            seq!["job-completed-with-errors"@],
                            RESTARTED@,
                            spec_uptime(now),
                        )
                    } else {
                        is_finished(
                            old,
                            fin,
                            id,
                            JobState::Canceled,
                            seq!["job-canceled-by-user"@],
                            "Canceled"@,
                            spec_uptime(now),
                        )
                    }
                    &&& new == (#[trigger] with_view(fin, new.view))
                };
            if stopped_by_service(old, id, by_shutdown, shutdown) {
                lemma_finished_is_over(
                    old,
                    fin,
                    id,
                    JobState::Aborted,
                    seq!["job-completed-with-errors"@],
                    RESTARTED@,
                    spec_uptime(now),
                );
            } else {
                lemma_finished_is_over(
                    old,
                    fin,
                    id,
                    JobState::Canceled,
                    seq!["job-canceled-by-user"@],
                    "Canceled"@,
                    spec_uptime(now),
                );
            }
        },
        Err(e) => {
            let text = end_text(e, id, old.cfg.printer_wait_ms);
            let fin = choose|fin: Store|
                {
                    &&& #[trigger] is_finished(
                        old,
                        fin,
                        id,
                        JobState::Aborted,
                        seq![job_reason(e)],
                        text,
                        spec_uptime(now),
                    )
                    &&& new == (Store { view: new.view, ..fin })
                };
            lemma_finished_is_over(
                old,
                fin,
                id,
                JobState::Aborted,
                seq![job_reason(e)],
                text,
                spec_uptime(now),
            );
        },
    }
}

/// A job that was ended is over.
pub proof fn lemma_finished_is_over(
    old: Store,
    new: Store,
    id: u32,
    state: JobState,
    reasons: Seq<Seq<char>>,
    message: Seq<char>,
    up: u32,
)
    requires
        state.terminal(),
        is_finished(old, new, id, state, reasons, message, up),
    ensures
        new.jobs@.contains_key(id) ==> new.jobs@[id].state.terminal(),
{
}

/// A job that ends is never reported with a reason that a client would take for success or for its
/// own cancellation.
pub proof fn lemma_failures_are_failures(e: PrintError)
    ensures
        reasons_ok(JobState::Aborted, seq![job_reason(e)]),
{
    lemma_reasons();
}

} // verus!
